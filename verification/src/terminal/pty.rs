//! What a terminal session is started with.

use vstd::prelude::*;

verus! {

/// A terminal session's size, program and terminal type.
pub struct PtyConfig {
    pub cols: u16,
    pub rows: u16,
    pub shell: Option<String>,
    pub term: String,
}

/// The program to run: the one that was asked for, or else the user's shell,
/// or else the system's.
pub open spec fn chosen_shell(asked: Option<Seq<char>>, users: Option<Seq<char>>) -> Seq<char> {
    match asked {
        Some(s) => s,
        None => match users {
            Some(s) => s,
            None => "/bin/sh"@,
        },
    }
}

/// The characters of a string that may be absent.
pub open spec fn chars_of(s: Option<String>) -> Option<Seq<char>> {
    match s {
        Some(t) => Some(t@),
        None => None,
    }
}

/// The program to run, given the one that was asked for and the user's shell.
pub fn choose_shell(asked: Option<String>, users: Option<String>) -> (r: String)
    ensures
        r@ == chosen_shell(chars_of(asked), chars_of(users)),
{
    match asked {
        Some(s) => s,
        None => match users {
            Some(s) => s,
            None => "/bin/sh".to_owned(),
        },
    }
}

/// What became of reading from the program.
#[derive(Clone, Copy, Debug, PartialEq, Eq, Structural)]
pub enum ReadOutcome {
    /// So many bytes were read.
    Read(usize),
    Failed,
}

/// What to do with it.
#[derive(Clone, Copy, Debug, PartialEq, Eq, Structural)]
pub enum ReadStep {
    /// Hand on the first bytes of the buffer and read on.
    Deliver(usize),
    Stop,
}

/// What to do after a read: the end of the output and a failure both end the
/// reading.
pub fn after_read(outcome: ReadOutcome) -> (r: ReadStep)
    ensures
        r == match outcome {
            ReadOutcome::Read(n) => if n == 0 {
                ReadStep::Stop
            } else {
                ReadStep::Deliver(n)
            },
            ReadOutcome::Failed => ReadStep::Stop,
        },
        r is Stop <==> outcome == ReadOutcome::Failed || outcome == ReadOutcome::Read(0),
        r matches ReadStep::Deliver(n) ==> n > 0 && outcome == ReadOutcome::Read(n),
{
    match outcome {
        ReadOutcome::Read(n) => {
            if n == 0 {
                ReadStep::Stop
            } else {
                ReadStep::Deliver(n)
            }
        },
        ReadOutcome::Failed => ReadStep::Stop,
    }
}

/// The program that was asked for comes first, the user's shell second, and
/// without either it is `/bin/sh`.
pub proof fn lemma_which_shell(asked: Option<Seq<char>>, users: Option<Seq<char>>)
    ensures
        asked matches Some(shell) ==> chosen_shell(asked, users) == shell,
        asked is None ==> (users matches Some(shell) ==> chosen_shell(asked, users) == shell),
        asked is None && users is None ==> chosen_shell(asked, users) =~= seq![
            '/',
            'b',
            'i',
            'n',
            '/',
            's',
            'h',
        ],
{
    reveal_strlit("/bin/sh");
}

/// The characters of a string that may be absent are its own.
pub proof fn lemma_chars(s: Option<String>)
    ensures
        s is None <==> chars_of(s) is None,
        s matches Some(t) ==> chars_of(s) == Some(t@),
{
}

} // verus!
