//! What has to be known of the bytes that a program prints, before the terminal
//! is fed them: whether they spell characters of two columns, how long the
//! colours are that they set, and where it matters that they are cut.

use vstd::prelude::*;

verus! {

/// The bytes are printable ASCII characters.
pub open spec fn is_plain(data: Seq<u8>) -> bool {
    forall|i: int| 0 <= i < data.len() ==> 0x20 <= #[trigger] data[i] <= 0x7E
}

/// Whether a character whose UTF-8 form begins with these two bytes may take
/// more than one column, as `unicode-width` measures it for the terminal: one
/// of the 64 characters of three bytes, or of the 4096 of four, does.
pub open spec fn may_begin_wide(lead: u8, second: u8) -> bool {
    &&& 0x80 <= second <= 0xBF
    &&& {
        ||| lead == 0xE1 && (second == 0x84 || second == 0x85 || second == 0x9E || second == 0x9F)
        ||| lead == 0xE2 && (second == 0x8C || second == 0x8F || 0x97 <= second <= 0x9E || second
            == 0xAC || second == 0xAD || 0xBA <= second)
        ||| 0xE3 <= lead <= 0xE9
        ||| lead == 0xEA && (second <= 0x93 || second == 0xA5 || 0xB0 <= second)
        ||| lead == 0xEB
        ||| lead == 0xEC
        ||| lead == 0xED && second <= 0x9E
        ||| lead == 0xEF && (0xA4 <= second <= 0xAB || second == 0xB8 || second == 0xB9 || second
            == 0xBC || second == 0xBD || second == 0xBF)
        ||| lead == 0xF0 && (0x96 <= second <= 0x9B || second == 0x9D || 0x9F <= second)
    }
}

/// The bytes spell no character that may take two columns.
pub open spec fn is_narrow(data: Seq<u8>) -> bool {
    forall|i: int|
        0 <= i && i + 1 < data.len() ==> !may_begin_wide(#[trigger] data[i], data[i + 1])
}

/// How far a command to the terminal, `ESC ] .. `, has come that may set
/// colours.
#[derive(Clone, Copy, Debug, PartialEq, Eq, Structural)]
pub enum CommandState {
    /// Outside such a command.
    Text,
    /// After the escape character.
    Escape,
    /// Before the command's number.
    Start,
    /// After a first digit of one.
    One,
    /// After the number of a command that sets colours.
    Colors,
    /// In a command of another number.
    Other,
    /// After a semicolon.
    Separated,
    /// In a parameter that is no colour of this form.
    Parameter,
    /// In a colour after its number sign: the length so far, and the lengths of
    /// the parts before the first byte that is no digit and before the first
    /// that is not zero.
    Color { len: u64, digits: u64, zeros: u64 },
}

/// One more, as far as 64 bits count.
pub open spec fn counted(n: u64) -> u64 {
    if n < u64::MAX {
        (n + 1) as u64
    } else {
        n
    }
}

/// The byte ends a command: bell, cancel, substitute or escape.
pub open spec fn ends_command(b: u8) -> bool {
    b == 0x07 || b == 0x18 || b == 0x1A || b == 0x1B
}

/// The byte is left out of a command.
pub open spec fn is_left_out(b: u8) -> bool {
    b < 0x20 && !ends_command(b)
}

/// The byte may stand in a number of base 16.
pub open spec fn is_digit(b: u8) -> bool {
    0x30 <= b <= 0x39 || 0x41 <= b <= 0x46 || 0x61 <= b <= 0x66 || b == 0x2B
}

/// The byte may stand before the first digit of a number that is not zero.
pub open spec fn is_zero(b: u8) -> bool {
    b == 0x30 || b == 0x2B
}

/// The state after one more byte.
pub open spec fn command_after(state: CommandState, b: u8) -> CommandState {
    match state {
        CommandState::Text => if b == 0x1B {
            CommandState::Escape
        } else {
            CommandState::Text
        },
        CommandState::Escape => if b == 0x5D {
            CommandState::Start
        } else if (b < 0x20 && b != 0x18 && b != 0x1A) || b >= 0x7F {
            CommandState::Escape
        } else {
            CommandState::Text
        },
        _ => if b == 0x1B {
            CommandState::Escape
        } else if ends_command(b) {
            CommandState::Text
        } else if is_left_out(b) {
            state
        } else if b == 0x3B {
            match state {
                CommandState::Start | CommandState::One | CommandState::Other => CommandState::Other,
                _ => CommandState::Separated,
            }
        } else {
            match state {
                CommandState::Start => if b == 0x34 {
                    CommandState::Colors
                } else if b == 0x31 {
                    CommandState::One
                } else {
                    CommandState::Other
                },
                CommandState::One => if 0x30 <= b <= 0x32 {
                    CommandState::Colors
                } else {
                    CommandState::Other
                },
                CommandState::Separated => if b == 0x23 {
                    CommandState::Color { len: 0, digits: 0, zeros: 0 }
                } else {
                    CommandState::Parameter
                },
                CommandState::Parameter => CommandState::Parameter,
                CommandState::Color { len, digits, zeros } => CommandState::Color {
                    len: counted(len),
                    digits: if digits == len && is_digit(b) {
                        counted(digits)
                    } else {
                        digits
                    },
                    zeros: if zeros == len && is_zero(b) {
                        counted(zeros)
                    } else {
                        zeros
                    },
                },
                _ => CommandState::Other,
            }
        },
    }
}

/// How many digits of base 16 fill a machine word.
pub open spec fn word_digits() -> int {
    usize::BITS as int / 4
}

/// A colour of this length has a channel of more digits than a machine word
/// holds, its digits reach as far as the first such channel, and zeros before
/// them may keep that channel's number within a word.  The last channel takes
/// what is left over when the length is divided by three.
pub open spec fn is_long_color(len: u64, digits: u64, zeros: u64) -> bool {
    let n = word_digits();
    if len >= 3 * n + 3 {
        digits >= len / 3 && zeros + n >= len / 3
    } else {
        (len == 3 * n - 1 || len == 3 * n + 1 || len == 3 * n + 2) && digits == len
    }
}

/// The byte ends a colour that is too long.
pub open spec fn ends_long_color(state: CommandState, b: u8) -> bool {
    state matches CommandState::Color { len, digits, zeros } && (ends_command(b) || b == 0x3B)
        && is_long_color(len, digits, zeros)
}

/// The state after the bytes.
pub open spec fn command_state(data: Seq<u8>) -> CommandState
    decreases data.len(),
{
    if data.len() == 0 {
        CommandState::Text
    } else {
        command_after(command_state(data.drop_last()), data.last())
    }
}

/// No colour that the bytes set has a number of more digits than a machine word
/// holds.
pub open spec fn has_short_colors(data: Seq<u8>) -> bool
    decreases data.len(),
{
    data.len() == 0 || (has_short_colors(data.drop_last()) && !ends_long_color(
        command_state(data.drop_last()),
        data.last(),
    ))
}

/// What is known of the bytes so far.
#[derive(Clone, Copy, Debug, PartialEq, Eq, Structural)]
pub struct StreamScan {
    pub command: CommandState,
    /// The last byte, or zero before the first.
    pub last: u8,
    pub narrow: bool,
    pub short_colors: bool,
}

/// What is known of some bytes.
pub open spec fn scan_of(data: Seq<u8>) -> StreamScan {
    StreamScan {
        command: command_state(data),
        last: if data.len() == 0 {
            0
        } else {
            data.last()
        },
        narrow: is_narrow(data),
        short_colors: has_short_colors(data),
    }
}

/// Whether a character that begins with these two bytes may take two columns.
fn begins_wide(lead: u8, second: u8) -> (r: bool)
    ensures
        r == may_begin_wide(lead, second),
{
    if second < 0x80 || 0xBF < second {
        return false;
    }
    match lead {
        0xE1 => second == 0x84 || second == 0x85 || second == 0x9E || second == 0x9F,
        0xE2 => second == 0x8C || second == 0x8F || (0x97 <= second && second <= 0x9E) || second
            == 0xAC || second == 0xAD || 0xBA <= second,
        0xE3..=0xE9 => true,
        0xEA => second <= 0x93 || second == 0xA5 || 0xB0 <= second,
        0xEB | 0xEC => true,
        0xED => second <= 0x9E,
        0xEF => (0xA4 <= second && second <= 0xAB) || second == 0xB8 || second == 0xB9 || second
            == 0xBC || second == 0xBD || second == 0xBF,
        0xF0 => (0x96 <= second && second <= 0x9B) || second == 0x9D || 0x9F <= second,
        _ => false,
    }
}

/// The state after one more byte.
fn step_command(state: CommandState, b: u8) -> (r: CommandState)
    ensures
        r == command_after(state, b),
{
    match state {
        CommandState::Text => {
            if b == 0x1B {
                CommandState::Escape
            } else {
                CommandState::Text
            }
        },
        CommandState::Escape => {
            if b == 0x5D {
                CommandState::Start
            } else if (b < 0x20 && b != 0x18 && b != 0x1A) || b >= 0x7F {
                CommandState::Escape
            } else {
                CommandState::Text
            }
        },
        _ => step_parameter(state, b),
    }
}

/// The state after one more byte of a command.
fn step_parameter(state: CommandState, b: u8) -> (r: CommandState)
    requires
        state !is Text,
        state !is Escape,
    ensures
        r == command_after(state, b),
{
    if b == 0x1B {
        return CommandState::Escape;
    }
    if b == 0x07 || b == 0x18 || b == 0x1A {
        return CommandState::Text;
    }
    if b < 0x20 {
        return state;
    }
    if b == 0x3B {
        return match state {
            CommandState::Start | CommandState::One | CommandState::Other => CommandState::Other,
            _ => CommandState::Separated,
        };
    }
    match state {
        CommandState::Start => {
            if b == 0x34 {
                CommandState::Colors
            } else if b == 0x31 {
                CommandState::One
            } else {
                CommandState::Other
            }
        },
        CommandState::One => {
            if 0x30 <= b && b <= 0x32 {
                CommandState::Colors
            } else {
                CommandState::Other
            }
        },
        CommandState::Separated => {
            if b == 0x23 {
                CommandState::Color { len: 0, digits: 0, zeros: 0 }
            } else {
                CommandState::Parameter
            }
        },
        CommandState::Parameter => CommandState::Parameter,
        CommandState::Color { len, digits, zeros } => {
            let digit: bool = (0x30 <= b && b <= 0x39) || (0x41 <= b && b <= 0x46) || (0x61 <= b
                && b <= 0x66) || b == 0x2B;
            CommandState::Color {
                len: one_more(len),
                digits: if digits == len && digit {
                    one_more(digits)
                } else {
                    digits
                },
                zeros: if zeros == len && (b == 0x30 || b == 0x2B) {
                    one_more(zeros)
                } else {
                    zeros
                },
            }
        },
        _ => CommandState::Other,
    }
}

/// One more, as far as 64 bits count.
fn one_more(n: u64) -> (r: u64)
    ensures
        r == counted(n),
{
    if n < u64::MAX {
        n + 1
    } else {
        n
    }
}

/// Whether the byte ends a colour that is too long.
fn is_end_of_long_color(state: CommandState, b: u8) -> (r: bool)
    ensures
        r == ends_long_color(state, b),
{
    match state {
        CommandState::Color { len, digits, zeros } => {
            let n: u64 = usize::BITS as u64 / 4;
            (b == 0x07 || b == 0x18 || b == 0x1A || b == 0x1B || b == 0x3B) && if len >= 3 * n + 3 {
                digits >= len / 3 && zeros >= len / 3 - n
            } else {
                (len == 3 * n - 1 || len == 3 * n + 1 || len == 3 * n + 2) && digits == len
            }
        },
        _ => false,
    }
}

impl StreamScan {
    /// Nothing is known before the first byte.
    pub fn new() -> (r: StreamScan)
        ensures
            r == scan_of(Seq::empty()),
    {
        StreamScan { command: CommandState::Text, last: 0, narrow: true, short_colors: true }
    }

    /// What is known after some more bytes.
    pub(crate) fn after(&self, data: &[u8], Ghost(before): Ghost<Seq<u8>>) -> (r: StreamScan)
        requires
            *self == scan_of(before),
        ensures
            r == scan_of(before + data@),
    {
        let mut scan: StreamScan = *self;
        let mut i: usize = 0;
        assert(before + data@.take(0) == before);
        while i < data.len()
            invariant
                i <= data@.len(),
                scan == scan_of(before + data@.take(i as int)),
            decreases data@.len() - i,
        {
            let b: u8 = data[i];
            proof {
                let so_far = before + data@.take(i as int);
                let next = before + data@.take(i + 1);
                assert(next.drop_last() == so_far);
                assert(next.last() == b);
                lemma_narrow_step(so_far, b);
                assert(next == so_far.push(b));
            }
            scan = StreamScan {
                command: step_command(scan.command, b),
                last: b,
                narrow: scan.narrow && !begins_wide(scan.last, b),
                short_colors: scan.short_colors && !is_end_of_long_color(scan.command, b),
            };
            i = i + 1;
        }
        assert(data@.take(i as int) == data@);
        scan
    }
}

/// One more byte spells a wide character only together with the last one.
proof fn lemma_narrow_step(data: Seq<u8>, b: u8)
    ensures
        is_narrow(data.push(b)) <==> is_narrow(data) && (data.len() == 0 || !may_begin_wide(
            data.last(),
            b,
        )),
{
    let next = data.push(b);
    if is_narrow(next) {
        assert forall|i: int| 0 <= i && i + 1 < data.len() implies !may_begin_wide(
            #[trigger] data[i],
            data[i + 1],
        ) by {
            assert(next[i] == data[i] && next[i + 1] == data[i + 1]);
        }
        if data.len() > 0 {
            assert(!may_begin_wide(next[data.len() - 1], next[data.len() as int]));
        }
    }
    if is_narrow(data) && (data.len() == 0 || !may_begin_wide(data.last(), b)) {
        assert forall|i: int| 0 <= i && i + 1 < next.len() implies !may_begin_wide(
            #[trigger] next[i],
            next[i + 1],
        ) by {
            if i + 1 < data.len() {
                assert(next[i] == data[i] && next[i + 1] == data[i + 1]);
            }
        }
    }
}

/// What was fed once some more bytes were: no bytes are no piece.
pub open spec fn fed_with(fed: Seq<Seq<u8>>, data: Seq<u8>) -> Seq<Seq<u8>> {
    if data.len() == 0 {
        fed
    } else {
        fed.push(data)
    }
}

/// The same bytes in one piece.
pub open spec fn joined(fed: Seq<Seq<u8>>) -> Seq<Seq<u8>> {
    fed_with(Seq::empty(), fed.flatten())
}

/// A byte is lost where `next` comes behind `before`: the cut parts the two
/// bytes of a character, behind which stand an ASCII character and a byte
/// beyond ASCII.  The ASCII character is skipped together with the second byte.
/// Inside a command to the terminal nothing is lost, but such a cut counts there
/// too.
pub open spec fn loses_byte(before: Seq<u8>, next: Seq<u8>) -> bool {
    &&& before.len() > 0
    &&& 0xC2 <= before.last() <= 0xDF
    &&& next.len() >= 3
    &&& 0x80 <= next[0] <= 0xBF
    &&& next[1] < 0x80
    &&& next[2] >= 0x80
}

/// The same bytes, cut only where a byte is lost.
pub open spec fn mended(fed: Seq<Seq<u8>>) -> Seq<Seq<u8>>
    decreases fed.len(),
{
    if fed.len() == 0 {
        Seq::empty()
    } else {
        let rest = mended(fed.drop_last());
        let next = fed.last();
        if next.len() == 0 {
            rest
        } else if rest.len() == 0 || loses_byte(fed.drop_last().flatten(), next) {
            rest.push(next)
        } else {
            rest.drop_last().push(rest.last() + next)
        }
    }
}

/// No byte is lost at any cut.
pub open spec fn loses_nothing(fed: Seq<Seq<u8>>) -> bool {
    forall|p: int| 0 <= p < fed.len() ==> !loses_byte(#[trigger] fed.take(p).flatten(), fed[p])
}

/// Whether a byte counts in a control sequence, or begins it or breaks it off.
pub open spec fn counts_in_sequence() -> spec_fn(u8) -> bool {
    |b: u8| 0x20 <= b <= 0x7E || b == 0x18 || b == 0x1A || b == 0x1B
}

/// The bytes that count in a control sequence, and those that begin or break it
/// off.
pub open spec fn sequence_bytes(data: Seq<u8>) -> Seq<u8> {
    data.filter(counts_in_sequence())
}

/// Digits and separators, as parameters are made of.
pub open spec fn is_parameters(data: Seq<u8>) -> bool {
    forall|i: int| 0 <= i < data.len() ==> 0x30 <= #[trigger] data[i] <= 0x3B
}

/// The number 2026, from `at` on, is a parameter or begins one that has further
/// parts: behind the start or a semicolon only zeros may come before it.
pub open spec fn is_update_parameter(data: Seq<u8>, start: int, at: int) -> bool {
    &&& 0 <= start <= at
    &&& start == 0 || data[start - 1] == 0x3B
    &&& forall|i: int| start <= i < at ==> #[trigger] data[i] == 0x30
    &&& at + 4 <= data.len()
    &&& data.subrange(at, at + 4) == seq![0x32u8, 0x30, 0x32, 0x36]
    &&& at + 4 == data.len() || data[at + 4] >= 0x3A
}

/// The control sequence between `from` and `to` begins a synchronized update:
/// `ESC [ ? .. h` with 2026 among its parameters.
pub open spec fn is_update(data: Seq<u8>, from: int, to: int) -> bool {
    &&& 0 <= from && from + 3 <= to < data.len()
    &&& data[from] == 0x1B && data[from + 1] == 0x5B && data[from + 2] == 0x3F
    &&& data[to] == 0x68
    &&& is_parameters(data.subrange(from + 3, to))
    &&& exists|start: int, at: int|
        #[trigger] is_update_parameter(data.subrange(from + 3, to), start, at)
}

/// The control sequence between `from` and `to` repeats the last character:
/// `ESC [ .. b`.
pub open spec fn is_repetition(data: Seq<u8>, from: int, to: int) -> bool {
    &&& 0 <= from && from + 2 <= to < data.len()
    &&& data[from] == 0x1B && data[from + 1] == 0x5B
    &&& data[to] == 0x62
    &&& is_parameters(data.subrange(from + 2, to))
}

/// The bytes hold a control sequence that begins a synchronized update.
pub open spec fn has_update(data: Seq<u8>) -> bool {
    exists|from: int, to: int| #[trigger] is_update(sequence_bytes(data), from, to)
}

/// The bytes hold a control sequence that repeats the last character.
pub open spec fn has_repetition(data: Seq<u8>) -> bool {
    exists|from: int, to: int| #[trigger] is_repetition(sequence_bytes(data), from, to)
}

/// A cut parts the two bytes of a control character.
pub open spec fn parts_control(fed: Seq<Seq<u8>>) -> bool {
    exists|p: int|
        0 <= p < fed.len() && (#[trigger] fed.take(p).flatten()).len() > 0
            && fed.take(p).flatten().last() == 0xC2 && fed[p].len() > 0 && 0x80 <= fed[p][0] <= 0x9F
}

/// Nothing depends on the cuts but which bytes are lost.  A synchronized update
/// is held back piece by piece, and a control character that was parted counts
/// as the last character.
pub open spec fn is_regular(fed: Seq<Seq<u8>>) -> bool {
    &&& !has_update(fed.flatten())
    &&& parts_control(fed) ==> !has_repetition(fed.flatten())
}

/// Text without escape characters holds no control sequence, so nothing depends
/// on its cuts but which bytes are lost.
pub proof fn lemma_text_is_regular(fed: Seq<Seq<u8>>)
    requires
        !fed.flatten().contains(0x1B),
    ensures
        is_regular(fed),
{
    let data = fed.flatten();
    let w = sequence_bytes(data);
    assert forall|i: int| 0 <= i < w.len() implies w[i] != 0x1B by {
        if w[i] == 0x1B {
            assert(w.contains(0x1B));
            data.lemma_filter_contains_rev(counts_in_sequence(), 0x1B);
        }
    }
}

/// Where nothing is lost, mending leaves one piece.
pub proof fn lemma_nothing_lost(fed: Seq<Seq<u8>>)
    requires
        loses_nothing(fed),
    ensures
        mended(fed) == joined(fed),
    decreases fed.len(),
{
    if fed.len() > 0 {
        let first = fed.drop_last();
        let next = fed.last();
        assert forall|p: int| 0 <= p < first.len() implies !loses_byte(
            #[trigger] first.take(p).flatten(),
            first[p],
        ) by {
            assert(first.take(p) == fed.take(p));
        }
        lemma_nothing_lost(first);
        first.lemma_flatten_push(next);
        assert(first.push(next) == fed);
        assert(fed.take(fed.len() - 1) == first);
        assert(!loses_byte(fed.take(fed.len() - 1).flatten(), fed[fed.len() - 1]));
        assert(mended(fed) =~= joined(fed));
    } else {
        assert(mended(fed) =~= joined(fed));
    }
}

/// Whether some bytes come in one piece or two makes no difference to what is
/// mended, unless it decides whether a byte is lost.
pub proof fn lemma_cut_is_mended(fed: Seq<Seq<u8>>, a: Seq<u8>, b: Seq<u8>)
    requires
        is_harmless_cut(fed.flatten(), a, b),
    ensures
        mended(fed_with(fed_with(fed, a), b)) == mended(fed_with(fed, a + b)),
{
    if a.len() == 0 {
        assert(a + b == b);
    } else if b.len() == 0 {
        assert(a + b == a);
    } else {
        let rest = mended(fed);
        let once = fed.push(a + b);
        let first = fed.push(a);
        let twice = first.push(b);
        fed.lemma_flatten_push(a);
        assert(once.drop_last() == fed && first.drop_last() == fed && twice.drop_last() == first);
        assert(mended(twice) == mended(first).drop_last().push(mended(first).last() + b));
        if rest.len() == 0 || loses_byte(fed.flatten(), a) {
            assert(mended(first) == rest.push(a));
            assert(mended(first).drop_last() == rest);
        } else {
            assert(mended(first) == rest.drop_last().push(rest.last() + a));
            assert(mended(first).drop_last() == rest.drop_last());
            assert(rest.last() + a + b == rest.last() + (a + b));
        }
    }
}

/// Behind the bytes `before`, it does not decide about a lost byte whether `a`
/// and `b` come in one piece or two.
pub open spec fn is_harmless_cut(before: Seq<u8>, a: Seq<u8>, b: Seq<u8>) -> bool {
    a.len() > 0 && b.len() > 0 ==> !loses_byte(before + a, b) && (loses_byte(before, a)
        <==> loses_byte(before, a + b))
}

/// Some more bytes come behind those that were fed.
pub proof fn lemma_fed_with(fed: Seq<Seq<u8>>, data: Seq<u8>)
    ensures
        fed_with(fed, data).flatten() == fed.flatten() + data,
{
    if data.len() == 0 {
        assert(fed.flatten() + data == fed.flatten());
    } else {
        fed.lemma_flatten_push(data);
    }
}

/// The bytes of each piece.
pub open spec fn pieces(pending: Seq<Vec<u8>>) -> Seq<Seq<u8>> {
    Seq::new(pending.len(), |i: int| pending[i]@)
}

/// What was fed once some more pieces were.
pub open spec fn fed_all(fed: Seq<Seq<u8>>, more: Seq<Seq<u8>>) -> Seq<Seq<u8>>
    decreases more.len(),
{
    if more.len() == 0 {
        fed
    } else {
        fed_with(fed_all(fed, more.drop_last()), more.last())
    }
}

/// Some more pieces come behind those that were fed.
pub proof fn lemma_fed_all(fed: Seq<Seq<u8>>, more: Seq<Seq<u8>>)
    ensures
        fed_all(fed, more).flatten() == fed.flatten() + more.flatten(),
    decreases more.len(),
{
    if more.len() == 0 {
        assert(fed.flatten() + more.flatten() == fed.flatten());
    } else {
        let rest = more.drop_last();
        lemma_fed_all(fed, rest);
        lemma_fed_with(fed_all(fed, rest), more.last());
        rest.lemma_flatten_push(more.last());
        assert(rest.push(more.last()) == more);
        assert(fed.flatten() + rest.flatten() + more.last() == fed.flatten() + (rest.flatten()
            + more.last()));
    }
}

/// What holds of some bytes holds of those among them that come first.
pub proof fn lemma_first_part(data: Seq<u8>, more: Seq<u8>)
    ensures
        is_narrow(data + more) ==> is_narrow(data),
        has_short_colors(data + more) ==> has_short_colors(data),
    decreases more.len(),
{
    if more.len() == 0 {
        assert(data + more == data);
    } else {
        let rest = more.drop_last();
        lemma_first_part(data, rest);
        assert((data + more).drop_last() == data + rest);
        assert((data + more) == (data + rest).push(more.last()));
        lemma_narrow_step(data + rest, more.last());
    }
}

/// Pieces are kept as they come, one after the other, and only empty ones leave
/// no trace.
pub proof fn lemma_pieces_are_kept(fed: Seq<Seq<u8>>, more: Seq<Seq<u8>>, piece: Seq<u8>)
    requires
        forall|i: int| 0 <= i < more.len() ==> (#[trigger] more[i]).len() > 0,
    ensures
        fed_all(fed, more) == fed + more,
        piece.len() > 0 ==> fed_with(fed, piece) == fed + seq![piece],
        piece.len() == 0 ==> fed_with(fed, piece) == fed,
    decreases more.len(),
{
    if more.len() > 0 {
        lemma_pieces_are_kept(fed, more.drop_last(), piece);
        assert((fed + more.drop_last()).push(more.last()) =~= fed + more);
    } else {
        assert(fed + more =~= fed);
    }
    assert(fed.push(piece) =~= fed + seq![piece]);
}

/// Which characters may take two columns, in blocks of 64, and beyond 16 bits of
/// 4096.  A character of three bytes begins with its highest four bits and the
/// next six, one of four bytes with its highest three and the next six.  Nothing
/// else begins one.
pub proof fn lemma_wide_characters(cp: int, lead: u8, second: u8)
    ensures
        0x800 <= cp < 0x1_0000 ==> (may_begin_wide(
            (0xE0 + cp / 0x1000) as u8,
            (0x80 + cp / 0x40 % 0x40) as u8,
        ) <==> {
            ||| 0x1100 <= cp < 0x1180 || 0x1780 <= cp < 0x1800
            ||| 0x2300 <= cp < 0x2340 || 0x23C0 <= cp < 0x2400 || 0x25C0 <= cp < 0x27C0
            ||| 0x2B00 <= cp < 0x2B80 || 0x2E80 <= cp < 0xA500 || 0xA940 <= cp < 0xA980
            ||| 0xAC00 <= cp < 0xD7C0 || 0xF900 <= cp < 0xFB00 || 0xFE00 <= cp < 0xFE80
            ||| 0xFF00 <= cp < 0xFF80 || 0xFFC0 <= cp < 0x1_0000
        }),
        0x1_0000 <= cp < 0x11_0000 ==> (may_begin_wide(
            (0xF0 + cp / 0x4_0000) as u8,
            (0x80 + cp / 0x1000 % 0x40) as u8,
        ) <==> 0x1_6000 <= cp < 0x1_C000 || 0x1_D000 <= cp < 0x1_E000 || 0x1_F000 <= cp < 0x4_0000),
        lead < 0xE1 || lead > 0xF0 || second < 0x80 || second > 0xBF ==> !may_begin_wide(
            lead,
            second,
        ),
{
    if 0x800 <= cp < 0x1_0000 {
        let b = cp / 0x40;
        assert(b / 0x40 == cp / 0x1000);
        assert(b == 0x40 * (b / 0x40) + b % 0x40);
    }
    if 0x1_0000 <= cp < 0x11_0000 {
        let b = cp / 0x1000;
        assert(b / 0x40 == cp / 0x4_0000);
        assert(b == 0x40 * (b / 0x40) + b % 0x40);
    }
}

/// Bytes are narrow exactly when no two neighbours begin a wide character; ASCII
/// always is.
pub proof fn lemma_which_bytes_are_narrow(data: Seq<u8>, i: int)
    ensures
        0 <= i && i + 1 < data.len() && may_begin_wide(data[i], data[i + 1]) ==> !is_narrow(data),
        !is_narrow(data) ==> exists|k: int|
            0 <= k && k + 1 < data.len() && may_begin_wide(#[trigger] data[k], data[k + 1]),
        (forall|k: int| 0 <= k < data.len() ==> #[trigger] data[k] < 0x80) ==> is_narrow(data),
{
}

/// One more byte.
proof fn lemma_one_more(data: Seq<u8>, b: u8)
    ensures
        command_state(data.push(b)) == command_after(command_state(data), b),
        has_short_colors(data.push(b)) <==> has_short_colors(data) && !ends_long_color(
            command_state(data),
            b,
        ),
{
    assert(data.push(b).drop_last() == data);
}

/// Bytes without an escape character set no colours.
pub proof fn lemma_no_command(data: Seq<u8>)
    requires
        !data.contains(0x1B),
    ensures
        command_state(data) is Text,
        has_short_colors(data),
    decreases data.len(),
{
    if data.len() > 0 {
        let rest = data.drop_last();
        assert(data.last() != 0x1B) by {
            assert(data[data.len() - 1] == data.last());
        }
        assert forall|i: int| 0 <= i < rest.len() implies rest[i] != 0x1B by {
            assert(data[i] == rest[i]);
        }
        lemma_no_command(rest);
    }
}

/// The digits of base 16.
pub open spec fn is_hex(data: Seq<u8>) -> bool {
    forall|i: int|
        0 <= i < data.len() ==> 0x30 <= #[trigger] data[i] <= 0x39 || 0x41 <= data[i] <= 0x46 || 0x61
            <= data[i] <= 0x66
}

/// A colour's digits are counted, and the zeros before its first other digit.
proof fn lemma_digits_counted(before: Seq<u8>, digits: Seq<u8>, zeros: nat)
    requires
        command_state(before) == (CommandState::Color { len: 0, digits: 0, zeros: 0 }),
        is_hex(digits),
        digits.len() < u64::MAX,
        zeros <= digits.len(),
        forall|i: int| 0 <= i < zeros ==> #[trigger] digits[i] == 0x30,
        zeros < digits.len() ==> digits[zeros as int] != 0x30,
    ensures
        command_state(before + digits) == (CommandState::Color {
            len: digits.len() as u64,
            digits: digits.len() as u64,
            zeros: zeros as u64,
        }),
        has_short_colors(before + digits) <==> has_short_colors(before),
    decreases digits.len(),
{
    if digits.len() == 0 {
        assert(before + digits == before);
    } else {
        let rest = digits.drop_last();
        let fewer = if zeros < digits.len() {
            zeros
        } else {
            (zeros - 1) as nat
        };
        assert forall|i: int| 0 <= i < rest.len() implies 0x30 <= #[trigger] rest[i] <= 0x39 || 0x41
            <= rest[i] <= 0x46 || 0x61 <= rest[i] <= 0x66 by {
            assert(rest[i] == digits[i]);
        }
        assert forall|i: int| 0 <= i < fewer implies #[trigger] rest[i] == 0x30 by {
            assert(rest[i] == digits[i]);
        }
        lemma_digits_counted(before, rest, fewer);
        assert(digits[digits.len() - 1] == digits.last());
        lemma_one_more(before + rest, digits.last());
        assert((before + rest).push(digits.last()) == before + digits);
    }
}

/// A parameter that is a number sets nothing by itself.
proof fn lemma_number_passed(before: Seq<u8>, number: Seq<u8>)
    requires
        command_state(before) is Separated,
        forall|i: int| 0 <= i < number.len() ==> 0x30 <= #[trigger] number[i] <= 0x39,
    ensures
        command_state(before + number) is Separated || command_state(before + number) is Parameter,
        has_short_colors(before + number) <==> has_short_colors(before),
    decreases number.len(),
{
    if number.len() == 0 {
        assert(before + number == before);
    } else {
        let rest = number.drop_last();
        assert forall|i: int| 0 <= i < rest.len() implies 0x30 <= #[trigger] rest[i] <= 0x39 by {
            assert(rest[i] == number[i]);
        }
        lemma_number_passed(before, rest);
        assert(number[number.len() - 1] == number.last());
        lemma_one_more(before + rest, number.last());
        assert((before + rest).push(number.last()) == before + number);
    }
}

/// When a colour of base 16 is too long, for words of `n` digits: a channel is a
/// third of its length, the last one takes what is left over, and zeros in front
/// do not make a channel's number larger.
pub open spec fn is_too_long(len: nat, zeros: nat, n: nat) -> bool {
    ||| len == 3 * n - 1 || len == 3 * n + 1 || len == 3 * n + 2
    ||| len >= 3 * n + 3 && len / 3 <= zeros + n
}

/// How long a colour may be that the text, the background or the cursor is told,
/// by `ESC ] 1 k ; #` and digits of base 16.  The command ends with a bell, an
/// escape character, a character that breaks it off or the next parameter.
pub proof fn lemma_told_colors(before: Seq<u8>, k: u8, digits: Seq<u8>, zeros: nat, end: u8)
    requires
        command_state(before) is Text,
        0x30 <= k <= 0x32,
        is_hex(digits),
        digits.len() < u64::MAX,
        zeros <= digits.len(),
        forall|i: int| 0 <= i < zeros ==> #[trigger] digits[i] == 0x30,
        zeros < digits.len() ==> digits[zeros as int] != 0x30,
        end == 0x07 || end == 0x18 || end == 0x1A || end == 0x1B || end == 0x3B,
    ensures
        ({
            let opened = before.push(0x1B).push(0x5D).push(0x31).push(k).push(0x3B).push(0x23);
            has_short_colors((opened + digits).push(end)) <==> has_short_colors(before)
                && !is_too_long(digits.len(), zeros, (usize::BITS / 4) as nat)
        }),
{
    let a = before.push(0x1B);
    let b = a.push(0x5D);
    let c = b.push(0x31);
    let d = c.push(k);
    let e = d.push(0x3B);
    lemma_one_more(before, 0x1B);
    lemma_one_more(a, 0x5D);
    lemma_one_more(b, 0x31);
    lemma_one_more(c, k);
    lemma_one_more(d, 0x3B);
    lemma_one_more(e, 0x23);
    lemma_digits_counted(e.push(0x23), digits, zeros);
    lemma_one_more(e.push(0x23) + digits, end);
}

/// How long a colour may be that the colour table is told, by `ESC ] 4 ;`, a
/// place and `; #` with digits of base 16.
pub proof fn lemma_told_palette(
    before: Seq<u8>,
    place: Seq<u8>,
    digits: Seq<u8>,
    zeros: nat,
    end: u8,
)
    requires
        command_state(before) is Text,
        forall|i: int| 0 <= i < place.len() ==> 0x30 <= #[trigger] place[i] <= 0x39,
        is_hex(digits),
        digits.len() < u64::MAX,
        zeros <= digits.len(),
        forall|i: int| 0 <= i < zeros ==> #[trigger] digits[i] == 0x30,
        zeros < digits.len() ==> digits[zeros as int] != 0x30,
        end == 0x07 || end == 0x18 || end == 0x1A || end == 0x1B || end == 0x3B,
    ensures
        ({
            let opened = (before.push(0x1B).push(0x5D).push(0x34).push(0x3B) + place).push(
                0x3B,
            ).push(0x23);
            has_short_colors((opened + digits).push(end)) <==> has_short_colors(before)
                && !is_too_long(digits.len(), zeros, (usize::BITS / 4) as nat)
        }),
{
    let a = before.push(0x1B);
    let b = a.push(0x5D);
    let c = b.push(0x34);
    let d = c.push(0x3B);
    let e = (d + place).push(0x3B);
    lemma_one_more(before, 0x1B);
    lemma_one_more(a, 0x5D);
    lemma_one_more(b, 0x34);
    lemma_one_more(c, 0x3B);
    lemma_number_passed(d, place);
    lemma_one_more(d + place, 0x3B);
    lemma_one_more(e, 0x23);
    lemma_digits_counted(e.push(0x23), digits, zeros);
    lemma_one_more(e.push(0x23) + digits, end);
}

/// A command of another number sets no colours, whatever it holds.
pub proof fn lemma_other_command(before: Seq<u8>, number: u8, body: Seq<u8>)
    requires
        command_state(before) is Text,
        number >= 0x20,
        number != 0x31,
        number != 0x34,
        number != 0x3B,
        forall|i: int| 0 <= i < body.len() ==> #[trigger] body[i] >= 0x20,
    ensures
        ({
            let opened = before.push(0x1B).push(0x5D).push(number);
            has_short_colors(opened + body) <==> has_short_colors(before)
        }),
        command_state(before.push(0x1B).push(0x5D).push(number) + body) is Other,
    decreases body.len(),
{
    let opened = before.push(0x1B).push(0x5D).push(number);
    if body.len() == 0 {
        lemma_one_more(before, 0x1B);
        lemma_one_more(before.push(0x1B), 0x5D);
        lemma_one_more(before.push(0x1B).push(0x5D), number);
        assert(opened + body == opened);
    } else {
        let rest = body.drop_last();
        assert forall|i: int| 0 <= i < rest.len() implies #[trigger] rest[i] >= 0x20 by {
            assert(rest[i] == body[i]);
        }
        lemma_other_command(before, number, rest);
        assert(body[body.len() - 1] == body.last());
        lemma_one_more(opened + rest, body.last());
        assert((opened + rest).push(body.last()) == opened + body);
    }
}

} // verus!
