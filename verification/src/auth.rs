//! Who may connect.

use vstd::prelude::*;

verus! {

/// The credentials that a client must present: those that are given.
pub struct PasswordAuthenticator {
    pub username: Option<String>,
    pub password: Option<String>,
}

/// A credential is right if none is expected, or if it is the expected one.
pub open spec fn is_right(expected: Option<String>, presented: Seq<char>) -> bool {
    expected matches Some(e) ==> e@ == presented
}

/// Whether a string is the presented one.
fn same_string(expected: &String, presented: &str) -> (r: bool)
    ensures
        r == (expected@ == presented@),
{
    let p: String = presented.to_owned();
    *expected == p
}

impl PasswordAuthenticator {
    /// Every credential that is expected is the presented one.
    pub open spec fn accepts(self, username: Seq<char>, password: Seq<char>) -> bool {
        is_right(self.username, username) && is_right(self.password, password)
    }

    /// An authenticator for the given credentials, if there are any.
    pub fn from_credentials(username: Option<String>, password: Option<String>) -> (r: Option<
        PasswordAuthenticator,
    >)
        ensures
            r == if username is Some || password is Some {
                Some(PasswordAuthenticator { username, password })
            } else {
                None
            },
            r is None <==> username is None && password is None,
            r matches Some(auth) ==> auth.username == username && auth.password == password,
    {
        if username.is_some() || password.is_some() {
            Some(PasswordAuthenticator { username, password })
        } else {
            None
        }
    }

    /// Whether the client may connect.
    pub fn authenticate(&self, username: &str, password: &str) -> (r: bool)
        ensures
            r == self.accepts(username@, password@),
            r ==> (self.username matches Some(name) ==> name@ == username@),
            r ==> (self.password matches Some(word) ==> word@ == password@),
            !r ==> (self.username matches Some(name) && name@ != username@) || (
            self.password matches Some(word) && word@ != password@),
    {
        if let Some(expected) = &self.username {
            if !same_string(expected, username) {
                return false;
            }
        }
        if let Some(expected) = &self.password {
            if !same_string(expected, password) {
                return false;
            }
        }
        true
    }
}

/// Where no credentials are expected, any are accepted.
pub proof fn lemma_open_to_all(auth: PasswordAuthenticator, username: Seq<char>, password: Seq<char>)
    requires
        auth.username is None,
        auth.password is None,
    ensures
        auth.accepts(username, password),
{
}

/// Where both credentials are expected, only that pair is accepted.
pub proof fn lemma_only_expected_pair(
    auth: PasswordAuthenticator,
    username: Seq<char>,
    password: Seq<char>,
)
    requires
        auth.username is Some,
        auth.password is Some,
    ensures
        auth.accepts(username, password) <==> username == auth.username->0@ && password
            == auth.password->0@,
{
}

/// Where one credential is expected, the other does not matter.
pub proof fn lemma_other_is_free(
    auth: PasswordAuthenticator,
    username: Seq<char>,
    password: Seq<char>,
)
    ensures
        auth.password is None ==> auth.accepts(username, password) == is_right(
            auth.username,
            username,
        ),
        auth.username is None ==> auth.accepts(username, password) == is_right(
            auth.password,
            password,
        ),
{
}

/// A client may connect exactly when each credential that is expected is the
/// one it presents.
pub proof fn lemma_who_may_connect(
    auth: PasswordAuthenticator,
    username: Seq<char>,
    password: Seq<char>,
)
    ensures
        auth.accepts(username, password) <==> {
            &&& auth.username is None || auth.username->0@ == username
            &&& auth.password is None || auth.password->0@ == password
        },
{
}

/// Any other name or password than the expected one shuts a client out.
pub proof fn lemma_wrong_credentials(
    auth: PasswordAuthenticator,
    username: Seq<char>,
    password: Seq<char>,
)
    ensures
        auth.username matches Some(name) ==> name@ != username ==> !auth.accepts(username, password),
        auth.password matches Some(word) ==> word@ != password ==> !auth.accepts(username, password),
{
}

} // verus!
