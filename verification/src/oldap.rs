//! Logging in: the fixed local account, and the claims of a user whom the
//! directory server has accepted.
use vstd::prelude::*;
use crate::ad::{UserData, uid_sorted};
use crate::chars::{append_chars, chars_equal, chars_of, first_char_one_byte, skip_first, starts_with_one_byte, string_from_chars};
use crate::decimal::{parse_u32, parse_u32_chars};
use crate::df::{claims_of, get_claims};
use crate::firm::{Auth, Claims, PersonView};

verus! {

/// The error of a failed log-in, with its description.
#[derive(Debug)]
pub enum AuthError {
    NativeError(String),
}

impl View for AuthError {
    type V = Seq<char>;

    open spec fn view(&self) -> Seq<char> {
        match self {
            AuthError::NativeError(s) => s@,
        }
    }
}

impl AuthError {
    /// How the error reads: `LDAP error: ` and its description.
    pub fn message(&self) -> (r: String)
        ensures
            r@ == "LDAP error: "@ + self@,
    {
        match self {
            AuthError::NativeError(s) => {
                let mut m = chars_of("LDAP error: ");
                append_chars(&mut m, &chars_of(s.as_str()));
                string_from_chars(&m)
            },
        }
    }
}

/// The name under which a user binds to the directory server: the domain
/// `SARSGOV\` and the user id.
pub fn bind_name(auth: &Auth) -> (r: String)
    ensures
        r@ == "SARSGOV\\"@ + auth.user_id@,
{
    let mut m = chars_of("SARSGOV\\");
    append_chars(&mut m, &chars_of(auth.user_id.as_str()));
    string_from_chars(&m)
}

/// The user number in a user id: the id without its first letter, read as a
/// number. `None` where reading it stops the program.
pub open spec fn user_id_number(s: Seq<char>) -> Option<u32> {
    if first_char_one_byte(s) {
        parse_u32(s.skip(1))
    } else {
        None
    }
}

/// The user number in a user id such as `S1028028`.
pub fn user_number(user_id: &str) -> (r: Option<u32>)
    ensures
        r == user_id_number(user_id@),
{
    let s = chars_of(user_id);
    if !starts_with_one_byte(&s) {
        return None;
    }
    parse_u32_chars(&skip_first(&s))
}

/// The one account that a local log-in accepts.
pub open spec fn local_account(user_id: Seq<char>, user_pwd: Seq<char>) -> bool {
    user_id == "S1028028"@ && user_pwd == "tshepo"@
}

/// The description of a refused local log-in.
pub open spec fn invalid_login() -> Seq<char> {
    "Invalid user and password combination"@
}

/// What a log-in gives: `Ok` with the user's claims (`None` when the directory
/// does not know the user), or the error.
pub open spec fn login_result(r: Result<Option<Claims>, AuthError>, users: Seq<PersonView>, uid: u32) -> bool {
    match r {
        Ok(c) => match claims_of(users, uid) {
            Some(p) => c is Some && c->0@ == p,
            None => c is None,
        },
        Err(_) => false,
    }
}

/// Logs in without the directory server: only the fixed local account is
/// accepted, and its claims are looked up in the directory.
pub fn authenticate_local(users: &UserData, auth: &Auth) -> (r: Result<Option<Claims>, AuthError>)
    requires
        uid_sorted(users@),
    ensures
        local_account(auth.user_id@, auth.user_pwd@) ==> user_id_number(auth.user_id@) is Some
            && login_result(r, users@, user_id_number(auth.user_id@)->0),
        !local_account(auth.user_id@, auth.user_pwd@) ==> (r matches Err(e) && e@ == invalid_login()),
{
    let id = chars_of(auth.user_id.as_str());
    let pwd = chars_of(auth.user_pwd.as_str());
    if chars_equal(&id, &chars_of("S1028028")) && chars_equal(&pwd, &chars_of("tshepo")) {
        proof {
            reveal_strlit("S1028028");
            assert(first_char_one_byte(auth.user_id@));
            assert(auth.user_id@.skip(1) =~= seq!['1', '0', '2', '8', '0', '2', '8']);
            reveal_with_fuel(crate::decimal::digits_value, 8);
            assert(parse_u32(auth.user_id@.skip(1)) is Some);
        }
        let uid = match user_number(auth.user_id.as_str()) {
            Some(n) => n,
            None => 0,
        };
        Ok(get_claims(users, uid))
    } else {
        Err(AuthError::NativeError(string_from_chars(&chars_of("Invalid user and password combination"))))
    }
}

/// How the log-in was made: locally (no directory server), or through a bind
/// to the directory server with its outcome.
#[derive(Debug)]
pub enum Login {
    Local,
    Bound(Result<(), AuthError>),
}

/// Logs a user in. Locally only the fixed account is accepted; through the
/// directory server a refused bind is the answer, and an accepted one gives the
/// claims of the user whose number the user id holds.
pub fn authenticate(users: &UserData, auth: &Auth, login: Login) -> (r: Result<Option<Claims>, AuthError>)
    requires
        uid_sorted(users@),
        login matches Login::Bound(Ok(_)) ==> user_id_number(auth.user_id@) is Some,
    ensures
        match login {
            Login::Local => {
                &&& local_account(auth.user_id@, auth.user_pwd@) ==> login_result(
                    r,
                    users@,
                    user_id_number(auth.user_id@)->0,
                )
                &&& !local_account(auth.user_id@, auth.user_pwd@) ==> (r matches Err(e) && e@
                    == invalid_login())
            },
            Login::Bound(Err(e)) => r matches Err(e2) && e2@ == e@,
            Login::Bound(Ok(_)) => login_result(r, users@, user_id_number(auth.user_id@)->0),
        },
{
    match login {
        Login::Local => authenticate_local(users, auth),
        Login::Bound(Err(e)) => Err(e),
        Login::Bound(Ok(())) => {
            let uid = match user_number(auth.user_id.as_str()) {
                Some(n) => n,
                None => 0,
            };
            Ok(get_claims(users, uid))
        },
    }
}

} // verus!
