//! The session gate: who a presented token stands for, and whether that
//! account may enter a room.

use vstd::prelude::*;
use crate::repository::account::{
    AccountRepository, AccountView, SessionView, account_named, session_with,
};
use crate::repository::room::RoomRepository;
use crate::trusted::{parse_uuid, uuid_parse, uuid_text};

verus! {

/// The name of the cookie that carries the session token.
pub const SESSION_COOKIE_NAME: &'static str = "session-token";

/// An account whose session was found valid.
#[derive(Debug)]
pub struct AuthorizedAccount {
    pub username: String,
    pub registered_at: i64,
    pub session_token: u128,
}

/// What an [`AuthorizedAccount`] holds, as mathematical values.
pub struct AuthorizedAccountView {
    pub username: Seq<char>,
    pub registered_at: int,
    pub session_token: u128,
}

impl View for AuthorizedAccount {
    type V = AuthorizedAccountView;

    open spec fn view(&self) -> AuthorizedAccountView {
        AuthorizedAccountView {
            username: self.username@,
            registered_at: self.registered_at as int,
            session_token: self.session_token,
        }
    }
}

impl Clone for AuthorizedAccount {
    fn clone(&self) -> (copy: Self)
        ensures
            copy@ == self@,
    {
        AuthorizedAccount {
            username: self.username.clone(),
            registered_at: self.registered_at,
            session_token: self.session_token,
        }
    }
}

/// The proof of a valid session that a request carries.
#[derive(Debug)]
pub struct Session(pub AuthorizedAccount);

/// Why a token was not accepted.
#[derive(Debug, Clone, Copy, PartialEq, Eq, Structural)]
pub enum RejectionCause {
    /// No token was presented.
    NoSessionCookie,
    /// The token does not read as one, or its account is gone.
    InvalidSession,
    /// No session that is still valid was opened under the token.
    ExpiredSession,
    /// The session could not be looked up.
    InternalServerError,
}

/// A valid account that does not belong to the room it asked for.
#[derive(Debug, Clone, Copy, PartialEq, Eq, Structural)]
pub enum AuthorizationFailure {
    NotAMember,
}

/// The answer to a token, when `presented` says whether a token was
/// presented and `key` is what the token reads as.
pub open spec fn verdict(
    presented: bool,
    key: Option<u128>,
    accounts: Seq<AccountView>,
    sessions: Seq<SessionView>,
) -> Result<AuthorizedAccountView, RejectionCause> {
    if !presented {
        Err(RejectionCause::NoSessionCookie)
    } else if key is None {
        Err(RejectionCause::InvalidSession)
    } else {
        match session_with(sessions, uuid_text(key->Some_0)) {
            None => Err(RejectionCause::ExpiredSession),
            Some(session) => if session.expired {
                Err(RejectionCause::ExpiredSession)
            } else {
                match account_named(accounts, session.account) {
                    None => Err(RejectionCause::InvalidSession),
                    Some(account) => Ok(
                        AuthorizedAccountView {
                            username: account.username,
                            registered_at: account.registered_at,
                            session_token: key->Some_0,
                        },
                    ),
                }
            },
        }
    }
}

/// What a presented token reads as.
pub open spec fn token_key(token: Option<Seq<char>>) -> Option<u128> {
    match token {
        Some(text) => uuid_parse(text),
        None => None,
    }
}

/// The view of an answer to a token.
pub open spec fn verdict_of(
    outcome: Result<AuthorizedAccount, RejectionCause>,
) -> Result<AuthorizedAccountView, RejectionCause> {
    match outcome {
        Ok(account) => Ok(account@),
        Err(cause) => Err(cause),
    }
}

/// The characters of an optional borrowed text.
pub open spec fn str_of(value: Option<&str>) -> Option<Seq<char>> {
    match value {
        Some(text) => Some(text@),
        None => None,
    }
}

/// Decides on a token, when `key` is what the token reads as. `presented`
/// says whether a token was presented at all.
pub fn authenticate_key(
    presented: bool,
    key: Option<u128>,
    accounts: &AccountRepository,
) -> (outcome: Result<AuthorizedAccount, RejectionCause>)
    requires
        accounts.wf(),
    ensures
        verdict_of(outcome) == verdict(presented, key, accounts.accounts(), accounts.sessions()),
{
    if !presented {
        return Err(RejectionCause::NoSessionCookie);
    }
    let key = match key {
        None => {
            return Err(RejectionCause::InvalidSession);
        },
        Some(key) => key,
    };
    let session = match accounts.find_session(key) {
        None => {
            return Err(RejectionCause::ExpiredSession);
        },
        Some(session) => session,
    };
    if session.expired {
        return Err(RejectionCause::ExpiredSession);
    }
    match accounts.find(session.account.as_str()) {
        None => Err(RejectionCause::InvalidSession),
        Some(account) => Ok(
            AuthorizedAccount {
                username: account.username,
                registered_at: account.registered_at,
                session_token: key,
            },
        ),
    }
}

/// Decides on the token that a connection presents: the account of the
/// session opened under it, if that session is still valid. Nothing is
/// changed by asking.
pub fn authenticate(
    token: Option<&str>,
    accounts: &AccountRepository,
) -> (outcome: Result<AuthorizedAccount, RejectionCause>)
    requires
        accounts.wf(),
    ensures
        verdict_of(outcome) == verdict(
            token is Some,
            token_key(str_of(token)),
            accounts.accounts(),
            accounts.sessions(),
        ),
{
    match token {
        None => authenticate_key(false, None, accounts),
        Some(text) => {
            let key = parse_uuid(text);
            authenticate_key(true, key, accounts)
        },
    }
}

/// Whether `account` may enter `room_id`: exactly when it is a member.
pub fn authorize_room(
    account: &AuthorizedAccount,
    room_id: i64,
    rooms: &RoomRepository,
) -> (outcome: Result<(), AuthorizationFailure>)
    ensures
        outcome is Ok <==> rooms.members@.contains((room_id as int, account@.username)),
{
    if rooms.members.is_member(room_id, account.username.as_str()) {
        Ok(())
    } else {
        Err(AuthorizationFailure::NotAMember)
    }
}

impl Session {
    /// The proof of a valid session for the token that a request carries,
    /// as [`authenticate`] decides on it.
    pub fn from_token(
        token: Option<&str>,
        accounts: &AccountRepository,
    ) -> (outcome: Result<Session, RejectionCause>)
        requires
            accounts.wf(),
        ensures
            verdict(
                token is Some,
                token_key(str_of(token)),
                accounts.accounts(),
                accounts.sessions(),
            ) == match outcome {
                Ok(session) => Ok(session.0@),
                Err(cause) => Err(cause),
            },
    {
        match authenticate(token, accounts) {
            Ok(account) => Ok(Session(account)),
            Err(cause) => Err(cause),
        }
    }
}

impl RejectionCause {
    /// Where a rejected client is sent: to the account page, unless the
    /// session could not be looked up.
    pub fn redirect(&self) -> (target: Option<&'static str>)
        ensures
            target is None <==> *self == RejectionCause::InternalServerError,
            target is Some ==> target->Some_0@ == "/account"@,
    {
        match self {
            RejectionCause::InternalServerError => None,
            RejectionCause::InvalidSession
            | RejectionCause::NoSessionCookie
            | RejectionCause::ExpiredSession => Some("/account"),
        }
    }
}

} // verus!
