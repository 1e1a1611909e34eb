//! Registration, login and logout.

use vstd::prelude::*;
use crate::auth::AuthorizedAccount;
use crate::endpoints::Status;
use crate::repository::account::{LoginError, RegistrationError, expire, name_taken};
use crate::state::SharedState;
use crate::text::length_between;
use crate::trusted::uuid_text;

verus! {

/// What a submitted form asks for.
#[derive(Debug, Clone, Copy, PartialEq, Eq, Structural)]
pub enum SubmitAction {
    Register,
    Login,
}

/// The form with which an account registers or logs in.
#[derive(Debug)]
pub struct CredentialsForm {
    pub username: String,
    pub password: String,
    pub action: SubmitAction,
}

/// Whether credentials are filled in as they have to be: the name has
/// between 1 and 64 characters and the password between 8 and 64.
pub open spec fn valid_credentials(username: Seq<char>, password: Seq<char>) -> bool {
    1 <= username.len() <= 64 && 8 <= password.len() <= 64
}

impl CredentialsForm {
    /// Whether the form is filled in as it has to be.
    pub fn validate(&self) -> (valid: bool)
        ensures
            valid == valid_credentials(self.username@, self.password@),
    {
        length_between(self.username.as_str(), 1, 64) && length_between(
            self.password.as_str(),
            8,
            64,
        )
    }
}

/// The answer to a submitted form.
#[derive(Debug)]
pub enum AuthResult {
    /// The account was registered.
    Registered,
    /// A session was opened; its token goes to the client.
    LoggedIn(String),
    /// The form was refused.
    Error(Status),
}

/// The answer to a failed registration: a name that is taken is a conflict,
/// anything else an internal error.
pub fn registration_status(error: &RegistrationError) -> (status: Status)
    ensures
        status == if error is NameTaken {
            Status::Conflict
        } else {
            Status::InternalServerError
        },
{
    match error {
        RegistrationError::NameTaken => Status::Conflict,
        RegistrationError::Hash(_) => Status::InternalServerError,
    }
}

/// The answer to a failed login: invalid credentials are unauthorized,
/// anything else an internal error.
pub fn login_status(error: &LoginError) -> (status: Status)
    ensures
        status == if error is InvalidCredentials {
            Status::Unauthorized
        } else {
            Status::InternalServerError
        },
{
    match error {
        LoginError::InvalidCredentials => Status::Unauthorized,
        LoginError::Hash(_) => Status::InternalServerError,
        LoginError::Database(_) => Status::InternalServerError,
    }
}

/// Handles a submitted form: registers the account first, if the form asks
/// for that, and then logs it in. A form that is not valid is a bad
/// request and changes nothing; a registration under a taken name is a
/// conflict; a login under an unknown name is unauthorized. No account is
/// touched but the one that may be added, and no session but the one that
/// may be opened.
pub fn submit(shared: &mut SharedState, credentials: &CredentialsForm) -> (outcome: AuthResult)
    requires
        old(shared).wf(),
    ensures
        final(shared).wf(),
        final(shared).hub == old(shared).hub,
        final(shared).repository.rooms == old(shared).repository.rooms,
        final(shared).repository.uploads == old(shared).repository.uploads,
        ({
            let before = old(shared).repository.accounts;
            let after = final(shared).repository.accounts;
            let valid = valid_credentials(credentials.username@, credentials.password@);
            let taken = name_taken(before.accounts(), credentials.username@);
            let registering = credentials.action == SubmitAction::Register;
            &&& !valid ==> outcome == AuthResult::Error(Status::BadRequest) && after.accounts()
                == before.accounts() && after.sessions() == before.sessions()
            &&& valid && registering && taken ==> outcome is Error && after.accounts()
                == before.accounts() && after.sessions() == before.sessions()
            &&& valid && !registering && !taken ==> outcome == AuthResult::Error(
                Status::Unauthorized,
            )
            &&& !registering ==> after.accounts() == before.accounts()
            &&& registering ==> after.accounts() == before.accounts() || (!taken
                && after.accounts().len() == before.accounts().len() + 1
                && after.accounts().drop_last() == before.accounts()
                && after.accounts().last().username == credentials.username@)
            &&& match outcome {
                AuthResult::LoggedIn(token) => {
                    &&& valid
                    &&& registering <==> !taken
                    &&& name_taken(after.accounts(), credentials.username@)
                    &&& after.sessions().len() == before.sessions().len() + 1
                    &&& after.sessions().drop_last() == before.sessions()
                    &&& after.sessions().last().token == token@
                    &&& after.sessions().last().account == credentials.username@
                    &&& !after.sessions().last().expired
                },
                AuthResult::Error(status) => {
                    &&& after.sessions() == before.sessions()
                    &&& status == Status::Conflict ==> registering && taken
                },
                AuthResult::Registered => false,
            }
        }),
{
    if !credentials.validate() {
        return AuthResult::Error(Status::BadRequest);
    }
    match credentials.action {
        SubmitAction::Register => {
            match shared.repository.accounts.register(
                credentials.username.as_str(),
                credentials.password.as_str(),
            ) {
                Ok(_) => {},
                Err(error) => {
                    return AuthResult::Error(registration_status(&error));
                },
            }
            proof {
                let before = old(shared).repository.accounts.accounts();
                let after = shared.repository.accounts.accounts();
                assert(after.drop_last() =~= before);
                assert(after[before.len() as int].username == credentials.username@);
                assert(name_taken(after, credentials.username@));
            }
        },
        SubmitAction::Login => {},
    }
    let ghost middle = shared.repository.accounts.sessions();
    match shared.repository.accounts.login(
        credentials.username.as_str(),
        credentials.password.as_str(),
    ) {
        Ok(session) => {
            proof {
                let sessions = shared.repository.accounts.sessions();
                assert(sessions.drop_last() =~= middle);
                assert(sessions.last() == session@);
            }
            AuthResult::LoggedIn(session.token)
        },
        Err(error) => AuthResult::Error(login_status(&error)),
    }
}

/// Logs `account` out: the session it came with is marked as expired, and
/// the client is sent to the returned path.
pub fn logout(shared: &mut SharedState, account: &AuthorizedAccount) -> (target: &'static str)
    requires
        old(shared).wf(),
    ensures
        final(shared).wf(),
        target@ == "/"@,
        final(shared).hub == old(shared).hub,
        final(shared).repository.rooms == old(shared).repository.rooms,
        final(shared).repository.uploads == old(shared).repository.uploads,
        final(shared).repository.accounts.accounts() == old(shared).repository.accounts.accounts(),
        final(shared).repository.accounts.sessions() == expire(
            old(shared).repository.accounts.sessions(),
            uuid_text(account.session_token),
        ),
{
    shared.repository.accounts.expire_session(account.session_token);
    "/"
}

} // verus!
