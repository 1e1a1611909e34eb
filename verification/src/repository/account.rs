//! Accounts and the sessions opened for them.

use vstd::prelude::*;
use vstd::string::*;
use crate::repository::StorageError;
use crate::trusted::{
    hash_password, password_verdict, random_uuid, unix_now, uuid_text, uuid_to_string,
    verify_stored_password,
};

verus! {

/// A registered account.
#[derive(Debug)]
pub struct Account {
    pub username: String,
    pub password_hash: String,
    pub registered_at: i64,
}

/// What an [`Account`] holds, as mathematical values.
pub struct AccountView {
    pub username: Seq<char>,
    pub password_hash: Seq<char>,
    pub registered_at: int,
}

impl View for Account {
    type V = AccountView;

    open spec fn view(&self) -> AccountView {
        AccountView {
            username: self.username@,
            password_hash: self.password_hash@,
            registered_at: self.registered_at as int,
        }
    }
}

impl Clone for Account {
    fn clone(&self) -> (copy: Self)
        ensures
            copy@ == self@,
    {
        Account {
            username: self.username.clone(),
            password_hash: self.password_hash.clone(),
            registered_at: self.registered_at,
        }
    }
}

/// A session: the token that a client presents, in canonical text form, and
/// the account it stands for.
#[derive(Debug)]
pub struct Session {
    pub token: String,
    pub account: String,
    pub created_at: i64,
    pub expired: bool,
}

/// What a [`Session`] holds, as mathematical values.
pub struct SessionView {
    pub token: Seq<char>,
    pub account: Seq<char>,
    pub created_at: int,
    pub expired: bool,
}

impl View for Session {
    type V = SessionView;

    open spec fn view(&self) -> SessionView {
        SessionView {
            token: self.token@,
            account: self.account@,
            created_at: self.created_at as int,
            expired: self.expired,
        }
    }
}

impl Clone for Session {
    fn clone(&self) -> (copy: Self)
        ensures
            copy@ == self@,
    {
        Session {
            token: self.token.clone(),
            account: self.account.clone(),
            created_at: self.created_at,
            expired: self.expired,
        }
    }
}

/// Why a registration failed.
#[derive(Debug)]
pub enum RegistrationError {
    /// An account with this name exists already.
    NameTaken,
    /// The password could not be hashed.
    Hash(argon2::password_hash::Error),
}

/// Why a login failed.
#[derive(Debug)]
pub enum LoginError {
    /// No account has this name, or the password does not match.
    InvalidCredentials,
    /// The stored hash could not be read or checked.
    Hash(argon2::password_hash::Error),
    /// The session could not be stored.
    Database(StorageError),
}

/// The accounts of a sequence, as mathematical values.
pub open spec fn account_views(accounts: Seq<Account>) -> Seq<AccountView> {
    accounts.map_values(|a: Account| a@)
}

/// The sessions of a sequence, as mathematical values.
pub open spec fn session_views(sessions: Seq<Session>) -> Seq<SessionView> {
    sessions.map_values(|s: Session| s@)
}

/// Some account among `accounts` has the name `username`.
pub open spec fn name_taken(accounts: Seq<AccountView>, username: Seq<char>) -> bool {
    exists|i: int| 0 <= i < accounts.len() && (#[trigger] accounts[i]).username == username
}

/// The account named `username`, if there is one.
pub open spec fn account_named(
    accounts: Seq<AccountView>,
    username: Seq<char>,
) -> Option<AccountView> {
    if name_taken(accounts, username) {
        Some(
            accounts[choose|i: int|
                0 <= i < accounts.len() && (#[trigger] accounts[i]).username == username],
        )
    } else {
        None
    }
}

/// Some session among `sessions` has the token `token`.
pub open spec fn token_taken(sessions: Seq<SessionView>, token: Seq<char>) -> bool {
    exists|i: int| 0 <= i < sessions.len() && (#[trigger] sessions[i]).token == token
}

/// The session with the token `token`, if there is one.
pub open spec fn session_with(sessions: Seq<SessionView>, token: Seq<char>) -> Option<SessionView> {
    if token_taken(sessions, token) {
        Some(
            sessions[choose|i: int|
                0 <= i < sessions.len() && (#[trigger] sessions[i]).token == token],
        )
    } else {
        None
    }
}

/// The sessions after the one with the token `token` was marked as expired.
pub open spec fn expire(sessions: Seq<SessionView>, token: Seq<char>) -> Seq<SessionView> {
    sessions.map_values(
        |s: SessionView|
            if s.token == token {
                SessionView { expired: true, ..s }
            } else {
                s
            },
    )
}

/// The session that a login at `created_at` opens under `token`.
pub open spec fn new_session(token: u128, username: Seq<char>, created_at: i64) -> SessionView {
    SessionView {
        token: uuid_text(token),
        account: username,
        created_at: created_at as int,
        expired: false,
    }
}

/// What checking a password against a stored hash came to.
#[derive(Debug)]
pub enum PasswordCheck {
    /// The password matches the hash.
    Accepted,
    /// The password does not match the hash.
    Rejected,
    /// The hash could not be read or checked.
    Failed(argon2::password_hash::Error),
}

impl PasswordCheck {
    /// What the check says of the password: whether it was accepted, or
    /// nothing where the check failed.
    pub open spec fn answer(self) -> Option<bool> {
        match self {
            PasswordCheck::Accepted => Some(true),
            PasswordCheck::Rejected => Some(false),
            PasswordCheck::Failed(_) => None,
        }
    }
}

/// What checking `password` comes to for `username`: the verdict on the
/// password and the stored hash of the account, and a rejection where there
/// is no such account.
pub open spec fn stored_verdict(
    accounts: Seq<AccountView>,
    username: Seq<char>,
    password: Seq<char>,
) -> Option<bool> {
    match account_named(accounts, username) {
        Some(account) => password_verdict(password, account.password_hash),
        None => Some(false),
    }
}

/// Checks `password` against the hash `stored_hash`: the password is
/// accepted or rejected as the verdict on the two says, and the check has
/// failed where there is no verdict.
fn check_password(password: &str, stored_hash: &str) -> (check: PasswordCheck)
    ensures
        check.answer() == password_verdict(password@, stored_hash@),
{
    match verify_stored_password(password, stored_hash) {
        Ok(true) => PasswordCheck::Accepted,
        Ok(false) => PasswordCheck::Rejected,
        Err(error) => PasswordCheck::Failed(error),
    }
}

/// The relation between a call of [`AccountRepository::login_checked`] and
/// its outcome: what is returned, and what sessions there are afterwards.
/// The accounts are never touched.
pub open spec fn login_outcome(
    before: AccountRepository,
    username: Seq<char>,
    check: PasswordCheck,
    token: u128,
    created_at: i64,
    outcome: Result<Session, LoginError>,
    after: AccountRepository,
) -> bool {
    &&& after.accounts() == before.accounts()
    &&& if !name_taken(before.accounts(), username) || check is Rejected {
        &&& outcome is Err
        &&& outcome->Err_0 is InvalidCredentials
        &&& after.sessions() == before.sessions()
    } else if check is Failed {
        &&& outcome is Err
        &&& outcome->Err_0 == LoginError::Hash(check->Failed_0)
        &&& after.sessions() == before.sessions()
    } else if token_taken(before.sessions(), uuid_text(token)) {
        &&& outcome is Err
        &&& outcome->Err_0 == LoginError::Database(StorageError::KeyTaken)
        &&& after.sessions() == before.sessions()
    } else {
        &&& outcome is Ok
        &&& outcome->Ok_0@ == new_session(token, username, created_at)
        &&& after.sessions() == before.sessions().push(outcome->Ok_0@)
    }
}

/// The accounts and their sessions.
#[derive(Debug)]
pub struct AccountRepository {
    accounts: Vec<Account>,
    sessions: Vec<Session>,
}

impl AccountRepository {
    /// The accounts, in the order of their registration.
    pub closed spec fn accounts(&self) -> Seq<AccountView> {
        account_views(self.accounts@)
    }

    /// The sessions, in the order in which they were opened.
    pub closed spec fn sessions(&self) -> Seq<SessionView> {
        session_views(self.sessions@)
    }

    /// The invariant of the repository: a name stands for one account and a
    /// token for one session.
    pub open spec fn wf(&self) -> bool {
        &&& forall|i: int, j: int|
            0 <= i < j < self.accounts().len() ==> (#[trigger] self.accounts()[i]).username != (
            #[trigger] self.accounts()[j]).username
        &&& forall|i: int, j: int|
            0 <= i < j < self.sessions().len() ==> (#[trigger] self.sessions()[i]).token != (
            #[trigger] self.sessions()[j]).token
    }

    /// A repository without accounts or sessions.
    pub fn new() -> (repository: Self)
        ensures
            repository.wf(),
            repository.accounts() == Seq::<AccountView>::empty(),
            repository.sessions() == Seq::<SessionView>::empty(),
    {
        let repository = AccountRepository { accounts: Vec::new(), sessions: Vec::new() };
        proof {
            assert(account_views(repository.accounts@) =~= Seq::<AccountView>::empty());
            assert(session_views(repository.sessions@) =~= Seq::<SessionView>::empty());
        }
        repository
    }

    /// The account named `username`.
    pub fn find(&self, username: &str) -> (found: Option<Account>)
        requires
            self.wf(),
        ensures
            match found {
                Some(account) => account_named(self.accounts(), username@) == Some(account@),
                None => account_named(self.accounts(), username@) is None,
            },
    {
        let wanted = String::from_str(username);
        let mut index: usize = 0;
        while index < self.accounts.len()
            invariant
                self.wf(),
                index <= self.accounts.len(),
                wanted@ == username@,
                forall|j: int|
                    0 <= j < index ==> (#[trigger] self.accounts()[j]).username != username@,
            decreases self.accounts.len() - index,
        {
            if self.accounts[index].username == wanted {
                proof {
                    let accounts = self.accounts();
                    assert(accounts[index as int].username == username@);
                    let k = choose|i: int|
                        0 <= i < accounts.len() && (#[trigger] accounts[i]).username == username@;
                    if k < index {
                        assert(accounts[k].username != accounts[index as int].username);
                    } else if index < k {
                        assert(accounts[index as int].username != accounts[k].username);
                    }
                }
                return Some(self.accounts[index].clone());
            }
            index = index + 1;
        }
        None
    }

    fn session_position(&self, token: &str) -> (found: Option<usize>)
        ensures
            match found {
                Some(index) => index < self.sessions().len() && self.sessions()[index as int].token
                    == token@,
                None => !token_taken(self.sessions(), token@),
            },
    {
        let wanted = String::from_str(token);
        let mut index: usize = 0;
        while index < self.sessions.len()
            invariant
                index <= self.sessions.len(),
                wanted@ == token@,
                forall|j: int| 0 <= j < index ==> (#[trigger] self.sessions()[j]).token != token@,
            decreases self.sessions.len() - index,
        {
            if self.sessions[index].token == wanted {
                assert(self.sessions()[index as int].token == token@);
                return Some(index);
            }
            index = index + 1;
        }
        None
    }

    /// The session opened under the token `token`, expired or not.
    pub fn find_session(&self, token: u128) -> (found: Option<Session>)
        requires
            self.wf(),
        ensures
            match found {
                Some(session) => session_with(self.sessions(), uuid_text(token)) == Some(session@),
                None => session_with(self.sessions(), uuid_text(token)) is None,
            },
    {
        let text = uuid_to_string(token);
        match self.session_position(text.as_str()) {
            None => None,
            Some(index) => {
                proof {
                    let sessions = self.sessions();
                    let k = choose|i: int|
                        0 <= i < sessions.len() && (#[trigger] sessions[i]).token == text@;
                    if k < index {
                        assert(sessions[k].token != sessions[index as int].token);
                    } else if index < k {
                        assert(sessions[index as int].token != sessions[k].token);
                    }
                }
                Some(self.sessions[index].clone())
            },
        }
    }

    /// Records an account whose password hashes to `password_hash`. A name
    /// that is taken is refused, and then nothing changes.
    pub fn add_account(
        &mut self,
        username: &str,
        password_hash: String,
        registered_at: i64,
    ) -> (outcome: Result<Account, RegistrationError>)
        requires
            old(self).wf(),
        ensures
            final(self).wf(),
            final(self).sessions() == old(self).sessions(),
            outcome is Ok <==> !name_taken(old(self).accounts(), username@),
            match outcome {
                Ok(account) => {
                    &&& account@ == (AccountView {
                        username: username@,
                        password_hash: password_hash@,
                        registered_at: registered_at as int,
                    })
                    &&& final(self).accounts() == old(self).accounts().push(account@)
                },
                Err(error) => {
                    &&& error is NameTaken
                    &&& final(self).accounts() == old(self).accounts()
                },
            },
    {
        match self.find(username) {
            Some(_) => Err(RegistrationError::NameTaken),
            None => {
                let account = Account {
                    username: String::from_str(username),
                    password_hash,
                    registered_at,
                };
                let copy = account.clone();
                let ghost before = self.accounts@;
                self.accounts.push(account);
                proof {
                    assert(account_views(self.accounts@) =~= account_views(before).push(copy@));
                    assert forall|i: int, j: int|
                        0 <= i < j < self.accounts().len() implies (
                    #[trigger] self.accounts()[i]).username != (
                    #[trigger] self.accounts()[j]).username by {
                        assert(self.accounts()[i] == old(self).accounts()[i]);
                        if j < before.len() {
                            assert(self.accounts()[j] == old(self).accounts()[j]);
                        } else {
                            assert(self.accounts()[j].username == username@);
                            assert(old(self).accounts()[i].username != username@);
                        }
                    }
                    assert(self.sessions() == old(self).sessions());
                }
                Ok(copy)
            },
        }
    }

    /// Registers an account: hashes the password and records the account at
    /// the current time. A name that is taken is refused; the hashing may
    /// fail on any input. Whenever the outcome is an error, nothing changes.
    pub fn register(
        &mut self,
        username: &str,
        password: &str,
    ) -> (outcome: Result<Account, RegistrationError>)
        requires
            old(self).wf(),
        ensures
            final(self).wf(),
            final(self).sessions() == old(self).sessions(),
            match outcome {
                Ok(account) => {
                    &&& !name_taken(old(self).accounts(), username@)
                    &&& account@.username == username@
                    &&& final(self).accounts() == old(self).accounts().push(account@)
                },
                Err(RegistrationError::NameTaken) => {
                    &&& name_taken(old(self).accounts(), username@)
                    &&& final(self).accounts() == old(self).accounts()
                },
                Err(RegistrationError::Hash(_)) => final(self).accounts() == old(self).accounts(),
            },
    {
        match hash_password(password) {
            Err(error) => Err(RegistrationError::Hash(error)),
            Ok(password_hash) => {
                let registered_at = unix_now();
                self.add_account(username, password_hash, registered_at)
            },
        }
    }

    /// Opens a session for `username` under `token` at `created_at`. A token
    /// that names a session already is refused, and then nothing changes.
    pub fn open_session(
        &mut self,
        username: &str,
        token: u128,
        created_at: i64,
    ) -> (outcome: Result<Session, LoginError>)
        requires
            old(self).wf(),
        ensures
            final(self).wf(),
            final(self).accounts() == old(self).accounts(),
            outcome is Ok <==> !token_taken(old(self).sessions(), uuid_text(token)),
            match outcome {
                Ok(session) => {
                    &&& session@ == new_session(token, username@, created_at)
                    &&& final(self).sessions() == old(self).sessions().push(session@)
                },
                Err(error) => {
                    &&& error == LoginError::Database(StorageError::KeyTaken)
                    &&& final(self).sessions() == old(self).sessions()
                },
            },
    {
        let text = uuid_to_string(token);
        match self.session_position(text.as_str()) {
            Some(_) => Err(LoginError::Database(StorageError::KeyTaken)),
            None => {
                let session = Session {
                    token: text,
                    account: String::from_str(username),
                    created_at,
                    expired: false,
                };
                let copy = session.clone();
                let ghost before = self.sessions@;
                self.sessions.push(session);
                proof {
                    assert(session_views(self.sessions@) =~= session_views(before).push(copy@));
                    assert forall|i: int, j: int|
                        0 <= i < j < self.sessions().len() implies (
                    #[trigger] self.sessions()[i]).token != (
                    #[trigger] self.sessions()[j]).token by {
                        assert(self.sessions()[i] == old(self).sessions()[i]);
                        if j < before.len() {
                            assert(self.sessions()[j] == old(self).sessions()[j]);
                        } else {
                            assert(self.sessions()[j].token == uuid_text(token));
                            assert(old(self).sessions()[i].token != uuid_text(token));
                        }
                    }
                    assert(self.accounts() == old(self).accounts());
                }
                Ok(copy)
            },
        }
    }

    /// Logs `username` in, when `check` is what checking its password against
    /// the stored hash came to, `token` is the token for the session and
    /// `created_at` the time. An unknown name is refused as invalid
    /// credentials, like a password that was rejected; a check that failed
    /// is passed on; a token that names a session already cannot be stored.
    /// Whenever the outcome is an error, nothing changes.
    pub fn login_checked(
        &mut self,
        username: &str,
        check: PasswordCheck,
        token: u128,
        created_at: i64,
    ) -> (outcome: Result<Session, LoginError>)
        requires
            old(self).wf(),
        ensures
            final(self).wf(),
            login_outcome(*old(self), username@, check, token, created_at, outcome, *final(self)),
    {
        if self.find(username).is_none() {
            return Err(LoginError::InvalidCredentials);
        }
        match check {
            PasswordCheck::Rejected => Err(LoginError::InvalidCredentials),
            PasswordCheck::Failed(error) => Err(LoginError::Hash(error)),
            PasswordCheck::Accepted => self.open_session(username, token, created_at),
        }
    }

    /// Logs `username` in: checks the password against the stored hash and
    /// opens a session under a token drawn at random, at the current time.
    /// The outcome is that of [`AccountRepository::login_checked`] for some
    /// token and time, and for a check that answers as the verdict on the
    /// password and the stored hash says; for an unknown name no check is
    /// made and the outcome is invalid credentials.
    pub fn login(
        &mut self,
        username: &str,
        password: &str,
    ) -> (outcome: Result<Session, LoginError>)
        requires
            old(self).wf(),
        ensures
            final(self).wf(),
            !name_taken(old(self).accounts(), username@) ==> outcome is Err
                && outcome->Err_0 is InvalidCredentials,
            exists|check: PasswordCheck, token: u128, created_at: i64|
                {
                    &&& check.answer() == stored_verdict(old(self).accounts(), username@, password@)
                    &&& #[trigger] login_outcome(
                        *old(self),
                        username@,
                        check,
                        token,
                        created_at,
                        outcome,
                        *final(self),
                    )
                },
    {
        let account = match self.find(username) {
            None => {
                return self.login_checked(username, PasswordCheck::Rejected, 0, 0);
            },
            Some(account) => account,
        };
        match check_password(password, account.password_hash.as_str()) {
            PasswordCheck::Accepted => {
                let token = random_uuid();
                let created_at = unix_now();
                self.login_checked(username, PasswordCheck::Accepted, token, created_at)
            },
            check => self.login_checked(username, check, 0, 0),
        }
    }

    /// Marks the session under `session_token` as expired. Expiring a
    /// session again, or one that does not exist, changes nothing.
    pub fn expire_session(&mut self, session_token: u128)
        requires
            old(self).wf(),
        ensures
            final(self).wf(),
            final(self).accounts() == old(self).accounts(),
            final(self).sessions() == expire(old(self).sessions(), uuid_text(session_token)),
    {
        let text = uuid_to_string(session_token);
        match self.session_position(text.as_str()) {
            None => {
                proof {
                    assert(self.sessions() =~= expire(old(self).sessions(), text@));
                }
            },
            Some(index) => {
                self.sessions[index].expired = true;
                proof {
                    let before = old(self).sessions();
                    let after = self.sessions();
                    assert forall|i: int| 0 <= i < after.len() implies #[trigger] after[i]
                        == expire(before, text@)[i] by {
                        if i < index {
                            assert(before[i].token != before[index as int].token);
                        } else if index < i {
                            assert(before[index as int].token != before[i].token);
                        }
                    }
                    assert(after =~= expire(before, text@));
                    assert forall|i: int, j: int| 0 <= i < j < after.len() implies (
                    #[trigger] after[i]).token != (#[trigger] after[j]).token by {
                        assert(after[i].token == before[i].token);
                        assert(after[j].token == before[j].token);
                    }
                    assert(self.accounts() == old(self).accounts());
                }
            },
        }
    }
}

} // verus!
