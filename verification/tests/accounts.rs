use os3_chat::auth::{
    authenticate, authenticate_key, authorize_room, AuthorizationFailure, AuthorizedAccount,
    RejectionCause, Session, SESSION_COOKIE_NAME,
};
use os3_chat::repository::account::{
    AccountRepository, LoginError, PasswordCheck, RegistrationError,
};
use os3_chat::repository::room::RoomRepository;
use os3_chat::repository::StorageError;

const TOKEN: u128 = 0x550e8400_e29b_41d4_a716_446655440000;
const TOKEN_TEXT: &str = "550e8400-e29b-41d4-a716-446655440000";

fn with_account(name: &str) -> AccountRepository {
    let mut accounts = AccountRepository::new();
    accounts.add_account(name, "unused".to_string(), 10).unwrap();
    accounts
}

#[test]
fn registration_stores_a_hash_and_not_the_password() {
    let mut accounts = AccountRepository::new();
    let account = accounts.register("alice", "correct horse").unwrap();
    assert_eq!(account.username, "alice");
    assert!(account.password_hash.starts_with("$argon2"));
    assert!(!account.password_hash.contains("correct horse"));
    assert!(account.registered_at > 1_600_000_000);
    let found = accounts.find("alice").unwrap();
    assert_eq!(found.password_hash, account.password_hash);
    assert!(accounts.find("bob").is_none());
}

#[test]
fn same_password_hashes_differently_each_time() {
    let mut accounts = AccountRepository::new();
    let alice = accounts.register("alice", "correct horse").unwrap();
    let bob = accounts.register("bob", "correct horse").unwrap();
    assert_ne!(alice.password_hash, bob.password_hash);
}

#[test]
fn taken_name_is_refused() {
    let mut accounts = AccountRepository::new();
    let first = accounts.register("alice", "correct horse").unwrap();
    let second = accounts.register("alice", "battery staple");
    assert!(matches!(second, Err(RegistrationError::NameTaken)));
    assert_eq!(accounts.find("alice").unwrap().password_hash, first.password_hash);
    assert!(matches!(
        accounts.add_account("alice", "x".to_string(), 0),
        Err(RegistrationError::NameTaken)
    ));
}

#[test]
fn login_with_the_right_password_opens_a_session() {
    let mut accounts = AccountRepository::new();
    accounts.register("alice", "correct horse").unwrap();
    let session = accounts.login("alice", "correct horse").unwrap();
    assert_eq!(session.account, "alice");
    assert!(!session.expired);
    assert_eq!(session.token.len(), 36);
    assert!(session.created_at > 1_600_000_000);
    let other = accounts.login("alice", "correct horse").unwrap();
    assert_ne!(other.token, session.token);
}

#[test]
fn login_with_a_wrong_password_is_invalid_credentials() {
    let mut accounts = AccountRepository::new();
    accounts.register("alice", "correct horse").unwrap();
    assert!(matches!(
        accounts.login("alice", "battery staple"),
        Err(LoginError::InvalidCredentials)
    ));
    assert!(matches!(accounts.login("alice", ""), Err(LoginError::InvalidCredentials)));
}

#[test]
fn login_under_an_unknown_name_is_invalid_credentials() {
    let mut accounts = AccountRepository::new();
    accounts.register("alice", "correct horse").unwrap();
    assert!(matches!(
        accounts.login("bob", "correct horse"),
        Err(LoginError::InvalidCredentials)
    ));
}

#[test]
fn login_against_a_garbled_hash_is_a_hash_error() {
    let mut accounts = with_account("alice");
    assert!(matches!(accounts.login("alice", "unused"), Err(LoginError::Hash(_))));
    let mut empty = AccountRepository::new();
    empty.add_account("bob", String::new(), 0).unwrap();
    assert!(matches!(empty.login("bob", ""), Err(LoginError::Hash(_))));
}

#[test]
fn session_is_stored_under_the_canonical_text_of_its_token() {
    let mut accounts = with_account("alice");
    let session = accounts.open_session("alice", TOKEN, 20).unwrap();
    assert_eq!(session.token, TOKEN_TEXT);
    assert_eq!(session.account, "alice");
    assert_eq!(session.created_at, 20);
    assert!(!session.expired);
    assert_eq!(accounts.find_session(TOKEN).unwrap().account, "alice");
    assert!(accounts.find_session(TOKEN + 1).is_none());
}

#[test]
fn token_opens_one_session_only() {
    let mut accounts = with_account("alice");
    accounts.open_session("alice", TOKEN, 20).unwrap();
    let again = accounts.open_session("alice", TOKEN, 21);
    assert!(matches!(again, Err(LoginError::Database(StorageError::KeyTaken))));
    assert_eq!(accounts.find_session(TOKEN).unwrap().created_at, 20);
}

#[test]
fn expiring_marks_that_session_only() {
    let mut accounts = with_account("alice");
    accounts.open_session("alice", TOKEN, 20).unwrap();
    accounts.open_session("alice", TOKEN + 1, 21).unwrap();
    accounts.expire_session(TOKEN);
    assert!(accounts.find_session(TOKEN).unwrap().expired);
    assert!(!accounts.find_session(TOKEN + 1).unwrap().expired);
    accounts.expire_session(TOKEN);
    accounts.expire_session(12345);
    assert!(accounts.find_session(TOKEN).unwrap().expired);
    assert!(accounts.find_session(12345).is_none());
}

#[test]
fn valid_token_stands_for_its_account() {
    let mut accounts = with_account("alice");
    accounts.open_session("alice", TOKEN, 20).unwrap();
    let account = authenticate(Some(TOKEN_TEXT), &accounts).unwrap();
    assert_eq!(account.username, "alice");
    assert_eq!(account.registered_at, 10);
    assert_eq!(account.session_token, TOKEN);
    let upper = authenticate(Some("550E8400-E29B-41D4-A716-446655440000"), &accounts).unwrap();
    assert_eq!(upper.session_token, TOKEN);
    let Session(wrapped) = Session::from_token(Some(TOKEN_TEXT), &accounts).unwrap();
    assert_eq!(wrapped.username, "alice");
    assert_eq!(SESSION_COOKIE_NAME, "session-token");
}

#[test]
fn missing_token_is_rejected_as_missing() {
    let accounts = with_account("alice");
    assert_eq!(authenticate(None, &accounts).unwrap_err(), RejectionCause::NoSessionCookie);
    assert_eq!(
        authenticate_key(false, Some(TOKEN), &accounts).unwrap_err(),
        RejectionCause::NoSessionCookie
    );
    assert_eq!(
        Session::from_token(None, &accounts).unwrap_err(),
        RejectionCause::NoSessionCookie
    );
}

#[test]
fn garbled_token_is_rejected_as_invalid() {
    let mut accounts = with_account("alice");
    accounts.open_session("alice", TOKEN, 20).unwrap();
    for token in ["", "alice", "550e8400-e29b-41d4-a716", "550e8400-e29b-41d4-a716-44665544000z"] {
        assert_eq!(
            authenticate(Some(token), &accounts).unwrap_err(),
            RejectionCause::InvalidSession,
            "{token}"
        );
    }
    assert_eq!(
        authenticate_key(true, None, &accounts).unwrap_err(),
        RejectionCause::InvalidSession
    );
}

#[test]
fn unknown_or_expired_token_is_rejected_as_expired() {
    let mut accounts = with_account("alice");
    accounts.open_session("alice", TOKEN, 20).unwrap();
    assert_eq!(
        authenticate(Some("00000000-0000-0000-0000-000000000001"), &accounts).unwrap_err(),
        RejectionCause::ExpiredSession
    );
    accounts.expire_session(TOKEN);
    assert_eq!(
        authenticate(Some(TOKEN_TEXT), &accounts).unwrap_err(),
        RejectionCause::ExpiredSession
    );
}

#[test]
fn session_of_a_missing_account_is_rejected_as_invalid() {
    let mut accounts = with_account("alice");
    accounts.open_session("ghost", TOKEN, 20).unwrap();
    assert_eq!(
        authenticate(Some(TOKEN_TEXT), &accounts).unwrap_err(),
        RejectionCause::InvalidSession
    );
}

#[test]
fn rejected_clients_are_sent_to_the_account_page() {
    assert_eq!(RejectionCause::NoSessionCookie.redirect(), Some("/account"));
    assert_eq!(RejectionCause::InvalidSession.redirect(), Some("/account"));
    assert_eq!(RejectionCause::ExpiredSession.redirect(), Some("/account"));
    assert_eq!(RejectionCause::InternalServerError.redirect(), None);
}

#[test]
fn only_members_are_authorized_for_a_room() {
    let mut rooms = RoomRepository::new();
    let room = rooms.create("general").unwrap();
    room.add_member(&mut rooms, "alice");
    let alice = AuthorizedAccount {
        username: "alice".to_string(),
        registered_at: 0,
        session_token: TOKEN,
    };
    let eve = AuthorizedAccount { username: "eve".to_string(), registered_at: 0, session_token: 1 };
    assert_eq!(authorize_room(&alice, room.id, &rooms), Ok(()));
    assert_eq!(authorize_room(&eve, room.id, &rooms), Err(AuthorizationFailure::NotAMember));
    assert_eq!(authorize_room(&alice, 99, &rooms), Err(AuthorizationFailure::NotAMember));
    room.remove_member(&mut rooms, "alice");
    assert_eq!(authorize_room(&alice, room.id, &rooms), Err(AuthorizationFailure::NotAMember));
}

#[test]
fn checked_login_follows_the_check() {
    let mut accounts = with_account("alice");
    assert!(matches!(
        accounts.login_checked("alice", PasswordCheck::Rejected, TOKEN, 5),
        Err(LoginError::InvalidCredentials)
    ));
    assert!(matches!(
        accounts.login_checked("bob", PasswordCheck::Accepted, TOKEN, 5),
        Err(LoginError::InvalidCredentials)
    ));
    let failed = PasswordCheck::Failed(argon2::password_hash::Error::Algorithm);
    assert!(matches!(
        accounts.login_checked("alice", failed, TOKEN, 5),
        Err(LoginError::Hash(argon2::password_hash::Error::Algorithm))
    ));
    assert!(accounts.find_session(TOKEN).is_none());
    let session = accounts.login_checked("alice", PasswordCheck::Accepted, TOKEN, 5).unwrap();
    assert_eq!(session.token, TOKEN_TEXT);
    assert_eq!(session.account, "alice");
    assert_eq!(session.created_at, 5);
    assert!(!session.expired);
    assert!(matches!(
        accounts.login_checked("alice", PasswordCheck::Accepted, TOKEN, 6),
        Err(LoginError::Database(StorageError::KeyTaken))
    ));
    assert_eq!(accounts.find_session(TOKEN).unwrap().created_at, 5);
}
