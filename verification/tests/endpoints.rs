use os3_chat::auth::{authenticate, AuthorizedAccount};
use os3_chat::endpoints::account::{
    login_status, logout, registration_status, submit, AuthResult, CredentialsForm, SubmitAction,
};
use os3_chat::endpoints::chat::{page, websocket, ConnectionState, IncomingMessage, TITLE};
use os3_chat::endpoints::rooms::{
    create, invite, kick_out, list, CreateRoomForm, MemberModificationForm,
};
use os3_chat::endpoints::upload::{
    begin_upload, begin_upload_with_key, check_upload, finish_upload, finish_upload_at, FilePart,
    UploadForm, DEFAULT_FILENAME,
};
use os3_chat::endpoints::Status;
use os3_chat::hub::{Delivery, RoomState};
use os3_chat::repository::account::{LoginError, RegistrationError};
use os3_chat::repository::StorageError;
use os3_chat::state::SharedState;
use os3_chat::text::{clone_text, length_between};

fn account(name: &str) -> AuthorizedAccount {
    AuthorizedAccount { username: name.to_string(), registered_at: 0, session_token: 1 }
}

fn room_form(name: &str) -> CreateRoomForm {
    CreateRoomForm { room_name: name.to_string() }
}

fn member_form(name: &str, room_id: i64) -> MemberModificationForm {
    MemberModificationForm { username: name.to_string(), room_id }
}

fn credentials(username: &str, password: &str, action: SubmitAction) -> CredentialsForm {
    CredentialsForm { username: username.to_string(), password: password.to_string(), action }
}

#[test]
fn status_codes_are_the_usual_numbers() {
    assert_eq!(Status::Success.code(), 200);
    assert_eq!(Status::Created.code(), 201);
    assert_eq!(Status::BadRequest.code(), 400);
    assert_eq!(Status::Unauthorized.code(), 401);
    assert_eq!(Status::NotFound.code(), 404);
    assert_eq!(Status::Conflict.code(), 409);
    assert_eq!(Status::InternalServerError.code(), 500);
}

#[test]
fn lengths_are_counted_in_characters() {
    assert!(length_between("a", 1, 64));
    assert!(!length_between("", 1, 64));
    assert!(length_between(&"x".repeat(64), 1, 64));
    assert!(!length_between(&"x".repeat(65), 1, 64));
    assert!(length_between(&"é".repeat(64), 1, 64));
    assert!(!length_between(&"é".repeat(65), 1, 64));
    assert!(length_between("", 0, 0));
    assert_eq!(clone_text(&Some("a".to_string())), Some("a".to_string()));
    assert_eq!(clone_text(&None), None);
}

#[test]
fn forms_are_valid_within_their_bounds() {
    assert!(room_form("general").validate());
    assert!(!room_form("").validate());
    assert!(!room_form(&"r".repeat(65)).validate());
    assert!(member_form("alice", 1).validate());
    assert!(!member_form("", 1).validate());
    assert!(!member_form(&"a".repeat(65), 1).validate());
    assert!(credentials("alice", "12345678", SubmitAction::Login).validate());
    assert!(!credentials("alice", "1234567", SubmitAction::Login).validate());
    assert!(!credentials("", "12345678", SubmitAction::Login).validate());
    assert!(!credentials("alice", &"p".repeat(65), SubmitAction::Login).validate());
    assert!(credentials(&"a".repeat(64), &"p".repeat(64), SubmitAction::Register).validate());
}

#[test]
fn creator_is_the_first_member_of_a_new_room() {
    let mut shared = SharedState::new(4);
    assert_eq!(create(&mut shared, &account("alice"), &room_form("general")), Ok(Status::Created));
    assert_eq!(create(&mut shared, &account("bob"), &room_form("random")), Ok(Status::Created));
    let general = shared.repository.rooms.find_by_id(1).unwrap();
    assert_eq!(general.name, "general");
    assert_eq!(general.get_members(&shared.repository.rooms), vec!["alice".to_string()]);
    let random = shared.repository.rooms.find_by_id(2).unwrap();
    assert_eq!(random.get_members(&shared.repository.rooms), vec!["bob".to_string()]);
}

#[test]
fn room_with_a_bad_name_is_not_created() {
    let mut shared = SharedState::new(4);
    assert_eq!(create(&mut shared, &account("alice"), &room_form("")), Err(Status::BadRequest));
    assert_eq!(
        create(&mut shared, &account("alice"), &room_form(&"x".repeat(65))),
        Err(Status::BadRequest)
    );
    assert!(shared.repository.rooms.find_by_id(1).is_none());
    assert!(list(&shared, &account("alice")).is_empty());
}

#[test]
fn listing_shows_the_rooms_of_the_requester() {
    let mut shared = SharedState::new(4);
    create(&mut shared, &account("alice"), &room_form("general")).unwrap();
    create(&mut shared, &account("bob"), &room_form("random")).unwrap();
    create(&mut shared, &account("alice"), &room_form("secret")).unwrap();
    let entries = list(&shared, &account("alice"));
    let seen: Vec<(i64, &str)> =
        entries.iter().map(|e| (e.room_id, e.room_name.as_str())).collect();
    assert_eq!(seen, vec![(1, "general"), (3, "secret")]);
    assert!(list(&shared, &account("carol")).is_empty());
}

#[test]
fn members_invite_and_anyone_listed_can_be_kicked_out() {
    let mut shared = SharedState::new(4);
    create(&mut shared, &account("alice"), &room_form("general")).unwrap();
    assert_eq!(
        invite(&mut shared, &account("alice"), &member_form("bob", 1)),
        Ok(Status::Created)
    );
    assert_eq!(
        invite(&mut shared, &account("alice"), &member_form("bob", 1)),
        Ok(Status::Created)
    );
    assert!(shared.repository.rooms.members.is_member(1, "bob"));
    assert_eq!(shared.repository.rooms.members.members_of(1).len(), 2);
    assert_eq!(
        kick_out(&mut shared, &account("alice"), &member_form("bob", 1)),
        Ok(Status::Success)
    );
    assert!(!shared.repository.rooms.members.is_member(1, "bob"));
    assert_eq!(
        kick_out(&mut shared, &account("alice"), &member_form("bob", 1)),
        Ok(Status::Success)
    );
    assert!(shared.repository.rooms.members.is_member(1, "alice"));
}

#[test]
fn outsider_cannot_invite() {
    let mut shared = SharedState::new(4);
    create(&mut shared, &account("alice"), &room_form("general")).unwrap();
    assert_eq!(
        invite(&mut shared, &account("eve"), &member_form("eve", 1)),
        Err(Status::Unauthorized)
    );
    assert!(!shared.repository.rooms.members.is_member(1, "eve"));
}

#[test]
fn invitations_to_nowhere_and_bad_forms_are_refused() {
    let mut shared = SharedState::new(4);
    create(&mut shared, &account("alice"), &room_form("general")).unwrap();
    assert_eq!(
        invite(&mut shared, &account("alice"), &member_form("bob", 2)),
        Err(Status::NotFound)
    );
    assert_eq!(
        invite(&mut shared, &account("alice"), &member_form("", 1)),
        Err(Status::BadRequest)
    );
    assert_eq!(
        kick_out(&mut shared, &account("alice"), &member_form("bob", 2)),
        Err(Status::NotFound)
    );
    assert_eq!(
        kick_out(&mut shared, &account("alice"), &member_form(&"b".repeat(65), 1)),
        Err(Status::BadRequest)
    );
    assert_eq!(shared.repository.rooms.members.members_of(1), vec!["alice".to_string()]);
}

#[test]
fn upload_is_posted_to_the_room_like_a_live_message() {
    let mut shared = SharedState::new(4);
    create(&mut shared, &account("alice"), &room_form("general")).unwrap();
    let listener = shared.hub.subscribe(1).unwrap();
    let form = UploadForm {
        file: Some(FilePart { file_name: Some("cat.png".to_string()) }),
        room_id: Some(1),
    };
    let pending = begin_upload(&mut shared, &account("alice"), &form).unwrap();
    assert_eq!(pending.room.id, 1);
    assert_eq!(pending.upload.filename, "cat.png");
    assert_eq!(shared.repository.uploads.find(pending.key).unwrap().uuid, pending.upload.uuid);
    assert_eq!(shared.repository.rooms.log.len(), 0);
    assert!(matches!(shared.hub.receive(listener.id), Delivery::Empty));

    let posted = finish_upload(&mut shared, &account("alice"), &pending).unwrap();
    assert_eq!(posted.id, 1);
    assert_eq!(posted.room_id, 1);
    assert_eq!(posted.sender, "alice");
    assert_eq!(posted.text, None);
    assert_eq!(posted.upload_filename.as_deref(), Some("cat.png"));
    assert_eq!(posted.upload_url.as_deref(), Some(pending.upload.uuid.as_str()));
    assert!(!posted.upload_missing);
    let stored = shared.repository.rooms.log.history(1, 10);
    assert_eq!(stored.len(), 1);
    assert_eq!(stored[0].file_upload_uuid.as_deref(), Some(pending.upload.uuid.as_str()));
    match shared.hub.receive(listener.id) {
        Delivery::Message(got) => {
            assert_eq!(got.id, 1);
            assert_eq!(got.upload_filename.as_deref(), Some("cat.png"));
        }
        other => panic!("unexpected {other:?}"),
    }
}

#[test]
fn upload_is_posted_at_the_given_time() {
    let mut shared = SharedState::new(4);
    create(&mut shared, &account("alice"), &room_form("general")).unwrap();
    let form = UploadForm {
        file: Some(FilePart { file_name: Some("cat.png".to_string()) }),
        room_id: Some(1),
    };
    let pending = begin_upload(&mut shared, &account("alice"), &form).unwrap();
    assert_eq!(check_upload(&shared, &account("alice"), &pending), Ok(()));
    assert_eq!(check_upload(&shared, &account("eve"), &pending), Err(Status::Unauthorized));
    let posted = finish_upload_at(&mut shared, &account("alice"), &pending, 4321).unwrap();
    assert_eq!(posted.sent_at, 4321);
    assert_eq!(posted.id, 1);
    assert_eq!(posted.upload_filename.as_deref(), Some("cat.png"));
    assert_eq!(
        finish_upload_at(&mut shared, &account("eve"), &pending, 4322).unwrap_err(),
        Status::Unauthorized
    );
    assert_eq!(shared.repository.rooms.log.len(), 1);
}

#[test]
fn upload_under_a_given_key_is_linked_under_that_key() {
    let mut shared = SharedState::new(4);
    create(&mut shared, &account("alice"), &room_form("general")).unwrap();
    let form = UploadForm {
        file: Some(FilePart { file_name: Some("cat.png".to_string()) }),
        room_id: Some(1),
    };
    let pending = begin_upload_with_key(&mut shared, &account("alice"), &form, 5).unwrap();
    assert_eq!(pending.key, 5);
    assert_eq!(pending.upload.uuid, "00000000-0000-0000-0000-000000000005");
    assert_eq!(pending.upload.filename, "cat.png");
    assert_eq!(pending.room.name, "general");
    assert_eq!(
        begin_upload_with_key(&mut shared, &account("alice"), &form, 5).unwrap_err(),
        Status::InternalServerError
    );
    assert_eq!(
        begin_upload_with_key(&mut shared, &account("eve"), &form, 6).unwrap_err(),
        Status::Unauthorized
    );
    assert_eq!(shared.repository.uploads.len(), 1);
}

#[test]
fn upload_without_a_name_gets_the_default_name() {
    let mut shared = SharedState::new(4);
    create(&mut shared, &account("alice"), &room_form("general")).unwrap();
    let form = UploadForm { file: Some(FilePart { file_name: None }), room_id: Some(1) };
    let pending = begin_upload(&mut shared, &account("alice"), &form).unwrap();
    assert_eq!(pending.upload.filename, "unnamed_upload.bin");
    assert_eq!(DEFAULT_FILENAME, "unnamed_upload.bin");
    assert!(pending.upload.store_path().ends_with("_unnamed_upload.bin"));
}

#[test]
fn incomplete_or_misdirected_uploads_are_refused() {
    let mut shared = SharedState::new(4);
    create(&mut shared, &account("alice"), &room_form("general")).unwrap();
    let file = || Some(FilePart { file_name: Some("cat.png".to_string()) });
    let cases = [
        (UploadForm { file: None, room_id: Some(1) }, "alice", Status::BadRequest),
        (UploadForm { file: file(), room_id: None }, "alice", Status::BadRequest),
        (UploadForm { file: None, room_id: None }, "alice", Status::BadRequest),
        (UploadForm { file: file(), room_id: Some(2) }, "alice", Status::NotFound),
        (UploadForm { file: file(), room_id: Some(1) }, "eve", Status::Unauthorized),
    ];
    for (form, who, status) in cases {
        assert_eq!(begin_upload(&mut shared, &account(who), &form).unwrap_err(), status);
    }
    assert_eq!(shared.repository.uploads.len(), 0);
}

#[test]
fn upload_is_not_posted_for_a_member_who_was_kicked_out_meanwhile() {
    let mut shared = SharedState::new(4);
    create(&mut shared, &account("alice"), &room_form("general")).unwrap();
    let form = UploadForm { file: Some(FilePart { file_name: None }), room_id: Some(1) };
    let pending = begin_upload(&mut shared, &account("alice"), &form).unwrap();
    kick_out(&mut shared, &account("alice"), &member_form("alice", 1)).unwrap();
    assert_eq!(
        finish_upload(&mut shared, &account("alice"), &pending).unwrap_err(),
        Status::Unauthorized
    );
    assert_eq!(shared.repository.rooms.log.len(), 0);
}

#[test]
fn upload_that_was_never_linked_is_not_posted() {
    let mut shared = SharedState::new(4);
    let mut other = SharedState::new(4);
    create(&mut shared, &account("alice"), &room_form("general")).unwrap();
    create(&mut other, &account("alice"), &room_form("general")).unwrap();
    let form = UploadForm { file: Some(FilePart { file_name: None }), room_id: Some(1) };
    let pending = begin_upload(&mut other, &account("alice"), &form).unwrap();
    assert_eq!(
        finish_upload(&mut shared, &account("alice"), &pending).unwrap_err(),
        Status::NotFound
    );
    assert_eq!(shared.repository.rooms.log.len(), 0);
}

#[test]
fn registering_logs_in_right_away() {
    let mut shared = SharedState::new(4);
    let form = credentials("alice", "correct horse", SubmitAction::Register);
    let outcome = submit(&mut shared, &form);
    let token = match outcome {
        AuthResult::LoggedIn(token) => token,
        other => panic!("unexpected {other:?}"),
    };
    let account = authenticate(Some(&token), &shared.repository.accounts).unwrap();
    assert_eq!(account.username, "alice");
    let again = submit(&mut shared, &credentials("alice", "correct horse", SubmitAction::Login));
    match again {
        AuthResult::LoggedIn(second) => assert_ne!(second, token),
        other => panic!("unexpected {other:?}"),
    }
}

#[test]
fn refused_forms_get_their_status() {
    let mut shared = SharedState::new(4);
    submit(&mut shared, &credentials("alice", "correct horse", SubmitAction::Register));
    let status = |outcome: AuthResult| match outcome {
        AuthResult::Error(status) => status,
        other => panic!("unexpected {other:?}"),
    };
    assert_eq!(
        status(submit(&mut shared, &credentials("alice", "another one", SubmitAction::Register))),
        Status::Conflict
    );
    assert_eq!(
        status(submit(&mut shared, &credentials("alice", "wrong password", SubmitAction::Login))),
        Status::Unauthorized
    );
    assert_eq!(
        status(submit(&mut shared, &credentials("bob", "correct horse", SubmitAction::Login))),
        Status::Unauthorized
    );
    assert_eq!(
        status(submit(&mut shared, &credentials("bob", "short", SubmitAction::Register))),
        Status::BadRequest
    );
    assert_eq!(
        status(submit(&mut shared, &credentials("", "correct horse", SubmitAction::Login))),
        Status::BadRequest
    );
    assert!(shared.repository.accounts.find("bob").is_none());
}

#[test]
fn failures_map_to_their_status() {
    assert_eq!(registration_status(&RegistrationError::NameTaken), Status::Conflict);
    assert_eq!(login_status(&LoginError::InvalidCredentials), Status::Unauthorized);
    assert_eq!(
        login_status(&LoginError::Database(StorageError::KeyTaken)),
        Status::InternalServerError
    );
    let mut shared = SharedState::new(4);
    shared.repository.accounts.add_account("alice", "garbled".to_string(), 0).unwrap();
    let error = shared.repository.accounts.login("alice", "whatever").unwrap_err();
    assert_eq!(login_status(&error), Status::InternalServerError);
    let outcome = submit(&mut shared, &credentials("alice", "whatever", SubmitAction::Login));
    assert!(matches!(outcome, AuthResult::Error(Status::InternalServerError)));
}

#[test]
fn logout_expires_the_session() {
    let mut shared = SharedState::new(4);
    let token =
        match submit(&mut shared, &credentials("alice", "correct horse", SubmitAction::Register)) {
            AuthResult::LoggedIn(token) => token,
            other => panic!("unexpected {other:?}"),
        };
    let account = authenticate(Some(&token), &shared.repository.accounts).unwrap();
    assert_eq!(logout(&mut shared, &account), "/");
    assert!(authenticate(Some(&token), &shared.repository.accounts).is_err());
    assert!(shared.repository.accounts.find_session(account.session_token).unwrap().expired);
}

#[test]
fn page_shows_the_history_to_members_only() {
    let mut shared = SharedState::new(4);
    create(&mut shared, &account("alice"), &room_form("general")).unwrap();
    let room = shared.repository.rooms.find_by_id(1).unwrap();
    for round in 0..3 {
        room.send_new_message(&mut shared.repository.rooms, "alice", Some(format!("m{round}")))
            .unwrap();
    }
    let seen = page(&shared, &account("alice"), 1, 2).unwrap();
    assert_eq!(seen.title, TITLE);
    assert_eq!(seen.title, "os3_chat");
    assert_eq!(seen.logged_in_as, "alice");
    assert_eq!(seen.room_name, "general");
    assert_eq!(seen.room_id, 1);
    let ids: Vec<i64> = seen.initial_messages.iter().map(|m| m.id).collect();
    assert_eq!(ids, vec![2, 3]);
    let outside = page(&shared, &account("eve"), 1, 2).unwrap();
    assert_eq!(outside.room_name, "general");
    assert_eq!(outside.logged_in_as, "eve");
    assert!(outside.initial_messages.is_empty());
    assert_eq!(page(&shared, &account("alice"), 2, 2).unwrap_err(), Status::NotFound);
}

#[test]
fn websocket_opens_for_members_of_rooms_that_exist() {
    let mut shared = SharedState::new(4);
    create(&mut shared, &account("alice"), &room_form("general")).unwrap();
    let mut connection = websocket(&shared, account("alice"), 1).unwrap();
    assert_eq!(connection.state(), ConnectionState::Replaying);
    assert_eq!(connection.room_id(), 1);
    assert_eq!(shared.hub.room_state(1), RoomState::Empty);
    connection.go_live(&mut shared).unwrap();
    let incoming =
        IncomingMessage { room_id: 1, text: Some("hi".to_string()), attachment_key: None };
    let sent = connection.publish_inbound(&mut shared, incoming).unwrap();
    assert_eq!(sent.sender, "alice");
    assert_eq!(websocket(&shared, account("eve"), 1).unwrap_err(), Status::Unauthorized);
    assert_eq!(websocket(&shared, account("alice"), 2).unwrap_err(), Status::NotFound);
    assert_eq!(websocket(&shared, account("eve"), 2).unwrap_err(), Status::NotFound);
}
