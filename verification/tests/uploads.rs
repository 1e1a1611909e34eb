use os3_chat::endpoints::upload::{download_handler, download_with_key};
use os3_chat::endpoints::Status;
use os3_chat::repository::message::Message;
use os3_chat::repository::room::RoomRepository;
use os3_chat::repository::upload::{FileUploadError, Upload, UploadRepository};

const KEY: u128 = 0x550e8400_e29b_41d4_a716_446655440000;
const KEY_TEXT: &str = "550e8400-e29b-41d4-a716-446655440000";

fn message_with(reference: Option<&str>, text: Option<&str>) -> Message {
    Message {
        id: 5,
        sender: "alice".to_string(),
        room_id: 7,
        text: text.map(str::to_string),
        sent_at: 77,
        file_upload_uuid: reference.map(str::to_string),
    }
}

#[test]
fn store_path_joins_directory_key_and_name() {
    let upload = Upload { uuid: KEY_TEXT.to_string(), filename: "cat.png".to_string() };
    assert_eq!(
        upload.store_path(),
        "./database/file_uploads/550e8400-e29b-41d4-a716-446655440000_cat.png"
    );
    let odd = Upload { uuid: String::new(), filename: String::new() };
    assert_eq!(odd.store_path(), "./database/file_uploads/_");
}

#[test]
fn linked_upload_is_stored_under_the_canonical_text_of_its_key() {
    let mut uploads = UploadRepository::new();
    let upload = uploads.link(KEY, "cat.png").unwrap();
    assert_eq!(upload.uuid, KEY_TEXT);
    assert_eq!(upload.filename, "cat.png");
    let all_digits = uploads.link(0x0123456789abcdef_fedcba9876543210, "x").unwrap();
    assert_eq!(all_digits.uuid, "01234567-89ab-cdef-fedc-ba9876543210");
    let zero = uploads.link(0, "zero").unwrap();
    assert_eq!(zero.uuid, "00000000-0000-0000-0000-000000000000");
    let max = uploads.link(u128::MAX, "max").unwrap();
    assert_eq!(max.uuid, "ffffffff-ffff-ffff-ffff-ffffffffffff");
    assert_eq!(uploads.len(), 4);
}

#[test]
fn resolving_a_linked_key_gives_back_the_name_that_was_linked() {
    let mut uploads = UploadRepository::new();
    uploads.link(1, "first.txt").unwrap();
    uploads.link(KEY, "cat.png").unwrap();
    uploads.link(2, "second.txt").unwrap();
    assert_eq!(uploads.find(KEY).unwrap().filename, "cat.png");
    assert_eq!(uploads.find(1).unwrap().filename, "first.txt");
    assert_eq!(uploads.find(2).unwrap().filename, "second.txt");
    assert_eq!(uploads.find_by_text(KEY_TEXT).unwrap().filename, "cat.png");
    assert!(uploads.find(3).is_none());
    assert!(uploads.find_by_text("550E8400-E29B-41D4-A716-446655440000").is_none());
}

#[test]
fn key_names_one_upload_for_good() {
    let mut uploads = UploadRepository::new();
    uploads.link(KEY, "cat.png").unwrap();
    assert_eq!(uploads.link(KEY, "dog.png").unwrap_err(), FileUploadError::KeyTaken);
    assert_eq!(uploads.len(), 1);
    assert_eq!(uploads.find(KEY).unwrap().filename, "cat.png");
}

#[test]
fn random_keys_are_version_four_and_differ() {
    let mut uploads = UploadRepository::new();
    let first = uploads.link_new("a").unwrap();
    let second = uploads.link_new("b").unwrap();
    assert_ne!(first.uuid, second.uuid);
    for upload in [&first, &second] {
        assert_eq!(upload.uuid.len(), 36);
        assert_eq!(upload.uuid.as_bytes()[14], b'4');
        assert!(matches!(upload.uuid.as_bytes()[19], b'8' | b'9' | b'a' | b'b'));
        assert_eq!(uploads.find_by_text(&upload.uuid).unwrap().filename, upload.filename);
    }
    let rooms = RoomRepository::new();
    let _ = rooms;
}

#[test]
fn room_upload_links_a_fresh_key() {
    let mut rooms = RoomRepository::new();
    let room = rooms.create("general").unwrap();
    let mut uploads = UploadRepository::new();
    let upload = room.upload(&mut uploads, "notes.txt").unwrap();
    assert_eq!(upload.filename, "notes.txt");
    assert_eq!(uploads.find_by_text(&upload.uuid).unwrap().filename, "notes.txt");
    assert!(upload.store_path().ends_with("_notes.txt"));
}

#[test]
fn payload_of_a_plain_message_has_no_attachment() {
    let uploads = UploadRepository::new();
    let payload = message_with(None, Some("hi")).to_echoed_message(&uploads);
    assert_eq!(payload.id, 5);
    assert_eq!(payload.sender, "alice");
    assert_eq!(payload.room_id, 7);
    assert_eq!(payload.text.as_deref(), Some("hi"));
    assert_eq!(payload.sent_at, 77);
    assert_eq!(payload.upload_filename, None);
    assert_eq!(payload.upload_url, None);
    assert!(!payload.upload_missing);
}

#[test]
fn payload_of_a_linked_attachment_names_the_file() {
    let mut uploads = UploadRepository::new();
    uploads.link(KEY, "cat.png").unwrap();
    let payload = message_with(Some(KEY_TEXT), None).to_echoed_message(&uploads);
    assert_eq!(payload.upload_filename.as_deref(), Some("cat.png"));
    assert_eq!(payload.upload_url.as_deref(), Some(KEY_TEXT));
    assert!(!payload.upload_missing);
    assert_eq!(payload.text, None);
}

#[test]
fn reference_is_read_in_any_form_and_looked_up_in_canonical_form() {
    let mut uploads = UploadRepository::new();
    uploads.link(KEY, "cat.png").unwrap();
    for reference in [
        "550E8400-E29B-41D4-A716-446655440000",
        "550e8400e29b41d4a716446655440000",
        "{550e8400-e29b-41d4-a716-446655440000}",
        "urn:uuid:550e8400-e29b-41d4-a716-446655440000",
    ] {
        let payload = message_with(Some(reference), None).to_echoed_message(&uploads);
        assert_eq!(payload.upload_filename.as_deref(), Some("cat.png"), "{reference}");
        assert_eq!(payload.upload_url.as_deref(), Some(KEY_TEXT));
    }
}

#[test]
fn unresolved_attachment_is_marked_and_the_text_is_kept() {
    let uploads = UploadRepository::new();
    let payload = message_with(Some(KEY_TEXT), Some("see this")).to_echoed_message(&uploads);
    assert!(payload.upload_missing);
    assert_eq!(payload.upload_filename, None);
    assert_eq!(payload.upload_url, None);
    assert_eq!(payload.text.as_deref(), Some("see this"));
    let garbled = message_with(Some("not a key"), Some("see this")).to_echoed_message(&uploads);
    assert!(garbled.upload_missing);
    assert_eq!(garbled.text.as_deref(), Some("see this"));
}

#[test]
fn payload_with_a_given_key_ignores_the_text_of_the_reference() {
    let mut uploads = UploadRepository::new();
    uploads.link(KEY, "cat.png").unwrap();
    let payload = message_with(Some("whatever"), None).echo_with_key(Some(KEY), &uploads);
    assert_eq!(payload.upload_filename.as_deref(), Some("cat.png"));
    let none = message_with(Some(KEY_TEXT), None).echo_with_key(None, &uploads);
    assert!(none.upload_missing);
    let plain = message_with(None, Some("hi")).echo_with_key(Some(KEY), &uploads);
    assert_eq!(plain.upload_filename, None);
    assert!(!plain.upload_missing);
}

#[test]
fn download_names_the_path_and_the_header() {
    let mut uploads = UploadRepository::new();
    uploads.link(KEY, "cat.png").unwrap();
    let found = download_handler(&uploads, KEY_TEXT).unwrap();
    assert_eq!(
        found.store_path,
        "./database/file_uploads/550e8400-e29b-41d4-a716-446655440000_cat.png"
    );
    assert_eq!(found.content_disposition, "attachment; filename = \"cat.png\"");
    let upper = download_handler(&uploads, "550E8400-E29B-41D4-A716-446655440000").unwrap();
    assert_eq!(upper.store_path, found.store_path);
}

#[test]
fn download_of_a_garbled_key_is_a_bad_request() {
    let mut uploads = UploadRepository::new();
    uploads.link(KEY, "cat.png").unwrap();
    assert_eq!(download_handler(&uploads, "cat.png").unwrap_err(), Status::BadRequest);
    assert_eq!(download_handler(&uploads, "").unwrap_err(), Status::BadRequest);
    assert_eq!(
        download_handler(&uploads, "550e8400-e29b-41d4-a716-44665544000g").unwrap_err(),
        Status::BadRequest
    );
    assert_eq!(download_with_key(&uploads, None).unwrap_err(), Status::BadRequest);
}

#[test]
fn download_of_an_unknown_key_is_not_found() {
    let mut uploads = UploadRepository::new();
    uploads.link(KEY, "cat.png").unwrap();
    assert_eq!(
        download_handler(&uploads, "00000000-0000-0000-0000-000000000001").unwrap_err(),
        Status::NotFound
    );
    assert_eq!(download_with_key(&uploads, Some(1)).unwrap_err(), Status::NotFound);
    assert!(download_with_key(&uploads, Some(KEY)).is_ok());
}
