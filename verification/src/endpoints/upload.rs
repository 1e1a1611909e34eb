//! Attachments: posting an uploaded file to a room, and handing one out.

use vstd::prelude::*;
use vstd::string::*;
use crate::auth::AuthorizedAccount;
use crate::endpoints::Status;
use crate::endpoints::chat::{EchoedMessage, EchoedMessageView, replay_of};
use crate::repository::message::{MessageView, reference_key, room_messages};
use crate::repository::room::{Room, room_with};
use crate::repository::upload::{Upload, UploadRepository, UploadView, has_key, resolve};
use crate::state::{
    SharedState, is_tail, lemma_link_keeps_replays, lemma_publish_keeps_hub_in_step,
    lemma_resolve_is_has_key, references_resolve,
};
use crate::trusted::{
    parse_uuid, random_uuid, unix_now, uuid_parse, uuid_text, uuid_to_string,
};

verus! {

/// The name that an upload gets when it came without one.
pub const DEFAULT_FILENAME: &'static str = "unnamed_upload.bin";

/// The file of an upload form, as far as the core reads it.
#[derive(Debug)]
pub struct FilePart {
    pub file_name: Option<String>,
}

/// The fields of an upload form that the core reads.
#[derive(Debug)]
pub struct UploadForm {
    pub file: Option<FilePart>,
    pub room_id: Option<i64>,
}

/// An upload that was linked to a key and waits for its bytes to be stored
/// and its message to be posted.
#[derive(Debug)]
pub struct PendingUpload {
    pub room: Room,
    pub key: u128,
    pub upload: Upload,
}

/// What is needed to hand out an upload.
#[derive(Debug)]
pub struct Download {
    /// Where the bytes are kept.
    pub store_path: String,
    /// The value of the header that names the file to the client.
    pub content_disposition: String,
}

/// The name under which the file of a form is kept: the one it came with,
/// or the default.
pub open spec fn chosen_name(file: FilePart) -> Seq<char> {
    match file.file_name {
        Some(name) => name@,
        None => DEFAULT_FILENAME@,
    }
}

/// The value of the header that names `filename` to the client.
pub open spec fn disposition_of(filename: Seq<char>) -> Seq<char> {
    "attachment; filename = \""@ + filename + "\""@
}

/// Whether an upload can be begun: the form has to name a file and a room,
/// the room has to exist, the uploader has to be a member of it, and the
/// key must not name an upload yet.
pub open spec fn begin_verdict(
    form: UploadForm,
    room_found: bool,
    member: bool,
    key_taken: bool,
) -> Result<(), Status> {
    if form.file is None || form.room_id is None {
        Err(Status::BadRequest)
    } else if !room_found {
        Err(Status::NotFound)
    } else if !member {
        Err(Status::Unauthorized)
    } else if key_taken {
        Err(Status::InternalServerError)
    } else {
        Ok(())
    }
}

/// The relation between a call of [`begin_upload_with_key`] and its
/// outcome: what is returned, and what uploads there are afterwards. Nothing
/// else is ever touched.
pub open spec fn begin_outcome(
    before: SharedState,
    uploader: Seq<char>,
    form: UploadForm,
    key: u128,
    outcome: Result<PendingUpload, Status>,
    after: SharedState,
) -> bool {
    let rooms = before.repository.rooms;
    let uploads = before.repository.uploads@;
    let room = room_with(rooms.directory@, form.room_id->Some_0 as int);
    let verdict = begin_verdict(
        form,
        room is Some,
        rooms.members@.contains((form.room_id->Some_0 as int, uploader)),
        has_key(uploads, uuid_text(key)),
    );
    &&& after.hub == before.hub
    &&& after.repository.accounts == before.repository.accounts
    &&& after.repository.rooms == before.repository.rooms
    &&& match outcome {
        Ok(pending) => {
            &&& verdict is Ok
            &&& pending.room@ == room->Some_0
            &&& pending.key == key
            &&& pending.upload@ == (UploadView {
                uuid: uuid_text(key),
                filename: chosen_name(form.file->Some_0),
            })
            &&& after.repository.uploads@ == uploads.push(pending.upload@)
        },
        Err(status) => {
            &&& verdict == Err::<(), Status>(status)
            &&& after.repository.uploads@ == uploads
        },
    }
}

/// The first half of posting an upload under the key `key`: checks the
/// form, the room and the membership of `uploader`, and links the key to
/// the name of the file. The bytes are to be stored under the path of the
/// upload before [`finish_upload`] posts the message.
pub fn begin_upload_with_key(
    shared: &mut SharedState,
    uploader: &AuthorizedAccount,
    form: &UploadForm,
    key: u128,
) -> (outcome: Result<PendingUpload, Status>)
    requires
        old(shared).wf(),
    ensures
        final(shared).wf(),
        begin_outcome(*old(shared), uploader@.username, *form, key, outcome, *final(shared)),
{
    let file = match &form.file {
        None => {
            return Err(Status::BadRequest);
        },
        Some(file) => file,
    };
    let room_id = match form.room_id {
        None => {
            return Err(Status::BadRequest);
        },
        Some(room_id) => room_id,
    };
    let room = match shared.repository.rooms.find_by_id(room_id) {
        None => {
            return Err(Status::NotFound);
        },
        Some(room) => room,
    };
    if !shared.repository.rooms.members.is_member(room_id, uploader.username.as_str()) {
        return Err(Status::Unauthorized);
    }
    let linked = match &file.file_name {
        Some(name) => shared.repository.uploads.link(key, name.as_str()),
        None => shared.repository.uploads.link(key, DEFAULT_FILENAME),
    };
    match linked {
        Err(_) => Err(Status::InternalServerError),
        Ok(upload) => {
            proof {
                let log = shared.repository.rooms.log@;
                lemma_link_keeps_replays(log, old(shared).repository.uploads@, upload@);
                assert forall|id: nat| #[trigger]
                    shared.hub@.channels.contains_key(id) implies is_tail(
                    shared.hub@.channels[id].pending,
                    replay_of(
                        room_messages(log, shared.hub@.channels[id].room_id),
                        shared.repository.uploads@,
                    ),
                ) by {
                    let room_id = shared.hub@.channels[id].room_id;
                    assert(replay_of(room_messages(log, room_id), shared.repository.uploads@)
                        == replay_of(room_messages(log, room_id), old(shared).repository.uploads@));
                }
            }
            Ok(PendingUpload { room, key, upload })
        },
    }
}

/// The first half of posting an upload, under a key drawn at random: goes
/// on as [`begin_upload_with_key`] does.
pub fn begin_upload(
    shared: &mut SharedState,
    uploader: &AuthorizedAccount,
    form: &UploadForm,
) -> (outcome: Result<PendingUpload, Status>)
    requires
        old(shared).wf(),
    ensures
        final(shared).wf(),
        exists|key: u128|
            begin_outcome(*old(shared), uploader@.username, *form, key, outcome, *final(shared)),
{
    let key = random_uuid();
    begin_upload_with_key(shared, uploader, form, key)
}

/// The payload that is published for an upload posted to `room_id` by
/// `sender`, which the log took at `sent_at` under the identifier `id`.
pub open spec fn upload_payload(
    upload: UploadView,
    room_id: int,
    id: int,
    sender: Seq<char>,
    sent_at: i64,
) -> EchoedMessageView {
    EchoedMessageView {
        id,
        sender,
        room_id,
        text: None,
        sent_at: sent_at as int,
        upload_filename: Some(upload.filename),
        upload_url: Some(upload.uuid),
        upload_missing: false,
    }
}

/// The record that the log keeps of a published upload.
pub open spec fn upload_record(payload: EchoedMessageView) -> MessageView {
    MessageView {
        id: payload.id,
        sender: payload.sender,
        room_id: payload.room_id,
        text: None,
        sent_at: payload.sent_at,
        file_upload_uuid: payload.upload_url,
    }
}

/// Whether an upload can be posted: the uploader has to be a member of the
/// room, the upload has to be linked, and the log, whose next identifier is
/// `next_id`, has to have an identifier left.
pub open spec fn upload_verdict(member: bool, linked: bool, next_id: int) -> Result<(), Status> {
    if !member {
        Err(Status::Unauthorized)
    } else if !linked {
        Err(Status::NotFound)
    } else if next_id == i64::MAX {
        Err(Status::InternalServerError)
    } else {
        Ok(())
    }
}

/// The relation between a call of [`finish_upload_at`] and its outcome:
/// what is returned, and what the log and the hub hold afterwards. Accounts,
/// uploads, memberships and rooms are never touched.
pub open spec fn upload_outcome(
    before: SharedState,
    uploader: Seq<char>,
    pending: PendingUpload,
    sent_at: i64,
    outcome: Result<EchoedMessage, Status>,
    after: SharedState,
) -> bool {
    let rooms = before.repository.rooms;
    let uploads = before.repository.uploads@;
    let room = pending.room.id as int;
    let linked = resolve(uploads, uuid_text(pending.key));
    let verdict = upload_verdict(
        rooms.members@.contains((room, uploader)),
        linked is Some,
        rooms.log.next_id(),
    );
    &&& after.repository.accounts == before.repository.accounts
    &&& after.repository.uploads == before.repository.uploads
    &&& after.repository.rooms.members == before.repository.rooms.members
    &&& after.repository.rooms.directory == before.repository.rooms.directory
    &&& match outcome {
        Ok(payload) => {
            &&& verdict is Ok
            &&& payload@ == upload_payload(
                linked->Some_0,
                room,
                rooms.log.next_id(),
                uploader,
                sent_at,
            )
            &&& after.repository.rooms.log@ == rooms.log@.push(upload_record(payload@))
            &&& replay_of(seq![upload_record(payload@)], uploads) == seq![payload@]
            &&& after.repository.rooms.log.next_id() == rooms.log.next_id() + 1
            &&& after.hub@ == before.hub@.publish(room, payload@)
        },
        Err(status) => {
            &&& verdict == Err::<(), Status>(status)
            &&& after.repository.rooms.log@ == rooms.log@
            &&& after.repository.rooms.log.next_id() == rooms.log.next_id()
            &&& after.hub@ == before.hub@
        },
    }
}

/// Whether `pending` could be posted now. Nothing is changed by asking.
pub fn check_upload(
    shared: &SharedState,
    uploader: &AuthorizedAccount,
    pending: &PendingUpload,
) -> (outcome: Result<(), Status>)
    requires
        shared.wf(),
    ensures
        outcome == upload_verdict(
            shared.repository.rooms.members@.contains(
                (pending.room.id as int, uploader@.username),
            ),
            resolve(shared.repository.uploads@, uuid_text(pending.key)) is Some,
            shared.repository.rooms.log.next_id(),
        ),
{
    if !shared.repository.rooms.members.is_member(pending.room.id, uploader.username.as_str()) {
        return Err(Status::Unauthorized);
    }
    if shared.repository.uploads.find(pending.key).is_none() {
        return Err(Status::NotFound);
    }
    if shared.repository.rooms.log.peek_id() == i64::MAX {
        return Err(Status::InternalServerError);
    }
    Ok(())
}

/// The second half of posting an upload, once its bytes are stored, at the
/// time `sent_at`: appends a message that names the upload to the log of
/// the room and publishes it to the room, as a live connection does with
/// what it is sent. The upload is posted exactly when [`check_upload`] says
/// so; otherwise nothing is appended or published. What is published is
/// what a replay of the stored record gives.
pub fn finish_upload_at(
    shared: &mut SharedState,
    uploader: &AuthorizedAccount,
    pending: &PendingUpload,
    sent_at: i64,
) -> (outcome: Result<EchoedMessage, Status>)
    requires
        old(shared).wf(),
    ensures
        final(shared).wf(),
        upload_outcome(
            *old(shared),
            uploader@.username,
            *pending,
            sent_at,
            outcome,
            *final(shared),
        ),
{
    match check_upload(shared, uploader, pending) {
        Err(status) => {
            return Err(status);
        },
        Ok(()) => {},
    }
    let reference = uuid_to_string(pending.key);
    let appended = shared.repository.rooms.log.append_at(
        pending.room.id,
        uploader.username.as_str(),
        None,
        Some(reference),
        sent_at,
    );
    let message = match appended {
        Err(_) => {
            return Err(Status::InternalServerError);
        },
        Ok(message) => message,
    };
    let ghost record = message@;
    let payload = message.echo_with_key(Some(pending.key), &shared.repository.uploads);
    shared.hub.publish(pending.room.id, &payload);
    proof {
        crate::repository::upload::lemma_resolved_has_key(
            old(shared).repository.uploads@,
            uuid_text(pending.key),
        );
        let log = old(shared).repository.rooms.log@;
        let uploads = old(shared).repository.uploads@;
        assert(record == upload_record(payload@));
        assert(replay_of(seq![record], uploads) =~= seq![payload@]);
        lemma_publish_keeps_hub_in_step(old(shared).hub@, log, record, payload@, uploads);
        lemma_resolve_is_has_key(uploads, uuid_text(pending.key));
        assert(references_resolve(log.push(record), uploads)) by {
            assert forall|i: int|
                0 <= i < log.push(record).len() && (#[trigger] log.push(
                    record,
                )[i]).file_upload_uuid is Some implies {
                &&& reference_key(log.push(record)[i]) is Some
                &&& has_key(uploads, uuid_text(reference_key(log.push(record)[i])->Some_0))
            } by {
                if i < log.len() {
                    assert(log.push(record)[i] == log[i]);
                }
            }
        }
    }
    Ok(payload)
}

/// The second half of posting an upload, at the current time: goes on as
/// [`finish_upload_at`] does.
pub fn finish_upload(
    shared: &mut SharedState,
    uploader: &AuthorizedAccount,
    pending: &PendingUpload,
) -> (outcome: Result<EchoedMessage, Status>)
    requires
        old(shared).wf(),
    ensures
        final(shared).wf(),
        exists|sent_at: i64|
            upload_outcome(
                *old(shared),
                uploader@.username,
                *pending,
                sent_at,
                outcome,
                *final(shared),
            ),
{
    let sent_at = unix_now();
    finish_upload_at(shared, uploader, pending, sent_at)
}

/// What is needed to hand out the upload that `key` names, when `key` is
/// what the requested text reads as: a text that does not read as a key is
/// a bad request, and a key that names nothing is not found.
pub fn download_with_key(
    uploads: &UploadRepository,
    key: Option<u128>,
) -> (outcome: Result<Download, Status>)
    requires
        uploads.wf(),
    ensures
        match outcome {
            Ok(download) => {
                &&& key is Some
                &&& resolve(uploads@, uuid_text(key->Some_0)) is Some
                &&& download.store_path@ == resolve(
                    uploads@,
                    uuid_text(key->Some_0),
                )->Some_0.store_path()
                &&& download.content_disposition@ == disposition_of(
                    resolve(uploads@, uuid_text(key->Some_0))->Some_0.filename,
                )
            },
            Err(status) => status == if key is None {
                Status::BadRequest
            } else {
                Status::NotFound
            } && (key is Some ==> resolve(uploads@, uuid_text(key->Some_0)) is None),
        },
{
    let uuid = match key {
        None => {
            return Err(Status::BadRequest);
        },
        Some(uuid) => uuid,
    };
    let upload = match uploads.find(uuid) {
        None => {
            return Err(Status::NotFound);
        },
        Some(upload) => upload,
    };
    let store_path = upload.store_path();
    let mut content_disposition = String::from_str("attachment; filename = \"");
    content_disposition.append(upload.filename.as_str());
    content_disposition.append("\"");
    Ok(Download { store_path, content_disposition })
}

/// What is needed to hand out the upload that the text `uuid` names.
pub fn download_handler(
    uploads: &UploadRepository,
    uuid: &str,
) -> (outcome: Result<Download, Status>)
    requires
        uploads.wf(),
    ensures
        ({
            let key = uuid_parse(uuid@);
            match outcome {
                Ok(download) => {
                    &&& key is Some
                    &&& resolve(uploads@, uuid_text(key->Some_0)) is Some
                    &&& download.store_path@ == resolve(
                        uploads@,
                        uuid_text(key->Some_0),
                    )->Some_0.store_path()
                    &&& download.content_disposition@ == disposition_of(
                        resolve(uploads@, uuid_text(key->Some_0))->Some_0.filename,
                    )
                },
                Err(status) => status == if key is None {
                    Status::BadRequest
                } else {
                    Status::NotFound
                } && (key is Some ==> resolve(uploads@, uuid_text(key->Some_0)) is None),
            }
        }),
{
    let key = parse_uuid(uuid);
    download_with_key(uploads, key)
}

} // verus!
