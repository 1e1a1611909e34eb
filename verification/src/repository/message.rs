//! Messages and the ordered, append-only log that owns them.

use vstd::prelude::*;
use vstd::string::*;
use crate::endpoints::chat::{EchoedMessage, EchoedMessageView};
use crate::repository::RestoreError;
use crate::repository::upload::{Upload, UploadRepository, UploadView, resolve};
use crate::text::{clone_text, text_of};
use crate::trusted::{parse_uuid, unix_now, uuid_parse, uuid_text};

verus! {

/// One persisted chat message. Its id and timestamp are assigned by the log.
#[derive(Debug)]
pub struct Message {
    pub id: i64,
    pub sender: String,
    pub room_id: i64,
    pub text: Option<String>,
    pub sent_at: i64,
    pub file_upload_uuid: Option<String>,
}

/// What a [`Message`] holds, as mathematical values.
pub struct MessageView {
    pub id: int,
    pub sender: Seq<char>,
    pub room_id: int,
    pub text: Option<Seq<char>>,
    pub sent_at: int,
    pub file_upload_uuid: Option<Seq<char>>,
}

impl View for Message {
    type V = MessageView;

    open spec fn view(&self) -> MessageView {
        MessageView {
            id: self.id as int,
            sender: self.sender@,
            room_id: self.room_id as int,
            text: text_of(self.text),
            sent_at: self.sent_at as int,
            file_upload_uuid: text_of(self.file_upload_uuid),
        }
    }
}

impl Clone for Message {
    fn clone(&self) -> (copy: Self)
        ensures
            copy@ == self@,
    {
        Message {
            id: self.id,
            sender: self.sender.clone(),
            room_id: self.room_id,
            text: clone_text(&self.text),
            sent_at: self.sent_at,
            file_upload_uuid: clone_text(&self.file_upload_uuid),
        }
    }
}

/// The payload for a message whose attachment reference, if it has one,
/// resolved to `upload`. A reference that resolved to nothing is marked as
/// missing; the text is kept either way.
pub open spec fn echo(message: MessageView, upload: Option<UploadView>) -> EchoedMessageView {
    EchoedMessageView {
        id: message.id,
        sender: message.sender,
        room_id: message.room_id,
        text: message.text,
        sent_at: message.sent_at,
        upload_filename: match upload {
            Some(found) => Some(found.filename),
            None => None,
        },
        upload_url: match upload {
            Some(found) => Some(found.uuid),
            None => None,
        },
        upload_missing: message.file_upload_uuid is Some && upload is None,
    }
}

/// The upload that the attachment reference of `message` names among
/// `uploads`, when `key` is what the reference reads as: the upload stored
/// under the canonical text of the key. A message without reference, and a
/// reference that does not read as a key, name nothing.
pub open spec fn attachment_of(
    message: MessageView,
    key: Option<u128>,
    uploads: Seq<UploadView>,
) -> Option<UploadView> {
    if message.file_upload_uuid is Some && key is Some {
        resolve(uploads, uuid_text(key->Some_0))
    } else {
        None
    }
}

/// What the attachment reference of `message` reads as.
pub open spec fn reference_key(message: MessageView) -> Option<u128> {
    match message.file_upload_uuid {
        Some(reference) => uuid_parse(reference),
        None => None,
    }
}

impl Message {
    /// The payload for this message, when `key` is what its attachment
    /// reference reads as.
    pub fn echo_with_key(
        self,
        key: Option<u128>,
        uploads: &UploadRepository,
    ) -> (payload: EchoedMessage)
        requires
            uploads.wf(),
        ensures
            payload@ == echo(self@, attachment_of(self@, key, uploads@)),
    {
        let upload: Option<Upload> = if self.file_upload_uuid.is_some() {
            match key {
                Some(uuid) => uploads.find(uuid),
                None => None,
            }
        } else {
            None
        };
        let upload_missing = self.file_upload_uuid.is_some() && upload.is_none();
        let (upload_url, upload_filename) = match upload {
            None => (None, None),
            Some(found) => (Some(found.uuid), Some(found.filename)),
        };
        EchoedMessage {
            id: self.id,
            sender: self.sender,
            room_id: self.room_id,
            text: self.text,
            sent_at: self.sent_at,
            upload_filename,
            upload_url,
            upload_missing,
        }
    }

    /// The payload for this message: the record itself, with its attachment
    /// reference resolved against `uploads`.
    pub fn to_echoed_message(self, uploads: &UploadRepository) -> (payload: EchoedMessage)
        requires
            uploads.wf(),
        ensures
            payload@ == echo(self@, attachment_of(self@, reference_key(self@), uploads@)),
    {
        let key = match &self.file_upload_uuid {
            Some(reference) => parse_uuid(reference.as_str()),
            None => None,
        };
        self.echo_with_key(key, uploads)
    }
}

/// Why the log refused a message.
#[derive(Debug, Clone, Copy, PartialEq, Eq, Structural)]
pub enum AppendError {
    /// The message carried neither a text nor an attachment.
    InvalidMessage,
    /// The log has no identifier left to give out.
    StorageError,
}

/// The messages of a sequence, as mathematical values.
pub open spec fn message_views(messages: Seq<Message>) -> Seq<MessageView> {
    messages.map_values(|m: Message| m@)
}

/// Whether a message belongs to `room_id`.
pub open spec fn in_room(room_id: int) -> spec_fn(MessageView) -> bool {
    |m: MessageView| m.room_id == room_id
}

/// The messages of `room_id` among `log`, in log order.
pub open spec fn room_messages(log: Seq<MessageView>, room_id: int) -> Seq<MessageView> {
    log.filter(in_room(room_id))
}

/// The most recent `limit` messages of `room_id`, oldest first.
pub open spec fn history_of(log: Seq<MessageView>, room_id: int, limit: nat) -> Seq<MessageView> {
    let all = room_messages(log, room_id);
    if all.len() <= limit {
        all
    } else {
        all.skip(all.len() - limit)
    }
}

/// Identifiers grow strictly along the sequence.
pub open spec fn strictly_ascending(log: Seq<MessageView>) -> bool {
    forall|i: int, j: int| 0 <= i < j < log.len() ==> log[i].id < log[j].id
}

/// The record that the log writes for a message accepted at `sent_at`, when
/// `id` is the next identifier.
pub open spec fn new_record(
    id: int,
    room_id: i64,
    sender: Seq<char>,
    text: Option<Seq<char>>,
    file_upload_uuid: Option<Seq<char>>,
    sent_at: i64,
) -> MessageView {
    MessageView {
        id,
        sender,
        room_id: room_id as int,
        text,
        sent_at: sent_at as int,
        file_upload_uuid,
    }
}

/// The ordered, append-only store of messages of all rooms.
#[derive(Debug)]
pub struct MessageLog {
    entries: Vec<Message>,
    next_id: i64,
}

impl View for MessageLog {
    type V = Seq<MessageView>;

    closed spec fn view(&self) -> Seq<MessageView> {
        message_views(self.entries@)
    }
}

impl MessageLog {
    /// The identifier that the next accepted message gets.
    pub closed spec fn next_id(&self) -> int {
        self.next_id as int
    }

    /// The invariant of the log: identifiers start at 1, stay below the next
    /// one and grow strictly in log order, and no record is empty.
    pub open spec fn wf(&self) -> bool {
        &&& 1 <= self.next_id() <= i64::MAX
        &&& strictly_ascending(self@)
        &&& forall|i: int|
            0 <= i < self@.len() ==> {
                &&& 1 <= (#[trigger] self@[i]).id < self.next_id()
                &&& (self@[i].text is Some || self@[i].file_upload_uuid is Some)
            }
    }

    /// The relation between a call of [`MessageLog::append_at`] and its
    /// outcome: what is returned and what the log holds afterwards.
    pub open spec fn append_outcome(
        before: Self,
        room_id: i64,
        sender: Seq<char>,
        text: Option<Seq<char>>,
        file_upload_uuid: Option<Seq<char>>,
        sent_at: i64,
        outcome: Result<Message, AppendError>,
        after: Self,
    ) -> bool {
        if text is None && file_upload_uuid is None {
            &&& outcome == Err::<Message, AppendError>(AppendError::InvalidMessage)
            &&& after@ == before@
            &&& after.next_id() == before.next_id()
        } else if before.next_id() == i64::MAX {
            &&& outcome == Err::<Message, AppendError>(AppendError::StorageError)
            &&& after@ == before@
            &&& after.next_id() == before.next_id()
        } else {
            &&& outcome is Ok
            &&& outcome->Ok_0@ == new_record(
                before.next_id(),
                room_id,
                sender,
                text,
                file_upload_uuid,
                sent_at,
            )
            &&& after@ == before@.push(outcome->Ok_0@)
            &&& after.next_id() == before.next_id() + 1
        }
    }

    /// An empty log whose first message will get the identifier 1.
    pub fn new() -> (log: Self)
        ensures
            log.wf(),
            log@ == Seq::<MessageView>::empty(),
            log.next_id() == 1,
    {
        MessageLog { entries: Vec::new(), next_id: 1 }
    }

    /// The identifier that the next accepted message gets.
    pub fn peek_id(&self) -> (id: i64)
        ensures
            id == self.next_id(),
    {
        self.next_id
    }

    /// The number of messages in the log, of all rooms.
    pub fn len(&self) -> (count: usize)
        ensures
            count == self@.len(),
    {
        self.entries.len()
    }

    /// Appends a message that was accepted at the time `sent_at`.
    ///
    /// A message with neither text nor attachment is refused as invalid, and
    /// a log that has given out its last identifier refuses every message;
    /// in both cases the log is left as it was.
    pub fn append_at(
        &mut self,
        room_id: i64,
        sender: &str,
        text: Option<String>,
        file_upload_uuid: Option<String>,
        sent_at: i64,
    ) -> (outcome: Result<Message, AppendError>)
        requires
            old(self).wf(),
        ensures
            final(self).wf(),
            Self::append_outcome(
                *old(self),
                room_id,
                sender@,
                text_of(text),
                text_of(file_upload_uuid),
                sent_at,
                outcome,
                *final(self),
            ),
    {
        if text.is_none() && file_upload_uuid.is_none() {
            return Err(AppendError::InvalidMessage);
        }
        if self.next_id == i64::MAX {
            return Err(AppendError::StorageError);
        }
        let message = Message {
            id: self.next_id,
            sender: String::from_str(sender),
            room_id,
            text,
            sent_at,
            file_upload_uuid,
        };
        let copy = message.clone();
        self.entries.push(message);
        self.next_id = self.next_id + 1;
        proof {
            assert(message_views(self.entries@) =~= message_views(old(self).entries@).push(
                copy@,
            ));
        }
        Ok(copy)
    }

    /// The number of messages of `room_id`.
    pub fn count_in_room(&self, room_id: i64) -> (count: usize)
        ensures
            count == room_messages(self@, room_id as int).len(),
    {
        let mut count: usize = 0;
        let mut index: usize = 0;
        while index < self.entries.len()
            invariant
                index <= self.entries.len(),
                count <= index,
                count == room_messages(self@.take(index as int), room_id as int).len(),
            decreases self.entries.len() - index,
        {
            proof {
                lemma_room_messages_step(self@, room_id as int, index as int);
            }
            if self.entries[index].room_id == room_id {
                count = count + 1;
            }
            index = index + 1;
        }
        proof {
            assert(self@.take(index as int) =~= self@);
        }
        count
    }

    /// All messages of `room_id`, oldest first.
    pub fn messages_of(&self, room_id: i64) -> (found: Vec<Message>)
        ensures
            message_views(found@) == room_messages(self@, room_id as int),
    {
        let mut found: Vec<Message> = Vec::new();
        let mut index: usize = 0;
        while index < self.entries.len()
            invariant
                index <= self.entries.len(),
                message_views(found@) == room_messages(self@.take(index as int), room_id as int),
            decreases self.entries.len() - index,
        {
            proof {
                lemma_room_messages_step(self@, room_id as int, index as int);
            }
            if self.entries[index].room_id == room_id {
                let ghost before = found@;
                let copy = self.entries[index].clone();
                found.push(copy);
                proof {
                    assert(message_views(found@) =~= message_views(before).push(copy@));
                }
            }
            index = index + 1;
        }
        proof {
            assert(self@.take(index as int) =~= self@);
        }
        found
    }

    /// The most recent `limit` messages of `room_id`, oldest first. A room
    /// without messages, or one that does not exist, has an empty history.
    pub fn history(&self, room_id: i64, limit: usize) -> (found: Vec<Message>)
        ensures
            message_views(found@) == history_of(self@, room_id as int, limit as nat),
    {
        let total = self.count_in_room(room_id);
        let skipped: usize = if total <= limit {
            0
        } else {
            total - limit
        };
        let mut found: Vec<Message> = Vec::new();
        let mut seen: usize = 0;
        let mut index: usize = 0;
        while index < self.entries.len()
            invariant
                index <= self.entries.len(),
                seen <= index,
                seen == room_messages(self@.take(index as int), room_id as int).len(),
                seen <= skipped ==> found@.len() == 0,
                seen >= skipped ==> message_views(found@) == room_messages(
                    self@.take(index as int),
                    room_id as int,
                ).skip(skipped as int),
            decreases self.entries.len() - index,
        {
            proof {
                lemma_room_messages_step(self@, room_id as int, index as int);
            }
            if self.entries[index].room_id == room_id {
                if seen >= skipped {
                    let ghost before = found@;
                    let copy = self.entries[index].clone();
                    found.push(copy);
                    proof {
                        assert(message_views(found@) =~= message_views(before).push(copy@));
                        assert(room_messages(self@.take(index as int), room_id as int).push(
                            copy@,
                        ).skip(skipped as int) =~= room_messages(
                            self@.take(index as int),
                            room_id as int,
                        ).skip(skipped as int).push(copy@));
                    }
                } else {
                    proof {
                        if seen + 1 == skipped {
                            assert(room_messages(self@.take(index as int + 1), room_id as int).skip(
                                skipped as int,
                            ) =~= Seq::<MessageView>::empty());
                            assert(message_views(found@) =~= Seq::<MessageView>::empty());
                        }
                    }
                }
                seen = seen + 1;
            }
            index = index + 1;
        }
        proof {
            assert(self@.take(index as int) =~= self@);
            let all = room_messages(self@, room_id as int);
            if total <= limit {
                assert(all.skip(0) =~= all);
            }
        }
        found
    }

    /// Takes a record that was written earlier, with the identifier and the
    /// time it was written under. The record has to carry a text or an
    /// attachment, and its identifier has to be at least the next one of
    /// the log and below the largest; the log goes on after it. A record
    /// that is refused changes nothing.
    pub fn restore(&mut self, message: Message) -> (outcome: Result<(), RestoreError>)
        requires
            old(self).wf(),
        ensures
            final(self).wf(),
            match outcome {
                Ok(()) => {
                    &&& message@.text is Some || message@.file_upload_uuid is Some
                    &&& old(self).next_id() <= message.id < i64::MAX
                    &&& final(self)@ == old(self)@.push(message@)
                    &&& final(self).next_id() == message.id + 1
                },
                Err(error) => {
                    &&& final(self)@ == old(self)@
                    &&& final(self).next_id() == old(self).next_id()
                    &&& error == if message@.text is None && message@.file_upload_uuid is None {
                        RestoreError::Invalid
                    } else if message.id < old(self).next_id() {
                        RestoreError::OutOfOrder
                    } else {
                        RestoreError::IdentifiersExhausted
                    }
                    &&& error == RestoreError::IdentifiersExhausted ==> message.id == i64::MAX
                },
            },
    {
        if message.text.is_none() && message.file_upload_uuid.is_none() {
            return Err(RestoreError::Invalid);
        }
        if message.id < self.next_id {
            return Err(RestoreError::OutOfOrder);
        }
        if message.id == i64::MAX {
            return Err(RestoreError::IdentifiersExhausted);
        }
        let ghost record = message@;
        self.next_id = message.id + 1;
        self.entries.push(message);
        proof {
            assert(message_views(self.entries@) =~= message_views(old(self).entries@).push(
                record,
            ));
            assert forall|i: int| 0 <= i < self@.len() implies {
                &&& 1 <= (#[trigger] self@[i]).id < self.next_id()
                &&& (self@[i].text is Some || self@[i].file_upload_uuid is Some)
            } by {
                if i < old(self)@.len() {
                    assert(self@[i] == old(self)@[i]);
                }
            }
            assert forall|i: int, j: int| 0 <= i < j < self@.len() implies self@[i].id
                < self@[j].id by {
                assert(self@[i] == old(self)@[i]);
                if j < old(self)@.len() {
                    assert(self@[j] == old(self)@[j]);
                }
            }
        }
        Ok(())
    }

    /// Appends a message and stamps it with the current time.
    ///
    /// The outcome is that of [`MessageLog::append_at`] at some time.
    pub fn append(
        &mut self,
        room_id: i64,
        sender: &str,
        text: Option<String>,
        file_upload_uuid: Option<String>,
    ) -> (outcome: Result<Message, AppendError>)
        requires
            old(self).wf(),
        ensures
            final(self).wf(),
            exists|sent_at: i64|
                Self::append_outcome(
                    *old(self),
                    room_id,
                    sender@,
                    text_of(text),
                    text_of(file_upload_uuid),
                    sent_at,
                    outcome,
                    *final(self),
                ),
    {
        let sent_at = unix_now();
        self.append_at(room_id, sender, text, file_upload_uuid, sent_at)
    }
}

/// Looking one entry further along the log adds that entry to the messages
/// of a room if it belongs to the room, and nothing otherwise.
pub proof fn lemma_room_messages_step(log: Seq<MessageView>, room_id: int, index: int)
    requires
        0 <= index < log.len(),
    ensures
        room_messages(log.take(index + 1), room_id) == if log[index].room_id == room_id {
            room_messages(log.take(index), room_id).push(log[index])
        } else {
            room_messages(log.take(index), room_id)
        },
        room_messages(log.take(index), room_id).len() <= index,
{
    reveal(Seq::filter);
    assert(log.take(index + 1).drop_last() =~= log.take(index));
    log.take(index).lemma_filter_len(in_room(room_id));
}

/// The messages of a room are messages of the log, all of that room, and
/// keep the strict order of the log.
pub proof fn lemma_room_messages_ascending(log: Seq<MessageView>, room_id: int)
    requires
        strictly_ascending(log),
    ensures
        strictly_ascending(room_messages(log, room_id)),
        forall|k: int|
            0 <= k < room_messages(log, room_id).len() ==> {
                &&& (#[trigger] room_messages(log, room_id)[k]).room_id == room_id
                &&& log.contains(room_messages(log, room_id)[k])
            },
    decreases log.len(),
{
    reveal(Seq::filter);
    if log.len() > 0 {
        let front = log.drop_last();
        lemma_room_messages_ascending(front, room_id);
        let kept = room_messages(front, room_id);
        let all = room_messages(log, room_id);
        assert forall|k: int| 0 <= k < kept.len() implies log.contains(#[trigger] kept[k])
            && kept[k].id < log.last().id by {
            let i = choose|i: int| 0 <= i < front.len() && front[i] == kept[k];
            assert(log[i] == kept[k]);
        }
        assert forall|k: int| 0 <= k < all.len() implies log.contains(#[trigger] all[k]) by {
            if k < kept.len() {
                assert(all[k] == kept[k]);
            } else {
                assert(all[k] == log[log.len() - 1]);
            }
        }
    }
}

/// A history holds at most `limit` messages, all of the room asked for, in
/// strictly ascending order of their identifiers; it is empty where the room
/// has no message.
pub proof fn lemma_history_bounded_and_ascending(log: MessageLog, room_id: int, limit: nat)
    requires
        log.wf(),
    ensures
        history_of(log@, room_id, limit).len() <= limit,
        strictly_ascending(history_of(log@, room_id, limit)),
        forall|k: int|
            0 <= k < history_of(log@, room_id, limit).len() ==> (#[trigger] history_of(
                log@,
                room_id,
                limit,
            )[k]).room_id == room_id,
        room_messages(log@, room_id).len() == 0 ==> history_of(log@, room_id, limit).len() == 0,
{
    lemma_room_messages_ascending(log@, room_id);
    let all = room_messages(log@, room_id);
    let recent = history_of(log@, room_id, limit);
    if all.len() > limit {
        let skipped = all.len() - limit;
        assert forall|i: int, j: int| 0 <= i < j < recent.len() implies recent[i].id
            < recent[j].id by {
            assert(recent[i] == all[i + skipped]);
            assert(recent[j] == all[j + skipped]);
        }
        assert forall|k: int| 0 <= k < recent.len() implies (#[trigger] recent[k]).room_id
            == room_id by {
            assert(recent[k] == all[k + skipped]);
        }
    }
}

} // verus!
