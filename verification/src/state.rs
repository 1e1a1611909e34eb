//! The state that every connection of the service shares, and what holds
//! of it at all times.

use vstd::prelude::*;
use crate::endpoints::chat::{EchoedMessageView, replay_of};
use crate::hub::{Hub, HubView, RoomState};
use crate::repository::{Repository, RestoreError};
use crate::repository::account::{AccountView, SessionView};
use crate::repository::room::RoomView;
use crate::repository::message::{
    Message, MessageView, lemma_room_messages_ascending, reference_key, room_messages,
    strictly_ascending,
};
use crate::repository::upload::{UploadView, distinct_keys, has_key, lemma_resolve_at, resolve};
use crate::trusted::{parse_uuid, uuid_text};

verus! {

/// Every attachment reference in the log reads as a key, and the key names
/// an upload: no stored message points at an attachment that does not
/// exist.
pub open spec fn references_resolve(log: Seq<MessageView>, uploads: Seq<UploadView>) -> bool {
    forall|i: int|
        0 <= i < log.len() && (#[trigger] log[i]).file_upload_uuid is Some ==> {
            &&& reference_key(log[i]) is Some
            &&& has_key(uploads, uuid_text(reference_key(log[i])->Some_0))
        }
}

/// `part` is the end of `whole`.
pub open spec fn is_tail<A>(part: Seq<A>, whole: Seq<A>) -> bool {
    part.len() <= whole.len() && part == whole.skip(whole.len() - part.len())
}

/// What waits for a subscriber is the end of the log of its room, as a
/// replay shows it: the hub never holds a message that the log does not
/// hold, never holds one twice, and never holds two in another order than
/// the log does.
pub open spec fn hub_follows_log(
    hub: HubView,
    log: Seq<MessageView>,
    uploads: Seq<UploadView>,
) -> bool {
    forall|id: nat| #[trigger]
        hub.channels.contains_key(id) ==> is_tail(
            hub.channels[id].pending,
            replay_of(room_messages(log, hub.channels[id].room_id), uploads),
        )
}

/// The stores and the hub. The handle is passed to whoever needs it; how
/// concurrent connections take turns on it is the caller's business.
#[derive(Debug)]
pub struct SharedState {
    pub repository: Repository,
    pub hub: Hub,
}

impl SharedState {
    /// The invariant of the state: the stores and the hub are well formed,
    /// every attachment that the log refers to is linked, and the hub
    /// follows the log.
    pub open spec fn wf(&self) -> bool {
        &&& self.repository.wf()
        &&& self.hub.wf()
        &&& references_resolve(self.repository.rooms.log@, self.repository.uploads@)
        &&& hub_follows_log(self.hub@, self.repository.rooms.log@, self.repository.uploads@)
    }

    /// Empty stores and a hub without subscribers whose queues hold up to
    /// `broadcast_channel_capacity` messages.
    pub fn new(broadcast_channel_capacity: usize) -> (state: Self)
        ensures
            state.wf(),
            state.hub@ == (HubView {
                capacity: broadcast_channel_capacity as nat,
                next_id: 1,
                channels: Map::empty(),
            }),
            state.repository.accounts.accounts() == Seq::<AccountView>::empty(),
            state.repository.accounts.sessions() == Seq::<SessionView>::empty(),
            state.repository.rooms.directory@ == Seq::<RoomView>::empty(),
            state.repository.rooms.directory.next_id() == 1,
            state.repository.rooms.members@ == Set::<(int, Seq<char>)>::empty(),
            state.repository.rooms.log@ == Seq::<MessageView>::empty(),
            state.repository.rooms.log.next_id() == 1,
            state.repository.uploads@ == Seq::<UploadView>::empty(),
    {
        SharedState { repository: Repository::new(), hub: Hub::new(broadcast_channel_capacity) }
    }

    /// Takes a message that was written earlier, as
    /// [`crate::repository::message::MessageLog::restore`] does, into the
    /// log. Beyond what the log asks, an attachment that the message refers
    /// to has to be linked, and the room of the message must have no
    /// subscriber, who would miss it. A message that is refused changes
    /// nothing.
    pub fn restore_message(&mut self, message: Message) -> (outcome: Result<(), RestoreError>)
        requires
            old(self).wf(),
        ensures
            final(self).wf(),
            final(self).hub == old(self).hub,
            final(self).repository.accounts == old(self).repository.accounts,
            final(self).repository.uploads == old(self).repository.uploads,
            final(self).repository.rooms.members == old(self).repository.rooms.members,
            final(self).repository.rooms.directory == old(self).repository.rooms.directory,
            ({
                let log = old(self).repository.rooms.log;
                let dangling = message@.file_upload_uuid is Some && !(reference_key(message@)
                    is Some && has_key(
                    old(self).repository.uploads@,
                    uuid_text(reference_key(message@)->Some_0),
                ));
                match outcome {
                    Ok(()) => {
                        &&& message@.text is Some || message@.file_upload_uuid is Some
                        &&& !dangling
                        &&& !old(self).hub@.active(message.room_id as int)
                        &&& log.next_id() <= message.id < i64::MAX
                        &&& final(self).repository.rooms.log@ == log@.push(message@)
                        &&& final(self).repository.rooms.log.next_id() == message.id + 1
                    },
                    Err(error) => {
                        &&& final(self).repository.rooms.log@ == log@
                        &&& final(self).repository.rooms.log.next_id() == log.next_id()
                        &&& error == if (message@.text is None && message@.file_upload_uuid
                            is None) || dangling {
                            RestoreError::Invalid
                        } else if old(self).hub@.active(message.room_id as int) {
                            RestoreError::RoomActive
                        } else if message.id < log.next_id() {
                            RestoreError::OutOfOrder
                        } else {
                            RestoreError::IdentifiersExhausted
                        }
                        &&& error == RestoreError::IdentifiersExhausted ==> message.id == i64::MAX
                    },
                }
            }),
    {
        if message.text.is_none() && message.file_upload_uuid.is_none() {
            return Err(RestoreError::Invalid);
        }
        match &message.file_upload_uuid {
            None => {},
            Some(reference) => {
                let linked = match parse_uuid(reference.as_str()) {
                    None => false,
                    Some(key) => {
                        proof {
                            lemma_resolve_is_has_key(self.repository.uploads@, uuid_text(key));
                        }
                        self.repository.uploads.find(key).is_some()
                    },
                };
                if !linked {
                    return Err(RestoreError::Invalid);
                }
            },
        }
        match self.hub.room_state(message.room_id) {
            RoomState::Active => {
                return Err(RestoreError::RoomActive);
            },
            RoomState::Empty => {},
        }
        let ghost record = message@;
        let outcome = self.repository.rooms.log.restore(message);
        proof {
            if outcome is Ok {
                lemma_unheard_append_keeps_hub_in_step(
                    self.hub@,
                    old(self).repository.rooms.log@,
                    record,
                    self.repository.uploads@,
                );
            }
        }
        outcome
    }
}

/// A key resolves exactly when some upload has it.
pub proof fn lemma_resolve_is_has_key(uploads: Seq<UploadView>, key: Seq<char>)
    ensures
        resolve(uploads, key) is Some <==> has_key(uploads, key),
{
}

/// The end of a sequence stays the end when both grow by the same element.
pub proof fn lemma_tail_push<A>(part: Seq<A>, whole: Seq<A>, last: A)
    requires
        is_tail(part, whole),
    ensures
        is_tail(part.push(last), whole.push(last)),
{
    assert(part.push(last) =~= whole.push(last).skip(whole.len() + 1 - (part.len() + 1)));
}

/// The end of a sequence without its first element is still an end.
pub proof fn lemma_tail_drop_first<A>(part: Seq<A>, whole: Seq<A>)
    requires
        is_tail(part, whole),
        part.len() > 0,
    ensures
        is_tail(part.drop_first(), whole),
{
    assert(part.drop_first() =~= whole.skip(whole.len() - (part.len() - 1)));
}

/// Appending a record to the log adds its payload to the replay of its
/// room, and leaves the replay of every other room as it was.
pub proof fn lemma_replay_after_append(
    log: Seq<MessageView>,
    record: MessageView,
    uploads: Seq<UploadView>,
    room_id: int,
)
    ensures
        replay_of(room_messages(log.push(record), room_id), uploads) == if record.room_id
            == room_id {
            replay_of(room_messages(log, room_id), uploads) + replay_of(seq![record], uploads)
        } else {
            replay_of(room_messages(log, room_id), uploads)
        },
{
    reveal(Seq::filter);
    assert(log.push(record).drop_last() =~= log);
    if record.room_id == room_id {
        assert(replay_of(room_messages(log, room_id).push(record), uploads) =~= replay_of(
            room_messages(log, room_id),
            uploads,
        ) + replay_of(seq![record], uploads));
    }
}

/// Linking one more upload under a new key changes no payload of a log
/// whose references all resolve, and they all still resolve.
pub proof fn lemma_link_keeps_replays(
    log: Seq<MessageView>,
    uploads: Seq<UploadView>,
    linked: UploadView,
)
    requires
        strictly_ascending(log),
        references_resolve(log, uploads),
        distinct_keys(uploads.push(linked)),
    ensures
        references_resolve(log, uploads.push(linked)),
        forall|room_id: int|
            #[trigger] replay_of(room_messages(log, room_id), uploads.push(linked)) == replay_of(
                room_messages(log, room_id),
                uploads,
            ),
{
    let more = uploads.push(linked);
    assert forall|key: Seq<char>| has_key(uploads, key) implies has_key(more, key) && resolve(
        more,
        key,
    ) == resolve(uploads, key) by {
        let k = choose|k: int| 0 <= k < uploads.len() && (#[trigger] uploads[k]).uuid == key;
        assert(more[k] == uploads[k]);
        assert(distinct_keys(uploads)) by {
            assert forall|i: int, j: int| 0 <= i < j < uploads.len() implies (
            #[trigger] uploads[i]).uuid != (#[trigger] uploads[j]).uuid by {
                assert(more[i] == uploads[i]);
                assert(more[j] == uploads[j]);
            }
        }
        lemma_resolve_at(uploads, k);
        lemma_resolve_at(more, k);
    }
    assert forall|room_id: int|
        #[trigger] replay_of(room_messages(log, room_id), more) == replay_of(
            room_messages(log, room_id),
            uploads,
        ) by {
        lemma_room_messages_ascending(log, room_id);
        let messages = room_messages(log, room_id);
        assert forall|k: int| 0 <= k < messages.len() implies replay_of(messages, more)[k]
            == replay_of(messages, uploads)[k] by {
            let i = choose|i: int| 0 <= i < log.len() && log[i] == messages[k];
            assert(log[i].file_upload_uuid is Some ==> has_key(
                uploads,
                uuid_text(reference_key(log[i])->Some_0),
            ));
        }
        assert(replay_of(messages, more) =~= replay_of(messages, uploads));
    }
}

/// The hub stays in step with the log when a record is appended and its
/// payload published to its room in one go.
pub proof fn lemma_publish_keeps_hub_in_step(
    hub: HubView,
    log: Seq<MessageView>,
    record: MessageView,
    payload: EchoedMessageView,
    uploads: Seq<UploadView>,
)
    requires
        hub_follows_log(hub, log, uploads),
        replay_of(seq![record], uploads) == seq![payload],
    ensures
        hub_follows_log(hub.publish(record.room_id, payload), log.push(record), uploads),
{
    let after = hub.publish(record.room_id, payload);
    assert forall|id: nat| #[trigger] after.channels.contains_key(id) implies is_tail(
        after.channels[id].pending,
        replay_of(room_messages(log.push(record), after.channels[id].room_id), uploads),
    ) by {
        assert(hub.channels.contains_key(id));
        let room_id = hub.channels[id].room_id;
        lemma_replay_after_append(log, record, uploads, room_id);
        if room_id == record.room_id {
            lemma_tail_push(
                hub.channels[id].pending,
                replay_of(room_messages(log, room_id), uploads),
                payload,
            );
            assert(replay_of(room_messages(log, room_id), uploads) + seq![payload]
                =~= replay_of(room_messages(log, room_id), uploads).push(payload));
        }
    }
}

/// The hub stays in step with the log when a record is appended to a room
/// that has no subscriber.
pub proof fn lemma_unheard_append_keeps_hub_in_step(
    hub: HubView,
    log: Seq<MessageView>,
    record: MessageView,
    uploads: Seq<UploadView>,
)
    requires
        hub_follows_log(hub, log, uploads),
        !hub.active(record.room_id),
    ensures
        hub_follows_log(hub, log.push(record), uploads),
{
    assert forall|id: nat| #[trigger] hub.channels.contains_key(id) implies is_tail(
        hub.channels[id].pending,
        replay_of(room_messages(log.push(record), hub.channels[id].room_id), uploads),
    ) by {
        let room_id = hub.channels[id].room_id;
        assert(!hub.attached(id, record.room_id));
        lemma_replay_after_append(log, record, uploads, room_id);
    }
}

} // verus!
