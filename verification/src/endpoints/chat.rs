//! The chat room as a connection sees it: the payloads that cross the
//! transport and the handler that drives one connection.

use vstd::prelude::*;
use vstd::string::*;
use crate::auth::{
    AuthorizedAccount, RejectionCause, authenticate, authorize_room, str_of, token_key, verdict,
};
use crate::endpoints::Status;
use crate::hub::{Delivery, Subscription};
use crate::repository::room::room_with;
use crate::repository::message::{
    Message, MessageView, attachment_of, echo, history_of, message_views, reference_key,
};
use crate::repository::upload::{UploadRepository, UploadView, has_key, resolve};
use crate::repository::message::room_messages;
use crate::state::{
    SharedState, is_tail, lemma_publish_keeps_hub_in_step, lemma_tail_drop_first,
    references_resolve,
};
use crate::text::{clone_text, text_of};
use crate::trusted::{parse_uuid, unix_now, uuid_parse, uuid_text, uuid_to_string};

verus! {

/// A message as it is sent to clients: the stored record, with its
/// attachment resolved to a name and a download key.
#[derive(Debug)]
pub struct EchoedMessage {
    pub id: i64,
    pub sender: String,
    pub room_id: i64,
    pub text: Option<String>,
    pub sent_at: i64,
    pub upload_filename: Option<String>,
    pub upload_url: Option<String>,
    /// Set where the message names an attachment that could not be resolved.
    pub upload_missing: bool,
}

/// What an [`EchoedMessage`] holds, as mathematical values.
pub struct EchoedMessageView {
    pub id: int,
    pub sender: Seq<char>,
    pub room_id: int,
    pub text: Option<Seq<char>>,
    pub sent_at: int,
    pub upload_filename: Option<Seq<char>>,
    pub upload_url: Option<Seq<char>>,
    pub upload_missing: bool,
}

impl View for EchoedMessage {
    type V = EchoedMessageView;

    open spec fn view(&self) -> EchoedMessageView {
        EchoedMessageView {
            id: self.id as int,
            sender: self.sender@,
            room_id: self.room_id as int,
            text: text_of(self.text),
            sent_at: self.sent_at as int,
            upload_filename: text_of(self.upload_filename),
            upload_url: text_of(self.upload_url),
            upload_missing: self.upload_missing,
        }
    }
}

impl Clone for EchoedMessage {
    fn clone(&self) -> (copy: Self)
        ensures
            copy@ == self@,
    {
        EchoedMessage {
            id: self.id,
            sender: self.sender.clone(),
            room_id: self.room_id,
            text: clone_text(&self.text),
            sent_at: self.sent_at,
            upload_filename: clone_text(&self.upload_filename),
            upload_url: clone_text(&self.upload_url),
            upload_missing: self.upload_missing,
        }
    }
}

/// The payloads of a sequence, as mathematical values.
pub open spec fn echoed_views(messages: Seq<EchoedMessage>) -> Seq<EchoedMessageView> {
    messages.map_values(|m: EchoedMessage| m@)
}

/// A payload as a client sends it: a text, the key of an attachment, or both.
#[derive(Debug)]
pub struct IncomingMessage {
    pub room_id: i64,
    pub text: Option<String>,
    pub attachment_key: Option<String>,
}

/// What an [`IncomingMessage`] holds, as mathematical values.
pub struct IncomingMessageView {
    pub room_id: int,
    pub text: Option<Seq<char>>,
    pub attachment_key: Option<Seq<char>>,
}

impl View for IncomingMessage {
    type V = IncomingMessageView;

    open spec fn view(&self) -> IncomingMessageView {
        IncomingMessageView {
            room_id: self.room_id as int,
            text: text_of(self.text),
            attachment_key: text_of(self.attachment_key),
        }
    }
}

/// The shape of an incoming payload, settled once when it comes in.
#[derive(Debug, Clone, Copy, PartialEq, Eq, Structural)]
pub enum InboundKind {
    Text,
    Attachment,
    TextWithAttachment,
    Invalid,
}

impl IncomingMessageView {
    /// The shape of the payload.
    pub open spec fn kind(self) -> InboundKind {
        if self.text is Some && self.attachment_key is Some {
            InboundKind::TextWithAttachment
        } else if self.text is Some {
            InboundKind::Text
        } else if self.attachment_key is Some {
            InboundKind::Attachment
        } else {
            InboundKind::Invalid
        }
    }

    /// Whether a connection to `room_id` takes the payload, when `key` is
    /// what its attachment key reads as: it is addressed to that room, it
    /// carries a text or an attachment, and an attachment it names is one
    /// that `uploads` knows.
    pub open spec fn acceptable(
        self,
        room_id: int,
        key: Option<u128>,
        uploads: Seq<UploadView>,
    ) -> bool {
        &&& self.room_id == room_id
        &&& self.kind() != InboundKind::Invalid
        &&& self.attachment_key is Some ==> key is Some && has_key(uploads, uuid_text(key->Some_0))
    }

    /// What the attachment key of the payload reads as.
    pub open spec fn key(self) -> Option<u128> {
        match self.attachment_key {
            Some(text) => uuid_parse(text),
            None => None,
        }
    }
}

impl IncomingMessage {
    /// What the attachment key of the payload reads as.
    pub fn read_key(&self) -> (key: Option<u128>)
        ensures
            key == self@.key(),
    {
        match &self.attachment_key {
            Some(text) => parse_uuid(text.as_str()),
            None => None,
        }
    }

    /// The shape of the payload.
    pub fn classify(&self) -> (kind: InboundKind)
        ensures
            kind == self@.kind(),
    {
        if self.text.is_some() && self.attachment_key.is_some() {
            InboundKind::TextWithAttachment
        } else if self.text.is_some() {
            InboundKind::Text
        } else if self.attachment_key.is_some() {
            InboundKind::Attachment
        } else {
            InboundKind::Invalid
        }
    }
}

/// The states of a connection, in the order in which it passes them.
#[derive(Debug, Clone, Copy, PartialEq, Eq, Structural)]
pub enum ConnectionState {
    Connecting,
    Authorizing,
    Replaying,
    Live,
    Closed,
}

/// Why a step of a connection was refused.
#[derive(Debug, Clone, Copy, PartialEq, Eq, Structural)]
pub enum ConnectionError {
    /// The step does not belong to the state the connection is in.
    WrongState,
    /// The token was missing, invalid or expired.
    AuthenticationFailure(RejectionCause),
    /// The account is no member of the room.
    AuthorizationFailure,
    /// The payload was malformed or empty.
    InvalidMessage,
    /// A store could not take the message or the subscriber.
    StorageError,
    /// The hub dropped the subscriber because it did not keep up.
    SubscriberOverrun,
}

/// What a client is told of a failure: one of three words, and nothing of
/// what went on inside.
#[derive(Debug, Clone, Copy, PartialEq, Eq, Structural)]
pub enum ClientError {
    Unauthorized,
    Invalid,
    Internal,
}

impl ConnectionError {
    /// What the client is told of this failure.
    pub open spec fn client_error(self) -> ClientError {
        match self {
            ConnectionError::AuthenticationFailure(_) => ClientError::Unauthorized,
            ConnectionError::AuthorizationFailure => ClientError::Unauthorized,
            ConnectionError::WrongState => ClientError::Invalid,
            ConnectionError::InvalidMessage => ClientError::Invalid,
            ConnectionError::StorageError => ClientError::Internal,
            ConnectionError::SubscriberOverrun => ClientError::Internal,
        }
    }

    /// What the client is told of this failure.
    pub fn to_client(&self) -> (told: ClientError)
        ensures
            told == self.client_error(),
    {
        match self {
            ConnectionError::AuthenticationFailure(_) => ClientError::Unauthorized,
            ConnectionError::AuthorizationFailure => ClientError::Unauthorized,
            ConnectionError::WrongState => ClientError::Invalid,
            ConnectionError::InvalidMessage => ClientError::Invalid,
            ConnectionError::StorageError => ClientError::Internal,
            ConnectionError::SubscriberOverrun => ClientError::Internal,
        }
    }
}

/// The payloads that replay a history: each message with its attachment
/// reference resolved against `uploads`, in the order of the history.
pub open spec fn replay_of(
    history: Seq<MessageView>,
    uploads: Seq<UploadView>,
) -> Seq<EchoedMessageView> {
    history.map_values(|m: MessageView| echo(m, attachment_of(m, reference_key(m), uploads)))
}

/// The payloads for `messages`, in their order.
pub fn echo_all(
    messages: Vec<Message>,
    uploads: &UploadRepository,
) -> (payloads: Vec<EchoedMessage>)
    requires
        uploads.wf(),
    ensures
        echoed_views(payloads@) == replay_of(message_views(messages@), uploads@),
{
    let mut payloads: Vec<EchoedMessage> = Vec::new();
    let mut index: usize = 0;
    while index < messages.len()
        invariant
            uploads.wf(),
            index <= messages.len(),
            echoed_views(payloads@) == replay_of(
                message_views(messages@).take(index as int),
                uploads@,
            ),
        decreases messages.len() - index,
    {
        let ghost before = payloads@;
        let payload = messages[index].clone().to_echoed_message(uploads);
        payloads.push(payload);
        proof {
            assert(echoed_views(payloads@) =~= echoed_views(before).push(payload@));
            assert(replay_of(message_views(messages@).take(index as int + 1), uploads@)
                =~= replay_of(message_views(messages@).take(index as int), uploads@).push(
                payload@,
            ));
        }
        index = index + 1;
    }
    proof {
        assert(message_views(messages@).take(index as int) =~= message_views(messages@));
    }
    payloads
}

/// The record that the log keeps of a payload, given the payload that was
/// published for it: the same message, with the attachment named by the
/// canonical text of its key.
pub open spec fn stored_record(
    payload: EchoedMessageView,
    incoming: IncomingMessageView,
    key: Option<u128>,
) -> MessageView {
    MessageView {
        id: payload.id,
        sender: payload.sender,
        room_id: payload.room_id,
        text: payload.text,
        sent_at: payload.sent_at,
        file_upload_uuid: match incoming.attachment_key {
            Some(_) => Some(uuid_text(key->Some_0)),
            None => None,
        },
    }
}

/// The payload that is published for an acceptable incoming payload which
/// the log took at `sent_at` under the identifier `id`, when `key` is what
/// its attachment key reads as.
pub open spec fn inbound_payload(
    incoming: IncomingMessageView,
    key: Option<u128>,
    id: int,
    sender: Seq<char>,
    sent_at: i64,
    uploads: Seq<UploadView>,
) -> EchoedMessageView {
    let upload = match incoming.attachment_key {
        Some(_) => resolve(uploads, uuid_text(key->Some_0)),
        None => None,
    };
    EchoedMessageView {
        id,
        sender,
        room_id: incoming.room_id,
        text: incoming.text,
        sent_at: sent_at as int,
        upload_filename: match upload {
            Some(found) => Some(found.filename),
            None => None,
        },
        upload_url: match upload {
            Some(found) => Some(found.uuid),
            None => None,
        },
        upload_missing: false,
    }
}

/// Whether a connection in `state` takes a payload: only a live one does,
/// only a payload that is acceptable, and only while the log, whose next
/// identifier is `next_id`, has an identifier left.
pub open spec fn inbound_verdict(
    state: ConnectionState,
    acceptable: bool,
    next_id: int,
) -> Result<(), ConnectionError> {
    if state != ConnectionState::Live {
        Err(ConnectionError::WrongState)
    } else if !acceptable {
        Err(ConnectionError::InvalidMessage)
    } else if next_id == i64::MAX {
        Err(ConnectionError::StorageError)
    } else {
        Ok(())
    }
}

/// The relation between a call of [`Connection::publish_inbound_at`] and
/// its outcome: what is returned, and what the log and the hub hold
/// afterwards. Accounts, uploads, memberships and rooms are never touched.
pub open spec fn inbound_outcome(
    connection: Connection,
    before: SharedState,
    incoming: IncomingMessageView,
    key: Option<u128>,
    sent_at: i64,
    outcome: Result<EchoedMessage, ConnectionError>,
    after: SharedState,
) -> bool {
    let log = before.repository.rooms.log;
    let uploads = before.repository.uploads@;
    let room = connection.room_id() as int;
    let verdict = inbound_verdict(
        connection.state(),
        incoming.acceptable(room, key, uploads),
        log.next_id(),
    );
    &&& after.repository.accounts == before.repository.accounts
    &&& after.repository.uploads == before.repository.uploads
    &&& after.repository.rooms.members == before.repository.rooms.members
    &&& after.repository.rooms.directory == before.repository.rooms.directory
    &&& match outcome {
        Ok(payload) => {
            &&& verdict is Ok
            &&& payload@ == inbound_payload(
                incoming,
                key,
                log.next_id(),
                connection.username()->Some_0,
                sent_at,
                uploads,
            )
            &&& after.repository.rooms.log@ == log@.push(stored_record(payload@, incoming, key))
            &&& replay_of(seq![stored_record(payload@, incoming, key)], uploads) == seq![payload@]
            &&& after.repository.rooms.log.next_id() == log.next_id() + 1
            &&& after.hub@ == before.hub@.publish(room, payload@)
        },
        Err(error) => {
            &&& verdict == Err::<(), ConnectionError>(error)
            &&& after.repository.rooms.log@ == log@
            &&& after.repository.rooms.log.next_id() == log.next_id()
            &&& after.hub@ == before.hub@
        },
    }
}

/// One live connection to a room, from the handshake to its end.
///
/// The history is fetched and sent before the connection subscribes, so a
/// message appended in between is neither in the replay nor in the live
/// stream of this connection: the client finds it in the history the next
/// time it attaches.
#[derive(Debug)]
pub struct Connection {
    state: ConnectionState,
    room_id: i64,
    account: Option<AuthorizedAccount>,
    subscription: Option<Subscription>,
}

impl Connection {
    /// The state the connection is in.
    pub closed spec fn spec_state(&self) -> ConnectionState {
        self.state
    }

    /// The room the connection asked for.
    pub closed spec fn spec_room_id(&self) -> i64 {
        self.room_id
    }

    /// The name of the account that was authorized, once it was.
    pub closed spec fn username(&self) -> Option<Seq<char>> {
        match self.account {
            Some(account) => Some(account.username@),
            None => None,
        }
    }

    /// The receiving end of the connection in the hub, once it is live.
    pub closed spec fn spec_subscription(&self) -> Option<Subscription> {
        self.subscription
    }

    /// The invariant of a connection: it has an account from the replay on,
    /// and a receiving end for its room exactly while it is live.
    pub open spec fn wf(&self) -> bool {
        &&& self.spec_state() == ConnectionState::Replaying ==> self.username() is Some
        &&& self.spec_state() == ConnectionState::Live ==> self.username() is Some
        &&& self.spec_state() == ConnectionState::Live <==> self.spec_subscription() is Some
        &&& self.spec_subscription() is Some ==> self.spec_subscription()->Some_0.room_id
            == self.spec_room_id()
    }

    /// A connection to `room_id` whose handshake is still under way.
    pub fn new(room_id: i64) -> (connection: Self)
        ensures
            connection.wf(),
            connection.spec_state() == ConnectionState::Connecting,
            connection.spec_room_id() == room_id,
            connection.username() is None,
            connection.spec_subscription() is None,
    {
        Connection {
            state: ConnectionState::Connecting,
            room_id,
            account: None,
            subscription: None,
        }
    }

    /// The state the connection is in.
    #[verifier::when_used_as_spec(spec_state)]
    pub fn state(&self) -> (state: ConnectionState)
        ensures
            state == self.spec_state(),
    {
        self.state
    }

    /// The room the connection asked for.
    #[verifier::when_used_as_spec(spec_room_id)]
    pub fn room_id(&self) -> (room_id: i64)
        ensures
            room_id == self.spec_room_id(),
    {
        self.room_id
    }

    /// The receiving end of the connection in the hub, while it is live.
    #[verifier::when_used_as_spec(spec_subscription)]
    pub fn subscription(&self) -> (subscription: Option<Subscription>)
        ensures
            subscription == self.spec_subscription(),
    {
        self.subscription
    }

    /// The handshake was accepted: the connection goes on to authorize.
    pub fn accept(&mut self) -> (outcome: Result<(), ConnectionError>)
        requires
            old(self).wf(),
        ensures
            final(self).wf(),
            final(self).room_id() == old(self).room_id(),
            final(self).username() == old(self).username(),
            final(self).subscription() == old(self).subscription(),
            match outcome {
                Ok(()) => old(self).state() == ConnectionState::Connecting && final(self).state()
                    == ConnectionState::Authorizing,
                Err(error) => error == ConnectionError::WrongState && old(self).state()
                    != ConnectionState::Connecting && final(self).state() == old(self).state(),
            },
    {
        match self.state {
            ConnectionState::Connecting => {
                self.state = ConnectionState::Authorizing;
                Ok(())
            },
            _ => Err(ConnectionError::WrongState),
        }
    }

    /// Lets in an account whose session was found valid already: it has to
    /// be a member of the room. On success the connection goes on to
    /// replay; otherwise it is closed. The shared state is only read.
    pub fn let_in(
        &mut self,
        shared: &SharedState,
        account: AuthorizedAccount,
    ) -> (outcome: Result<(), ConnectionError>)
        requires
            old(self).wf(),
        ensures
            final(self).wf(),
            final(self).room_id() == old(self).room_id(),
            final(self).subscription() == old(self).subscription(),
            ({
                let member = shared.repository.rooms.members@.contains(
                    (old(self).room_id() as int, account@.username),
                );
                match outcome {
                    Ok(()) => {
                        &&& old(self).state() == ConnectionState::Authorizing
                        &&& member
                        &&& final(self).state() == ConnectionState::Replaying
                        &&& final(self).username() == Some(account@.username)
                    },
                    Err(error) => {
                        &&& error == if old(self).state() != ConnectionState::Authorizing {
                            ConnectionError::WrongState
                        } else {
                            ConnectionError::AuthorizationFailure
                        }
                        &&& old(self).state() == ConnectionState::Authorizing ==> !member
                            && final(self).state() == ConnectionState::Closed
                        &&& old(self).state() != ConnectionState::Authorizing ==> {
                            &&& final(self).state() == old(self).state()
                            &&& final(self).username() == old(self).username()
                        }
                    },
                }
            }),
    {
        match self.state {
            ConnectionState::Authorizing => {},
            _ => {
                return Err(ConnectionError::WrongState);
            },
        }
        match authorize_room(&account, self.room_id, &shared.repository.rooms) {
            Err(_) => {
                self.state = ConnectionState::Closed;
                Err(ConnectionError::AuthorizationFailure)
            },
            Ok(()) => {
                self.account = Some(account);
                self.state = ConnectionState::Replaying;
                Ok(())
            },
        }
    }

    /// Authorizes the connection: the token has to stand for a valid
    /// session, and the account of that session has to be a member of the
    /// room. On success the connection goes on to replay; on a rejection it
    /// is closed. The shared state is only read.
    pub fn authorize(
        &mut self,
        shared: &SharedState,
        token: Option<&str>,
    ) -> (outcome: Result<(), ConnectionError>)
        requires
            old(self).wf(),
            shared.wf(),
        ensures
            final(self).wf(),
            final(self).room_id() == old(self).room_id(),
            final(self).subscription() == old(self).subscription(),
            ({
                let answer = verdict(
                    token is Some,
                    token_key(str_of(token)),
                    shared.repository.accounts.accounts(),
                    shared.repository.accounts.sessions(),
                );
                let room = old(self).room_id() as int;
                match outcome {
                    Ok(()) => {
                        &&& old(self).state() == ConnectionState::Authorizing
                        &&& answer is Ok
                        &&& shared.repository.rooms.members@.contains(
                            (room, answer->Ok_0.username),
                        )
                        &&& final(self).state() == ConnectionState::Replaying
                        &&& final(self).username() == Some(answer->Ok_0.username)
                    },
                    Err(ConnectionError::WrongState) => {
                        &&& old(self).state() != ConnectionState::Authorizing
                        &&& final(self).state() == old(self).state()
                        &&& final(self).username() == old(self).username()
                    },
                    Err(ConnectionError::AuthenticationFailure(cause)) => {
                        &&& old(self).state() == ConnectionState::Authorizing
                        &&& answer == Err::<crate::auth::AuthorizedAccountView, RejectionCause>(
                            cause,
                        )
                        &&& final(self).state() == ConnectionState::Closed
                    },
                    Err(ConnectionError::AuthorizationFailure) => {
                        &&& old(self).state() == ConnectionState::Authorizing
                        &&& answer is Ok
                        &&& !shared.repository.rooms.members@.contains(
                            (room, answer->Ok_0.username),
                        )
                        &&& final(self).state() == ConnectionState::Closed
                    },
                    Err(_) => false,
                }
            }),
    {
        match self.state {
            ConnectionState::Authorizing => {},
            _ => {
                return Err(ConnectionError::WrongState);
            },
        }
        let account = match authenticate(token, &shared.repository.accounts) {
            Err(cause) => {
                self.state = ConnectionState::Closed;
                return Err(ConnectionError::AuthenticationFailure(cause));
            },
            Ok(account) => account,
        };
        self.let_in(shared, account)
    }

    /// The replay for the connection: the most recent `limit` messages of
    /// its room as payloads, oldest first. The connection stays as it is.
    pub fn replay(
        &self,
        shared: &SharedState,
        limit: usize,
    ) -> (outcome: Result<Vec<EchoedMessage>, ConnectionError>)
        requires
            self.wf(),
            shared.wf(),
        ensures
            match outcome {
                Ok(payloads) => {
                    &&& self.state() == ConnectionState::Replaying
                    &&& echoed_views(payloads@) == replay_of(
                        history_of(
                            shared.repository.rooms.log@,
                            self.room_id() as int,
                            limit as nat,
                        ),
                        shared.repository.uploads@,
                    )
                },
                Err(error) => error == ConnectionError::WrongState && self.state()
                    != ConnectionState::Replaying,
            },
    {
        match self.state {
            ConnectionState::Replaying => {},
            _ => {
                return Err(ConnectionError::WrongState);
            },
        }
        let history = shared.repository.rooms.log.history(self.room_id, limit);
        Ok(echo_all(history, &shared.repository.uploads))
    }

    /// The replay was sent: the connection subscribes to its room and is
    /// live. Only a hub that has given out its last identifier refuses, and
    /// then the connection is closed. The stores are not touched.
    pub fn go_live(
        &mut self,
        shared: &mut SharedState,
    ) -> (outcome: Result<Subscription, ConnectionError>)
        requires
            old(self).wf(),
            old(shared).wf(),
        ensures
            final(self).wf(),
            final(shared).wf(),
            final(shared).repository == old(shared).repository,
            final(self).room_id() == old(self).room_id(),
            final(self).username() == old(self).username(),
            match outcome {
                Ok(handle) => {
                    &&& old(self).state() == ConnectionState::Replaying
                    &&& old(shared).hub@.next_id < u64::MAX
                    &&& handle.id == old(shared).hub@.next_id
                    &&& handle.room_id == old(self).room_id()
                    &&& final(shared).hub@ == old(shared).hub@.subscribe(
                        old(self).room_id() as int,
                    )
                    &&& final(self).state() == ConnectionState::Live
                    &&& final(self).subscription() == Some(handle)
                },
                Err(ConnectionError::WrongState) => {
                    &&& old(self).state() != ConnectionState::Replaying
                    &&& final(self).state() == old(self).state()
                    &&& final(self).subscription() == old(self).subscription()
                    &&& final(shared).hub@ == old(shared).hub@
                },
                Err(ConnectionError::StorageError) => {
                    &&& old(self).state() == ConnectionState::Replaying
                    &&& old(shared).hub@.next_id == u64::MAX
                    &&& final(self).state() == ConnectionState::Closed
                    &&& final(shared).hub@ == old(shared).hub@
                },
                Err(_) => false,
            },
    {
        match self.state {
            ConnectionState::Replaying => {},
            _ => {
                return Err(ConnectionError::WrongState);
            },
        }
        match shared.hub.subscribe(self.room_id) {
            None => {
                self.state = ConnectionState::Closed;
                Err(ConnectionError::StorageError)
            },
            Some(handle) => {
                self.subscription = Some(handle);
                self.state = ConnectionState::Live;
                proof {
                    let log = shared.repository.rooms.log@;
                    let uploads = shared.repository.uploads@;
                    let empty = Seq::<EchoedMessageView>::empty();
                    let whole = replay_of(room_messages(log, self.room_id as int), uploads);
                    assert(empty =~= whole.skip(whole.len() - 0));
                    assert forall|id: nat| #[trigger]
                        shared.hub@.channels.contains_key(id) implies is_tail(
                        shared.hub@.channels[id].pending,
                        replay_of(
                            room_messages(log, shared.hub@.channels[id].room_id),
                            uploads,
                        ),
                    ) by {
                        if id != handle.id as nat {
                            assert(old(shared).hub@.channels.contains_key(id));
                        }
                    }
                }
                Ok(handle)
            },
        }
    }

    /// The next message that the hub holds for the connection, if one
    /// waits. Whatever is delivered is the payload of a message that the log
    /// of the room holds. A connection that the hub dropped finds out here,
    /// and is closed.
    pub fn next_delivery(
        &mut self,
        shared: &mut SharedState,
    ) -> (outcome: Result<Option<EchoedMessage>, ConnectionError>)
        requires
            old(self).wf(),
            old(shared).wf(),
        ensures
            final(self).wf(),
            final(shared).wf(),
            final(shared).repository == old(shared).repository,
            final(self).room_id() == old(self).room_id(),
            final(self).username() == old(self).username(),
            ({
                let hub = old(shared).hub@;
                match outcome {
                    Ok(Some(message)) => {
                        &&& old(self).state() == ConnectionState::Live
                        &&& hub.channels.contains_key(old(self).subscription()->Some_0.id as nat)
                        &&& hub.channels[old(self).subscription()->Some_0.id as nat].pending.len()
                            > 0
                        &&& message@
                            == hub.channels[old(self).subscription()->Some_0.id as nat].pending[0]
                        &&& final(shared).hub@ == hub.receive(
                            old(self).subscription()->Some_0.id as nat,
                        )
                        &&& replay_of(
                            room_messages(
                                old(shared).repository.rooms.log@,
                                hub.channels[old(self).subscription()->Some_0.id as nat].room_id,
                            ),
                            old(shared).repository.uploads@,
                        ).contains(message@)
                        &&& final(self).state() == ConnectionState::Live
                        &&& final(self).subscription() == old(self).subscription()
                    },
                    Ok(None) => {
                        &&& old(self).state() == ConnectionState::Live
                        &&& hub.channels.contains_key(old(self).subscription()->Some_0.id as nat)
                        &&& hub.channels[old(self).subscription()->Some_0.id as nat].pending.len()
                            == 0
                        &&& final(shared).hub@ == hub
                        &&& final(self).state() == ConnectionState::Live
                        &&& final(self).subscription() == old(self).subscription()
                    },
                    Err(ConnectionError::SubscriberOverrun) => {
                        &&& old(self).state() == ConnectionState::Live
                        &&& !hub.channels.contains_key(old(self).subscription()->Some_0.id as nat)
                        &&& final(shared).hub@ == hub
                        &&& final(self).state() == ConnectionState::Closed
                    },
                    Err(ConnectionError::WrongState) => {
                        &&& old(self).state() != ConnectionState::Live
                        &&& final(shared).hub@ == hub
                        &&& final(self).state() == old(self).state()
                        &&& final(self).subscription() == old(self).subscription()
                    },
                    Err(_) => false,
                }
            }),
    {
        let handle = match self.subscription {
            None => {
                return Err(ConnectionError::WrongState);
            },
            Some(handle) => handle,
        };
        match shared.hub.receive(handle.id) {
            Delivery::Message(message) => {
                proof {
                    let log = shared.repository.rooms.log@;
                    let uploads = shared.repository.uploads@;
                    let before = old(shared).hub@;
                    let taker = handle.id as nat;
                    let whole = replay_of(
                        room_messages(log, before.channels[taker].room_id),
                        uploads,
                    );
                    lemma_tail_drop_first(before.channels[taker].pending, whole);
                    assert(before.channels[taker].pending[0] == whole[whole.len()
                        - before.channels[taker].pending.len()]);
                    assert forall|id: nat| #[trigger]
                        shared.hub@.channels.contains_key(id) implies is_tail(
                        shared.hub@.channels[id].pending,
                        replay_of(
                            room_messages(log, shared.hub@.channels[id].room_id),
                            uploads,
                        ),
                    ) by {
                        assert(before.channels.contains_key(id));
                    }
                }
                Ok(Some(message))
            },
            Delivery::Empty => Ok(None),
            Delivery::Closed => {
                self.subscription = None;
                self.state = ConnectionState::Closed;
                Err(ConnectionError::SubscriberOverrun)
            },
        }
    }

    /// Whether the connection would take `incoming` now, when `key` is
    /// what its attachment key reads as: the connection is live, the payload
    /// is acceptable, and the log has an identifier left. Nothing is changed
    /// by asking.
    pub fn check_inbound(
        &self,
        shared: &SharedState,
        incoming: &IncomingMessage,
        key: Option<u128>,
    ) -> (outcome: Result<(), ConnectionError>)
        requires
            self.wf(),
            shared.wf(),
        ensures
            outcome == inbound_verdict(
                self.state(),
                incoming@.acceptable(self.room_id() as int, key, shared.repository.uploads@),
                shared.repository.rooms.log.next_id(),
            ),
    {
        match self.state {
            ConnectionState::Live => {},
            _ => {
                return Err(ConnectionError::WrongState);
            },
        }
        if incoming.room_id != self.room_id {
            return Err(ConnectionError::InvalidMessage);
        }
        match incoming.classify() {
            InboundKind::Invalid => {
                return Err(ConnectionError::InvalidMessage);
            },
            InboundKind::Text => {},
            InboundKind::Attachment | InboundKind::TextWithAttachment => {
                let uuid = match key {
                    None => {
                        return Err(ConnectionError::InvalidMessage);
                    },
                    Some(uuid) => uuid,
                };
                if shared.repository.uploads.find(uuid).is_none() {
                    return Err(ConnectionError::InvalidMessage);
                }
            },
        }
        if shared.repository.rooms.log.peek_id() == i64::MAX {
            return Err(ConnectionError::StorageError);
        }
        Ok(())
    }

    /// Takes a payload that came from the client at the time `sent_at`,
    /// when `key` is what its attachment key reads as: appends it to the log
    /// of the room under the name of the connection's account, then
    /// publishes the stored record, with its attachment resolved, to the
    /// room. It is taken exactly when [`Connection::check_inbound`] says so;
    /// otherwise nothing is appended and nothing published. The connection
    /// stays as it is either way. What is published is what a replay of the
    /// stored record gives.
    pub fn publish_inbound_at(
        &self,
        shared: &mut SharedState,
        incoming: IncomingMessage,
        key: Option<u128>,
        sent_at: i64,
    ) -> (outcome: Result<EchoedMessage, ConnectionError>)
        requires
            self.wf(),
            old(shared).wf(),
        ensures
            final(shared).wf(),
            inbound_outcome(*self, *old(shared), incoming@, key, sent_at, outcome, *final(shared)),
    {
        match self.check_inbound(shared, &incoming, key) {
            Err(error) => {
                return Err(error);
            },
            Ok(()) => {},
        }
        let file: Option<u128> = if incoming.attachment_key.is_some() {
            key
        } else {
            None
        };
        let reference: Option<String> = match file {
            Some(uuid) => Some(uuid_to_string(uuid)),
            None => None,
        };
        let sender = match &self.account {
            Some(account) => account.username.as_str(),
            None => "",
        };
        let appended = shared.repository.rooms.log.append_at(
            self.room_id,
            sender,
            incoming.text,
            reference,
            sent_at,
        );
        let message = match appended {
            Err(_) => {
                return Err(ConnectionError::StorageError);
            },
            Ok(message) => message,
        };
        let ghost record = message@;
        let payload = message.echo_with_key(file, &shared.repository.uploads);
        shared.hub.publish(self.room_id, &payload);
        proof {
            let log = old(shared).repository.rooms.log@;
            let uploads = old(shared).repository.uploads@;
            assert(record == stored_record(payload@, incoming@, key));
            assert(reference_key(record) == file);
            assert(replay_of(seq![record], uploads) =~= seq![payload@]);
            lemma_publish_keeps_hub_in_step(old(shared).hub@, log, record, payload@, uploads);
            assert(references_resolve(log.push(record), uploads)) by {
                assert forall|i: int|
                    0 <= i < log.push(record).len() && (#[trigger] log.push(
                        record,
                    )[i]).file_upload_uuid is Some implies {
                    &&& reference_key(log.push(record)[i]) is Some
                    &&& has_key(uploads, uuid_text(reference_key(log.push(record)[i])->Some_0))
                } by {
                    if i < log.len() {
                        assert(log.push(record)[i] == log[i]);
                    }
                }
            }
        }
        Ok(payload)
    }

    /// Takes a payload from the client: reads its attachment key, if it has
    /// one, and goes on as [`Connection::publish_inbound_at`] does at the
    /// current time.
    pub fn publish_inbound(
        &self,
        shared: &mut SharedState,
        incoming: IncomingMessage,
    ) -> (outcome: Result<EchoedMessage, ConnectionError>)
        requires
            self.wf(),
            old(shared).wf(),
        ensures
            final(shared).wf(),
            exists|sent_at: i64|
                inbound_outcome(
                    *self,
                    *old(shared),
                    incoming@,
                    incoming@.key(),
                    sent_at,
                    outcome,
                    *final(shared),
                ),
    {
        let key = incoming.read_key();
        let sent_at = unix_now();
        self.publish_inbound_at(shared, incoming, key, sent_at)
    }

    /// Closes the connection from whatever state it is in, and releases its
    /// subscription if it has one. Closing twice changes nothing more.
    pub fn close(&mut self, shared: &mut SharedState)
        requires
            old(self).wf(),
            old(shared).wf(),
        ensures
            final(self).wf(),
            final(shared).wf(),
            final(shared).repository == old(shared).repository,
            final(self).room_id() == old(self).room_id(),
            final(self).state() == ConnectionState::Closed,
            final(self).subscription() is None,
            final(shared).hub@ == match old(self).subscription() {
                Some(handle) => old(shared).hub@.unsubscribe(handle.id as nat),
                None => old(shared).hub@,
            },
    {
        match self.subscription {
            Some(handle) => {
                shared.hub.unsubscribe(handle.id);
            },
            None => {},
        }
        self.subscription = None;
        self.state = ConnectionState::Closed;
    }
}

/// The title of the pages of the service.
pub const TITLE: &'static str = "os3_chat";

/// What the page of a room shows.
#[derive(Debug)]
pub struct ChatTemplate {
    pub title: String,
    pub logged_in_as: String,
    pub room_name: String,
    pub room_id: i64,
    pub initial_messages: Vec<EchoedMessage>,
}

/// The page of `room_id` for `account`: the name of the room and, for a
/// member, the most recent `limit` messages as payloads, oldest first. An
/// account that is no member gets the page without messages; a room that
/// does not exist is not found.
pub fn page(
    shared: &SharedState,
    account: &AuthorizedAccount,
    room_id: i64,
    limit: usize,
) -> (outcome: Result<ChatTemplate, Status>)
    requires
        shared.wf(),
    ensures
        ({
            let rooms = shared.repository.rooms;
            let room = room_with(rooms.directory@, room_id as int);
            match outcome {
                Ok(template) => {
                    &&& room is Some
                    &&& template.title@ == TITLE@
                    &&& template.logged_in_as@ == account@.username
                    &&& template.room_name@ == room->Some_0.name
                    &&& template.room_id == room_id
                    &&& echoed_views(template.initial_messages@) == if rooms.members@.contains(
                        (room_id as int, account@.username),
                    ) {
                        replay_of(
                            history_of(rooms.log@, room_id as int, limit as nat),
                            shared.repository.uploads@,
                        )
                    } else {
                        Seq::empty()
                    }
                },
                Err(status) => status == Status::NotFound && room is None,
            }
        }),
{
    let room = match shared.repository.rooms.find_by_id(room_id) {
        None => {
            return Err(Status::NotFound);
        },
        Some(room) => room,
    };
    let initial_messages = if authorize_room(account, room_id, &shared.repository.rooms).is_ok() {
        let history = shared.repository.rooms.log.history(room_id, limit);
        echo_all(history, &shared.repository.uploads)
    } else {
        let none: Vec<EchoedMessage> = Vec::new();
        proof {
            assert(echoed_views(none@) =~= Seq::<EchoedMessageView>::empty());
        }
        none
    };
    Ok(
        ChatTemplate {
            title: String::from_str(TITLE),
            logged_in_as: account.username.clone(),
            room_name: room.name,
            room_id,
            initial_messages,
        },
    )
}

/// Opens the connection of `account` to `room_id`, up to the point where
/// its replay can be fetched: the room has to exist and the account has to
/// be a member of it. Nothing is changed by asking.
pub fn websocket(
    shared: &SharedState,
    account: AuthorizedAccount,
    room_id: i64,
) -> (outcome: Result<Connection, Status>)
    requires
        shared.wf(),
    ensures
        ({
            let rooms = shared.repository.rooms;
            let found = room_with(rooms.directory@, room_id as int) is Some;
            let member = rooms.members@.contains((room_id as int, account@.username));
            match outcome {
                Ok(connection) => {
                    &&& found
                    &&& member
                    &&& connection.wf()
                    &&& connection.state() == ConnectionState::Replaying
                    &&& connection.room_id() == room_id
                    &&& connection.username() == Some(account@.username)
                    &&& connection.subscription() is None
                },
                Err(status) => status == if !found {
                    Status::NotFound
                } else {
                    Status::Unauthorized
                } && (found ==> !member),
            }
        }),
{
    if shared.repository.rooms.find_by_id(room_id).is_none() {
        return Err(Status::NotFound);
    }
    let mut connection = Connection::new(room_id);
    let _ = connection.accept();
    match connection.let_in(shared, account) {
        Ok(()) => Ok(connection),
        Err(_) => Err(Status::Unauthorized),
    }
}

} // verus!
