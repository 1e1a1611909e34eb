//! The room broadcast hub: one publish point per room, any number of
//! subscribers, each with a bounded queue of its own.
//!
//! A subscriber whose queue is full when a message is published to its room
//! is detached, queue and all; it finds out at its next `receive` and catches
//! up from the message log when it attaches again. The hub holds nothing that
//! has to survive it: it is never the source of truth for what was said.

use vstd::prelude::*;
use crate::endpoints::chat::{EchoedMessage, EchoedMessageView, echoed_views};

verus! {

/// One subscriber as the hub's model sees it: the room it listens to and
/// the messages that wait for it, oldest first.
pub struct ChannelView {
    pub room_id: int,
    pub pending: Seq<EchoedMessageView>,
}

/// The model of the hub: the bound on every queue, the identifier that the
/// next subscriber gets, and the channel of each attached subscriber.
pub struct HubView {
    pub capacity: nat,
    pub next_id: nat,
    pub channels: Map<nat, ChannelView>,
}

impl HubView {
    /// Every attached subscriber got its identifier from this hub and has
    /// no more messages waiting than the bound allows.
    pub open spec fn wf(self) -> bool {
        forall|id: nat| #[trigger]
            self.channels.contains_key(id) ==> id < self.next_id
                && self.channels[id].pending.len() <= self.capacity
    }

    /// `id` is attached and listens to `room_id`.
    pub open spec fn attached(self, id: nat, room_id: int) -> bool {
        self.channels.contains_key(id) && self.channels[id].room_id == room_id
    }

    /// `id` listens to `room_id` and has no room left for another message.
    pub open spec fn overrun(self, id: nat, room_id: int) -> bool {
        self.attached(id, room_id) && self.channels[id].pending.len() >= self.capacity
    }

    /// The room has at least one subscriber.
    pub open spec fn active(self, room_id: int) -> bool {
        exists|id: nat| self.attached(id, room_id)
    }

    /// The hub after a new subscriber attached to `room_id`.
    pub open spec fn subscribe(self, room_id: int) -> HubView {
        HubView {
            capacity: self.capacity,
            next_id: self.next_id + 1,
            channels: self.channels.insert(
                self.next_id,
                ChannelView { room_id, pending: Seq::empty() },
            ),
        }
    }

    /// The hub after `message` was published to `room_id`: subscribers of
    /// the room with a full queue are gone, the others of the room have the
    /// message at the end of their queue, and other rooms are untouched.
    pub open spec fn publish(self, room_id: int, message: EchoedMessageView) -> HubView {
        HubView {
            capacity: self.capacity,
            next_id: self.next_id,
            channels: Map::new(
                |id: nat| self.channels.contains_key(id) && !self.overrun(id, room_id),
                |id: nat|
                    if self.channels[id].room_id == room_id {
                        ChannelView { room_id, pending: self.channels[id].pending.push(message) }
                    } else {
                        self.channels[id]
                    },
            ),
        }
    }

    /// The hub after subscriber `id` took the oldest message that waited
    /// for it, if there was one.
    pub open spec fn receive(self, id: nat) -> HubView {
        if self.channels.contains_key(id) && self.channels[id].pending.len() > 0 {
            HubView {
                capacity: self.capacity,
                next_id: self.next_id,
                channels: self.channels.insert(
                    id,
                    ChannelView {
                        room_id: self.channels[id].room_id,
                        pending: self.channels[id].pending.drop_first(),
                    },
                ),
            }
        } else {
            self
        }
    }

    /// The hub after subscriber `id` detached.
    pub open spec fn unsubscribe(self, id: nat) -> HubView {
        HubView {
            capacity: self.capacity,
            next_id: self.next_id,
            channels: self.channels.remove(id),
        }
    }
}

/// One operation on the hub.
pub enum HubOp {
    Subscribe { room_id: int },
    Publish { room_id: int, message: EchoedMessageView },
    Receive { id: nat },
    Unsubscribe { id: nat },
}

impl HubView {
    /// The hub after one operation.
    pub open spec fn step(self, op: HubOp) -> HubView {
        match op {
            HubOp::Subscribe { room_id } => self.subscribe(room_id),
            HubOp::Publish { room_id, message } => self.publish(room_id, message),
            HubOp::Receive { id } => self.receive(id),
            HubOp::Unsubscribe { id } => self.unsubscribe(id),
        }
    }

    /// The hub after a run of operations, first to last.
    pub open spec fn run(self, ops: Seq<HubOp>) -> HubView
        decreases ops.len(),
    {
        if ops.len() == 0 {
            self
        } else {
            self.run(ops.drop_last()).step(ops.last())
        }
    }

    /// The messages that subscriber `id` took by its `Receive` operations
    /// during a run, in the order in which it took them.
    pub open spec fn delivered(self, ops: Seq<HubOp>, id: nat) -> Seq<EchoedMessageView>
        decreases ops.len(),
    {
        if ops.len() == 0 {
            Seq::empty()
        } else {
            let earlier = self.delivered(ops.drop_last(), id);
            let state = self.run(ops.drop_last());
            if ops.last() == (HubOp::Receive { id }) && state.channels.contains_key(id)
                && state.channels[id].pending.len() > 0 {
                earlier.push(state.channels[id].pending[0])
            } else {
                earlier
            }
        }
    }
}

/// The messages that a run of operations publishes to `room_id`, in the
/// order of publication.
pub open spec fn published(ops: Seq<HubOp>, room_id: int) -> Seq<EchoedMessageView>
    decreases ops.len(),
{
    if ops.len() == 0 {
        Seq::empty()
    } else {
        let earlier = published(ops.drop_last(), room_id);
        match ops.last() {
            HubOp::Publish { room_id: to, message } => if to == room_id {
                earlier.push(message)
            } else {
                earlier
            },
            _ => earlier,
        }
    }
}

/// A run of operations keeps the hub's invariant and never takes an
/// identifier back.
pub proof fn lemma_run_keeps_invariant(hub: HubView, ops: Seq<HubOp>)
    requires
        hub.wf(),
    ensures
        hub.run(ops).wf(),
        hub.run(ops).next_id >= hub.next_id,
        hub.run(ops).capacity == hub.capacity,
    decreases ops.len(),
{
    if ops.len() > 0 {
        lemma_run_keeps_invariant(hub, ops.drop_last());
    }
}

/// Ordered delivery. A subscriber that is attached before a run of
/// operations and is still attached after it has seen, as what it took
/// followed by what still waits for it, exactly what waited at the start
/// followed by every message that the run published to its room, in the
/// order of publication: nothing lost, nothing twice, nothing out of order,
/// and nothing of another room.
pub proof fn lemma_attached_subscriber_sees_publishes_in_order(
    hub: HubView,
    ops: Seq<HubOp>,
    id: nat,
)
    requires
        hub.wf(),
        hub.channels.contains_key(id),
        hub.run(ops).channels.contains_key(id),
    ensures
        hub.run(ops).channels[id].room_id == hub.channels[id].room_id,
        hub.delivered(ops, id) + hub.run(ops).channels[id].pending == hub.channels[id].pending
            + published(ops, hub.channels[id].room_id),
    decreases ops.len(),
{
    let room_id = hub.channels[id].room_id;
    if ops.len() == 0 {
        assert(hub.delivered(ops, id) + hub.channels[id].pending =~= hub.channels[id].pending
            + published(ops, room_id));
    } else {
        let front = ops.drop_last();
        let state = hub.run(front);
        lemma_run_keeps_invariant(hub, front);
        assert(state.channels.contains_key(id)) by {
            if !state.channels.contains_key(id) {
                assert(id < hub.next_id);
                assert(state.step(ops.last()).channels.contains_key(id));
            }
        }
        lemma_attached_subscriber_sees_publishes_in_order(hub, front, id);
        let taken = hub.delivered(front, id);
        let waiting = state.channels[id].pending;
        let start = hub.channels[id].pending;
        let sent = published(front, room_id);
        assert(taken + waiting == start + sent);
        match ops.last() {
            HubOp::Subscribe { room_id: to } => {},
            HubOp::Publish { room_id: to, message } => {
                if to == room_id {
                    assert(taken + waiting.push(message) =~= (taken + waiting).push(message));
                    assert(start + sent.push(message) =~= (start + sent).push(message));
                }
            },
            HubOp::Receive { id: who } => {
                if who == id && waiting.len() > 0 {
                    assert(taken.push(waiting[0]) + waiting.drop_first() =~= taken + waiting);
                }
            },
            HubOp::Unsubscribe { id: who } => {},
        }
    }
}

/// The receiving end that a subscriber holds.
#[derive(Debug, Clone, Copy, PartialEq, Eq, Structural)]
pub struct Subscription {
    pub id: u64,
    pub room_id: i64,
}

/// What a subscriber finds when it asks for its next message.
#[derive(Debug)]
pub enum Delivery {
    /// The oldest message that waited.
    Message(EchoedMessage),
    /// Nothing waits; the subscriber is still attached.
    Empty,
    /// The subscriber is not attached: it detached, or it was dropped
    /// because it did not keep up.
    Closed,
}

/// The two states of a room in the hub.
#[derive(Debug, Clone, Copy, PartialEq, Eq, Structural)]
pub enum RoomState {
    /// No subscriber.
    Empty,
    /// At least one subscriber.
    Active,
}

#[derive(Debug)]
struct Subscriber {
    id: u64,
    room_id: i64,
    pending: Vec<EchoedMessage>,
}

spec fn channel_of(subscriber: Subscriber) -> ChannelView {
    ChannelView {
        room_id: subscriber.room_id as int,
        pending: echoed_views(subscriber.pending@),
    }
}

spec fn has_id(subscribers: Seq<Subscriber>, id: nat) -> bool {
    exists|i: int| 0 <= i < subscribers.len() && (#[trigger] subscribers[i]).id == id
}

spec fn index_of(subscribers: Seq<Subscriber>, id: nat) -> int {
    choose|i: int| 0 <= i < subscribers.len() && (#[trigger] subscribers[i]).id == id
}

spec fn distinct_ids(subscribers: Seq<Subscriber>) -> bool {
    forall|i: int, j: int|
        0 <= i < j < subscribers.len() ==> (#[trigger] subscribers[i]).id
            != (#[trigger] subscribers[j]).id
}

spec fn channels_of(subscribers: Seq<Subscriber>) -> Map<nat, ChannelView> {
    Map::new(
        |id: nat| has_id(subscribers, id),
        |id: nat| channel_of(subscribers[index_of(subscribers, id)]),
    )
}

/// With distinct identifiers, the channel map holds exactly the channels of
/// the subscribers in the list.
proof fn lemma_channels_pointwise(subscribers: Seq<Subscriber>)
    requires
        distinct_ids(subscribers),
    ensures
        forall|i: int|
            0 <= i < subscribers.len() ==> {
                &&& channels_of(subscribers).contains_key((#[trigger] subscribers[i]).id as nat)
                &&& channels_of(subscribers)[subscribers[i].id as nat] == channel_of(
                    subscribers[i],
                )
            },
        forall|id: nat| #[trigger]
            channels_of(subscribers).contains_key(id) ==> {
                &&& 0 <= index_of(subscribers, id) < subscribers.len()
                &&& subscribers[index_of(subscribers, id)].id == id
            },
{
    assert forall|i: int| 0 <= i < subscribers.len() implies {
        &&& channels_of(subscribers).contains_key((#[trigger] subscribers[i]).id as nat)
        &&& channels_of(subscribers)[subscribers[i].id as nat] == channel_of(subscribers[i])
    } by {
        let id = subscribers[i].id as nat;
        assert(has_id(subscribers, id));
        let k = index_of(subscribers, id);
        assert(0 <= k < subscribers.len() && subscribers[k].id == id);
        if k < i {
            assert(subscribers[k].id != subscribers[i].id);
        } else if i < k {
            assert(subscribers[i].id != subscribers[k].id);
        }
    }
}

/// A map that holds the channel of every subscriber in the list, and no
/// other, is the channel map of the list.
proof fn lemma_channels_are(subscribers: Seq<Subscriber>, target: Map<nat, ChannelView>)
    requires
        distinct_ids(subscribers),
        forall|i: int|
            0 <= i < subscribers.len() ==> {
                &&& target.contains_key((#[trigger] subscribers[i]).id as nat)
                &&& target[subscribers[i].id as nat] == channel_of(subscribers[i])
            },
        forall|id: nat| #[trigger] target.contains_key(id) ==> has_id(subscribers, id),
    ensures
        channels_of(subscribers) == target,
{
    lemma_channels_pointwise(subscribers);
    assert forall|id: nat| #[trigger]
        channels_of(subscribers).contains_key(id) implies target.contains_key(id)
        && target[id] == channels_of(subscribers)[id] by {
        let k = index_of(subscribers, id);
        assert(target.contains_key(subscribers[k].id as nat));
    }
    assert(channels_of(subscribers) =~= target);
}

/// The hub: the subscribers of all rooms and the bound on their queues.
#[derive(Debug)]
pub struct Hub {
    capacity: usize,
    subscribers: Vec<Subscriber>,
    next_id: u64,
}

impl View for Hub {
    type V = HubView;

    closed spec fn view(&self) -> HubView {
        HubView {
            capacity: self.capacity as nat,
            next_id: self.next_id as nat,
            channels: channels_of(self.subscribers@),
        }
    }
}

impl Hub {
    /// No two subscribers in the list share an identifier.
    pub closed spec fn inv(&self) -> bool {
        distinct_ids(self.subscribers@)
    }

    /// The invariant of the hub.
    pub open spec fn wf(&self) -> bool {
        &&& self.inv()
        &&& self@.wf()
        &&& self@.capacity <= usize::MAX
        &&& self@.next_id <= u64::MAX
    }

    /// A hub without subscribers whose queues hold up to `capacity` messages.
    pub fn new(capacity: usize) -> (hub: Self)
        ensures
            hub.wf(),
            hub@ == (HubView { capacity: capacity as nat, next_id: 1, channels: Map::empty() }),
    {
        let hub = Hub { capacity, subscribers: Vec::new(), next_id: 1 };
        proof {
            assert(channels_of(hub.subscribers@) =~= Map::<nat, ChannelView>::empty());
        }
        hub
    }

    /// The bound on every subscriber's queue.
    pub fn capacity(&self) -> (capacity: usize)
        ensures
            capacity == self@.capacity,
    {
        self.capacity
    }

    fn position(&self, id: u64) -> (found: Option<usize>)
        ensures
            match found {
                Some(index) => index < self.subscribers@.len() && self.subscribers@[index as int].id
                    == id,
                None => !has_id(self.subscribers@, id as nat),
            },
    {
        let mut index: usize = 0;
        while index < self.subscribers.len()
            invariant
                index <= self.subscribers.len(),
                forall|j: int| 0 <= j < index ==> (#[trigger] self.subscribers@[j]).id != id,
            decreases self.subscribers.len() - index,
        {
            if self.subscribers[index].id == id {
                return Some(index);
            }
            index = index + 1;
        }
        None
    }

    /// Attaches a new subscriber to `room_id` and hands out its receiving
    /// end. Only a hub that has given out its last identifier refuses.
    pub fn subscribe(&mut self, room_id: i64) -> (subscription: Option<Subscription>)
        requires
            old(self).wf(),
        ensures
            final(self).wf(),
            subscription is Some <==> old(self)@.next_id < u64::MAX,
            match subscription {
                Some(handle) => {
                    &&& handle.id == old(self)@.next_id
                    &&& handle.room_id == room_id
                    &&& final(self)@ == old(self)@.subscribe(room_id as int)
                },
                None => final(self)@ == old(self)@,
            },
    {
        if self.next_id == u64::MAX {
            return None;
        }
        let id = self.next_id;
        let subscriber = Subscriber { id, room_id, pending: Vec::new() };
        let ghost before = self.subscribers@;
        self.subscribers.push(subscriber);
        self.next_id = id + 1;
        proof {
            let after = self.subscribers@;
            lemma_channels_pointwise(before);
            assert(distinct_ids(after)) by {
                assert forall|i: int, j: int| 0 <= i < j < after.len() implies (
                #[trigger] after[i]).id != (#[trigger] after[j]).id by {
                    if j == before.len() {
                        assert(after[i] == before[i]);
                        assert(old(self)@.channels.contains_key(before[i].id as nat));
                        assert(before[i].id < id);
                        assert(after[j].id == id);
                    } else {
                        assert(after[i] == before[i]);
                        assert(after[j] == before[j]);
                        assert(before[i].id != before[j].id);
                    }
                }
            }
            lemma_channels_pointwise(after);
            assert(echoed_views(subscriber.pending@) =~= Seq::<EchoedMessageView>::empty());
            assert forall|key: nat| #[trigger]
                channels_of(after).contains_key(key) == old(self)@.subscribe(
                    room_id as int,
                ).channels.contains_key(key) by {
                if has_id(after, key) {
                    let k = index_of(after, key);
                    if k < before.len() {
                        assert(after[k] == before[k]);
                    }
                }
                if has_id(before, key) {
                    let k = index_of(before, key);
                    assert(after[k] == before[k]);
                }
                if key == id {
                    assert(after[before.len() as int].id == id);
                }
            }
            assert forall|key: nat| #[trigger]
                channels_of(after).contains_key(key) implies channels_of(after)[key] == old(
                self,
            )@.subscribe(room_id as int).channels[key] by {
                let k = index_of(after, key);
                if k < before.len() {
                    assert(after[k] == before[k]);
                } else {
                    assert(after[k] == subscriber);
                }
            }
            assert(channels_of(after) =~= old(self)@.subscribe(room_id as int).channels);
        }
        Some(Subscription { id, room_id })
    }

    /// Publishes `message` to `room_id`: every subscriber of the room with
    /// space in its queue gets a copy at the end of the queue, and every
    /// subscriber of the room whose queue is full is dropped. Subscribers of
    /// other rooms are not touched, and nothing is reported back.
    pub fn publish(&mut self, room_id: i64, message: &EchoedMessage)
        requires
            old(self).wf(),
        ensures
            final(self).wf(),
            final(self)@ == old(self)@.publish(room_id as int, message@),
    {
        let ghost before = self@;
        let ghost target = before.publish(room_id as int, message@);
        proof {
            lemma_channels_pointwise(self.subscribers@);
        }
        let mut index: usize = 0;
        while index < self.subscribers.len()
            invariant
                self.capacity == old(self).capacity,
                self.next_id == old(self).next_id,
                before == old(self)@,
                before.wf(),
                target == before.publish(room_id as int, message@),
                index <= self.subscribers.len(),
                distinct_ids(self.subscribers@),
                forall|j: int|
                    0 <= j < index ==> {
                        &&& target.channels.contains_key(
                            (#[trigger] self.subscribers@[j]).id as nat,
                        )
                        &&& target.channels[self.subscribers@[j].id as nat] == channel_of(
                            self.subscribers@[j],
                        )
                    },
                forall|j: int|
                    index <= j < self.subscribers@.len() ==> {
                        &&& before.channels.contains_key(
                            (#[trigger] self.subscribers@[j]).id as nat,
                        )
                        &&& before.channels[self.subscribers@[j].id as nat] == channel_of(
                            self.subscribers@[j],
                        )
                    },
                forall|id: nat| #[trigger]
                    target.channels.contains_key(id) ==> has_id(self.subscribers@, id),
            decreases self.subscribers.len() - index,
        {
            let ghost current = self.subscribers@;
            let ghost at = current[index as int];
            if self.subscribers[index].room_id == room_id && self.subscribers[index].pending.len()
                >= self.capacity {
                self.subscribers.remove(index);
                proof {
                    let after = self.subscribers@;
                    assert(before.overrun(at.id as nat, room_id as int));
                    assert forall|j: int| 0 <= j < after.len() implies #[trigger] after[j] == if j
                        < index {
                        current[j]
                    } else {
                        current[j + 1]
                    } by {}
                    assert forall|id: nat| #[trigger]
                        target.channels.contains_key(id) implies has_id(after, id) by {
                        let k = index_of(current, id);
                        assert(0 <= k < current.len() && current[k].id == id);
                        if k < index {
                            assert(after[k].id == id);
                        } else {
                            assert(k != index);
                            assert(after[k - 1].id == id);
                        }
                    }
                }
            } else {
                if self.subscribers[index].room_id == room_id {
                    let copy = message.clone();
                    self.subscribers[index].pending.push(copy);
                    proof {
                        let after = self.subscribers@;
                        assert(echoed_views(after[index as int].pending@) =~= echoed_views(
                            at.pending@,
                        ).push(message@));
                        assert forall|id: nat| #[trigger]
                            target.channels.contains_key(id) implies has_id(after, id) by {
                            let k = index_of(current, id);
                            assert(0 <= k < current.len() && current[k].id == id);
                            assert(after[k].id == id);
                        }
                    }
                }
                proof {
                    assert(!before.overrun(at.id as nat, room_id as int));
                }
                index = index + 1;
            }
        }
        proof {
            lemma_channels_are(self.subscribers@, target.channels);
            assert(self@.channels == target.channels);
            assert(self@ == target);
        }
    }

    /// Takes the oldest message that waits for subscriber `id`.
    pub fn receive(&mut self, id: u64) -> (delivery: Delivery)
        requires
            old(self).wf(),
        ensures
            final(self).wf(),
            match delivery {
                Delivery::Message(message) => {
                    &&& old(self)@.channels.contains_key(id as nat)
                    &&& old(self)@.channels[id as nat].pending.len() > 0
                    &&& message@ == old(self)@.channels[id as nat].pending[0]
                    &&& final(self)@ == old(self)@.receive(id as nat)
                },
                Delivery::Empty => {
                    &&& old(self)@.channels.contains_key(id as nat)
                    &&& old(self)@.channels[id as nat].pending.len() == 0
                    &&& final(self)@ == old(self)@
                },
                Delivery::Closed => {
                    &&& !old(self)@.channels.contains_key(id as nat)
                    &&& final(self)@ == old(self)@
                },
            },
    {
        proof {
            lemma_channels_pointwise(self.subscribers@);
        }
        match self.position(id) {
            None => Delivery::Closed,
            Some(index) => {
                if self.subscribers[index].pending.len() == 0 {
                    Delivery::Empty
                } else {
                    let ghost current = self.subscribers@;
                    let message = self.subscribers[index].pending.remove(0);
                    proof {
                        let after = self.subscribers@;
                        let target = old(self)@.receive(id as nat);
                        assert(echoed_views(after[index as int].pending@) =~= echoed_views(
                            current[index as int].pending@,
                        ).drop_first());
                        assert(distinct_ids(after));
                        assert forall|key: nat| #[trigger]
                            target.channels.contains_key(key) implies has_id(after, key) by {
                            if key != id as nat {
                                let k = index_of(current, key);
                                assert(0 <= k < current.len() && current[k].id == key);
                                assert(after[k].id == key);
                            } else {
                                assert(after[index as int].id == key);
                            }
                        }
                        lemma_channels_are(after, target.channels);
                        assert(self@ == target);
                    }
                    Delivery::Message(message)
                }
            },
        }
    }

    /// Detaches subscriber `id`. Detaching one that is not attached changes
    /// nothing.
    pub fn unsubscribe(&mut self, id: u64)
        requires
            old(self).wf(),
        ensures
            final(self).wf(),
            final(self)@ == old(self)@.unsubscribe(id as nat),
    {
        proof {
            lemma_channels_pointwise(self.subscribers@);
        }
        let ghost current = self.subscribers@;
        let ghost target = old(self)@.unsubscribe(id as nat);
        match self.position(id) {
            None => {
                proof {
                    assert(target.channels =~= old(self)@.channels);
                }
            },
            Some(index) => {
                self.subscribers.remove(index);
                proof {
                    let after = self.subscribers@;
                    assert forall|j: int| 0 <= j < after.len() implies #[trigger] after[j] == if j
                        < index {
                        current[j]
                    } else {
                        current[j + 1]
                    } by {}
                    assert forall|key: nat| #[trigger]
                        target.channels.contains_key(key) implies has_id(after, key) by {
                        let k = index_of(current, key);
                        assert(0 <= k < current.len() && current[k].id == key);
                        if k < index {
                            assert(after[k].id == key);
                        } else {
                            assert(after[k - 1].id == key);
                        }
                    }
                    lemma_channels_are(after, target.channels);
                    assert(self@ == target);
                }
            },
        }
    }

    /// Whether subscriber `id` is attached.
    pub fn is_attached(&self, id: u64) -> (attached: bool)
        ensures
            attached == self@.channels.contains_key(id as nat),
    {
        self.position(id).is_some()
    }

    /// The state of `room_id`: active while it has a subscriber, empty
    /// otherwise.
    pub fn room_state(&self, room_id: i64) -> (state: RoomState)
        requires
            self.wf(),
        ensures
            state == RoomState::Active <==> self@.active(room_id as int),
    {
        proof {
            lemma_channels_pointwise(self.subscribers@);
        }
        let mut index: usize = 0;
        while index < self.subscribers.len()
            invariant
                index <= self.subscribers.len(),
                forall|j: int|
                    0 <= j < index ==> (#[trigger] self.subscribers@[j]).room_id != room_id,
                forall|i: int|
                    0 <= i < self.subscribers@.len() ==> {
                        &&& self@.channels.contains_key((#[trigger] self.subscribers@[i]).id as nat)
                        &&& self@.channels[self.subscribers@[i].id as nat] == channel_of(
                            self.subscribers@[i],
                        )
                    },
            decreases self.subscribers.len() - index,
        {
            if self.subscribers[index].room_id == room_id {
                proof {
                    let found = self.subscribers@[index as int].id as nat;
                    assert(self@.attached(found, room_id as int));
                }
                return RoomState::Active;
            }
            index = index + 1;
        }
        proof {
            assert forall|id: nat| !self@.attached(id, room_id as int) by {
                if self@.channels.contains_key(id) {
                    let k = index_of(self.subscribers@, id);
                    assert(self.subscribers@[k].room_id != room_id);
                }
            }
        }
        RoomState::Empty
    }
}

} // verus!
