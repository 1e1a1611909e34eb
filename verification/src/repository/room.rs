//! Rooms, who belongs to them, and what was said in them.

use vstd::prelude::*;
use vstd::string::*;
use crate::repository::{RestoreError, StorageError};
use crate::repository::message::{
    AppendError, Message, MessageLog, MessageView, message_views, reference_key, room_messages,
};
use crate::repository::upload::{FileUploadError, Upload, UploadRepository, UploadView, has_key};
use crate::text::text_of;
use crate::trusted::{unix_now, uuid_text, uuid_to_string};

verus! {

/// The characters of each text of a sequence.
pub open spec fn names(texts: Seq<String>) -> Seq<Seq<char>> {
    texts.map_values(|t: String| t@)
}

#[derive(Debug)]
struct Membership {
    room_id: i64,
    member: String,
}

spec fn pair_of(row: Membership) -> (int, Seq<char>) {
    (row.room_id as int, row.member@)
}

spec fn holds(rows: Seq<Membership>, pair: (int, Seq<char>)) -> bool {
    exists|i: int| 0 <= i < rows.len() && pair_of(#[trigger] rows[i]) == pair
}

spec fn distinct_rows(rows: Seq<Membership>) -> bool {
    forall|i: int, j: int|
        0 <= i < j < rows.len() ==> pair_of(#[trigger] rows[i]) != pair_of(#[trigger] rows[j])
}

/// The record of which accounts belong to which rooms. Its model is the set
/// of pairs of a room and the name of a member.
#[derive(Debug)]
pub struct MembershipStore {
    rows: Vec<Membership>,
}

impl View for MembershipStore {
    type V = Set<(int, Seq<char>)>;

    closed spec fn view(&self) -> Set<(int, Seq<char>)> {
        Set::new(|pair: (int, Seq<char>)| holds(self.rows@, pair))
    }
}

impl MembershipStore {
    /// The invariant of the store: no membership is recorded twice.
    pub closed spec fn wf(&self) -> bool {
        distinct_rows(self.rows@)
    }

    /// A store in which no room has a member.
    pub fn new() -> (store: Self)
        ensures
            store.wf(),
            store@ == Set::<(int, Seq<char>)>::empty(),
    {
        let store = MembershipStore { rows: Vec::new() };
        proof {
            assert(store@ =~= Set::<(int, Seq<char>)>::empty());
        }
        store
    }

    fn position(&self, room_id: i64, account: &str) -> (found: Option<usize>)
        ensures
            match found {
                Some(index) => index < self.rows@.len() && pair_of(self.rows@[index as int]) == (
                    room_id as int,
                    account@,
                ),
                None => !holds(self.rows@, (room_id as int, account@)),
            },
    {
        let wanted = String::from_str(account);
        let mut index: usize = 0;
        while index < self.rows.len()
            invariant
                index <= self.rows.len(),
                wanted@ == account@,
                forall|j: int|
                    0 <= j < index ==> pair_of(#[trigger] self.rows@[j]) != (
                        room_id as int,
                        account@,
                    ),
            decreases self.rows.len() - index,
        {
            if self.rows[index].room_id == room_id && self.rows[index].member == wanted {
                return Some(index);
            }
            index = index + 1;
        }
        None
    }

    /// Whether `account` belongs to `room_id`.
    pub fn is_member(&self, room_id: i64, account: &str) -> (member: bool)
        ensures
            member == self@.contains((room_id as int, account@)),
    {
        self.position(room_id, account).is_some()
    }

    /// Makes `account` a member of `room_id`. Adding a member again changes
    /// nothing.
    pub fn add_member(&mut self, room_id: i64, account: &str)
        requires
            old(self).wf(),
        ensures
            final(self).wf(),
            final(self)@ == old(self)@.insert((room_id as int, account@)),
    {
        let ghost before = self.rows@;
        let ghost pair = (room_id as int, account@);
        match self.position(room_id, account) {
            Some(_) => {
                proof {
                    assert(self@ =~= old(self)@.insert(pair));
                }
            },
            None => {
                let row = Membership { room_id, member: String::from_str(account) };
                self.rows.push(row);
                proof {
                    let after = self.rows@;
                    assert forall|i: int, j: int| 0 <= i < j < after.len() implies pair_of(
                        #[trigger] after[i],
                    ) != pair_of(#[trigger] after[j]) by {
                        assert(after[i] == before[i]);
                        if j < before.len() {
                            assert(after[j] == before[j]);
                        }
                    }
                    assert forall|p: (int, Seq<char>)| holds(after, p) <==> (holds(before, p) || p
                        == pair) by {
                        if holds(after, p) {
                            let k = choose|k: int|
                                0 <= k < after.len() && pair_of(#[trigger] after[k]) == p;
                            if k < before.len() {
                                assert(after[k] == before[k]);
                            }
                        }
                        if holds(before, p) {
                            let k = choose|k: int|
                                0 <= k < before.len() && pair_of(#[trigger] before[k]) == p;
                            assert(after[k] == before[k]);
                        }
                        if p == pair {
                            assert(pair_of(after[before.len() as int]) == p);
                        }
                    }
                    assert(self@ =~= old(self)@.insert(pair));
                }
            },
        }
    }

    /// Takes `account` out of `room_id`. Removing an account that is no
    /// member changes nothing.
    pub fn remove_member(&mut self, room_id: i64, account: &str)
        requires
            old(self).wf(),
        ensures
            final(self).wf(),
            final(self)@ == old(self)@.remove((room_id as int, account@)),
    {
        let ghost before = self.rows@;
        let ghost pair = (room_id as int, account@);
        match self.position(room_id, account) {
            None => {
                proof {
                    assert(self@ =~= old(self)@.remove(pair));
                }
            },
            Some(index) => {
                self.rows.remove(index);
                proof {
                    let after = self.rows@;
                    assert forall|j: int| 0 <= j < after.len() implies #[trigger] after[j] == if j
                        < index {
                        before[j]
                    } else {
                        before[j + 1]
                    } by {}
                    assert forall|p: (int, Seq<char>)| holds(after, p) <==> (holds(before, p) && p
                        != pair) by {
                        if holds(after, p) {
                            let k = choose|k: int|
                                0 <= k < after.len() && pair_of(#[trigger] after[k]) == p;
                            if k < index {
                                assert(pair_of(before[k]) == p);
                            } else {
                                assert(pair_of(before[k + 1]) == p);
                            }
                        }
                        if holds(before, p) && p != pair {
                            let k = choose|k: int|
                                0 <= k < before.len() && pair_of(#[trigger] before[k]) == p;
                            if k < index {
                                assert(pair_of(after[k]) == p);
                            } else {
                                assert(pair_of(after[k - 1]) == p);
                            }
                        }
                    }
                    assert(self@ =~= old(self)@.remove(pair));
                }
            },
        }
    }

    /// The names of the members of `room_id`, each once.
    pub fn members_of(&self, room_id: i64) -> (found: Vec<String>)
        requires
            self.wf(),
        ensures
            names(found@).no_duplicates(),
            forall|name: Seq<char>|
                names(found@).contains(name) <==> self@.contains((room_id as int, name)),
    {
        let mut found: Vec<String> = Vec::new();
        let mut index: usize = 0;
        while index < self.rows.len()
            invariant
                self.wf(),
                index <= self.rows.len(),
                names(found@).no_duplicates(),
                forall|name: Seq<char>|
                    names(found@).contains(name) <==> exists|j: int|
                        0 <= j < index && pair_of(#[trigger] self.rows@[j]) == (
                            room_id as int,
                            name,
                        ),
            decreases self.rows.len() - index,
        {
            if self.rows[index].room_id == room_id {
                let ghost before = found@;
                let copy = self.rows[index].member.clone();
                found.push(copy);
                proof {
                    assert(names(found@) =~= names(before).push(copy@));
                    assert(!names(before).contains(copy@)) by {
                        if names(before).contains(copy@) {
                            let j = choose|j: int|
                                0 <= j < index && pair_of(#[trigger] self.rows@[j]) == (
                                    room_id as int,
                                    copy@,
                                );
                            assert(pair_of(self.rows@[j]) != pair_of(self.rows@[index as int]));
                        }
                    }
                    assert forall|name: Seq<char>|
                        names(found@).contains(name) <==> exists|j: int|
                            0 <= j < index + 1 && pair_of(#[trigger] self.rows@[j]) == (
                                room_id as int,
                                name,
                            ) by {
                        if names(found@).contains(name) {
                            let k = choose|k: int|
                                0 <= k < names(found@).len() && names(found@)[k] == name;
                            if k < before.len() {
                                assert(names(before)[k] == name);
                                assert(names(before).contains(name));
                            } else {
                                assert(pair_of(self.rows@[index as int]) == (room_id as int, name));
                            }
                        }
                        if exists|j: int|
                            0 <= j < index + 1 && pair_of(#[trigger] self.rows@[j]) == (
                                room_id as int,
                                name,
                            ) {
                            let j = choose|j: int|
                                0 <= j < index + 1 && pair_of(#[trigger] self.rows@[j]) == (
                                    room_id as int,
                                    name,
                                );
                            if j < index {
                                assert(names(before).contains(name));
                                let k = choose|k: int|
                                    0 <= k < names(before).len() && names(before)[k] == name;
                                assert(names(found@)[k] == name);
                            } else {
                                assert(names(found@)[before.len() as int] == name);
                            }
                        }
                    }
                }
            } else {
                proof {
                    assert forall|name: Seq<char>|
                        names(found@).contains(name) <==> exists|j: int|
                            0 <= j < index + 1 && pair_of(#[trigger] self.rows@[j]) == (
                                room_id as int,
                                name,
                            ) by {
                        if exists|j: int|
                            0 <= j < index + 1 && pair_of(#[trigger] self.rows@[j]) == (
                                room_id as int,
                                name,
                            ) {
                            let j = choose|j: int|
                                0 <= j < index + 1 && pair_of(#[trigger] self.rows@[j]) == (
                                    room_id as int,
                                    name,
                                );
                            assert(j < index);
                        }
                    }
                }
            }
            index = index + 1;
        }
        found
    }
}

/// A named channel.
#[derive(Debug)]
pub struct Room {
    pub id: i64,
    pub name: String,
    pub created_at: i64,
}

/// What a [`Room`] holds, as mathematical values.
pub struct RoomView {
    pub id: int,
    pub name: Seq<char>,
    pub created_at: int,
}

impl View for Room {
    type V = RoomView;

    open spec fn view(&self) -> RoomView {
        RoomView { id: self.id as int, name: self.name@, created_at: self.created_at as int }
    }
}

impl Clone for Room {
    fn clone(&self) -> (copy: Self)
        ensures
            copy@ == self@,
    {
        Room { id: self.id, name: self.name.clone(), created_at: self.created_at }
    }
}

/// The rooms of a sequence, as mathematical values.
pub open spec fn room_views(rooms: Seq<Room>) -> Seq<RoomView> {
    rooms.map_values(|r: Room| r@)
}

/// The room with the identifier `id` among `rooms`, if there is one.
pub open spec fn room_with(rooms: Seq<RoomView>, id: int) -> Option<RoomView> {
    if exists|i: int| 0 <= i < rooms.len() && (#[trigger] rooms[i]).id == id {
        Some(rooms[choose|i: int| 0 <= i < rooms.len() && (#[trigger] rooms[i]).id == id])
    } else {
        None
    }
}

/// Whether the account `account` belongs to a room, given the memberships.
pub open spec fn joined_by(
    members: Set<(int, Seq<char>)>,
    account: Seq<char>,
) -> spec_fn(RoomView) -> bool {
    |room: RoomView| members.contains((room.id, account))
}

/// The rooms that exist, in the order of their creation.
#[derive(Debug)]
pub struct RoomDirectory {
    rooms: Vec<Room>,
    next_id: i64,
}

impl View for RoomDirectory {
    type V = Seq<RoomView>;

    closed spec fn view(&self) -> Seq<RoomView> {
        room_views(self.rooms@)
    }
}

impl RoomDirectory {
    /// The identifier that the next room gets.
    pub closed spec fn next_id(&self) -> int {
        self.next_id as int
    }

    /// The invariant of the directory: room identifiers start at 1, stay
    /// below the next one and grow strictly.
    pub open spec fn wf(&self) -> bool {
        &&& 1 <= self.next_id() <= i64::MAX
        &&& forall|i: int| 0 <= i < self@.len() ==> 1 <= (#[trigger] self@[i]).id < self.next_id()
        &&& forall|i: int, j: int|
            0 <= i < j < self@.len() ==> (#[trigger] self@[i]).id < (#[trigger] self@[j]).id
    }

    /// A directory without rooms.
    pub fn new() -> (directory: Self)
        ensures
            directory.wf(),
            directory@ == Seq::<RoomView>::empty(),
            directory.next_id() == 1,
    {
        let directory = RoomDirectory { rooms: Vec::new(), next_id: 1 };
        proof {
            assert(room_views(directory.rooms@) =~= Seq::<RoomView>::empty());
        }
        directory
    }

    /// Creates a room named `name` at the time `created_at`. Only a
    /// directory that has given out its last identifier refuses, and then
    /// nothing changes.
    pub fn create_at(
        &mut self,
        name: &str,
        created_at: i64,
    ) -> (outcome: Result<Room, StorageError>)
        requires
            old(self).wf(),
        ensures
            final(self).wf(),
            outcome is Ok <==> old(self).next_id() < i64::MAX,
            match outcome {
                Ok(room) => {
                    &&& room@ == (RoomView {
                        id: old(self).next_id(),
                        name: name@,
                        created_at: created_at as int,
                    })
                    &&& final(self)@ == old(self)@.push(room@)
                    &&& final(self).next_id() == old(self).next_id() + 1
                },
                Err(_) => {
                    &&& final(self)@ == old(self)@
                    &&& final(self).next_id() == old(self).next_id()
                },
            },
    {
        if self.next_id == i64::MAX {
            return Err(StorageError::IdentifiersExhausted);
        }
        let room = Room { id: self.next_id, name: String::from_str(name), created_at };
        let copy = room.clone();
        let ghost before = self.rooms@;
        self.rooms.push(room);
        self.next_id = self.next_id + 1;
        proof {
            assert(room_views(self.rooms@) =~= room_views(before).push(copy@));
            assert forall|i: int| 0 <= i < self@.len() implies 1 <= (#[trigger] self@[i]).id
                < self.next_id() by {
                if i < before.len() {
                    assert(self@[i] == old(self)@[i]);
                }
            }
            assert forall|i: int, j: int| 0 <= i < j < self@.len() implies (#[trigger] self@[i]).id
                < (#[trigger] self@[j]).id by {
                assert(self@[i] == old(self)@[i]);
                if j < before.len() {
                    assert(self@[j] == old(self)@[j]);
                }
            }
        }
        Ok(copy)
    }

    /// Takes a room that was created earlier, with the identifier and the
    /// time it was created under. Its identifier has to be at least the
    /// next one of the directory and below the largest; the directory goes
    /// on after it. A room that is refused changes nothing.
    pub fn restore(&mut self, room: Room) -> (outcome: Result<(), RestoreError>)
        requires
            old(self).wf(),
        ensures
            final(self).wf(),
            match outcome {
                Ok(()) => {
                    &&& old(self).next_id() <= room.id < i64::MAX
                    &&& final(self)@ == old(self)@.push(room@)
                    &&& final(self).next_id() == room.id + 1
                },
                Err(error) => {
                    &&& final(self)@ == old(self)@
                    &&& final(self).next_id() == old(self).next_id()
                    &&& error == if room.id < old(self).next_id() {
                        RestoreError::OutOfOrder
                    } else {
                        RestoreError::IdentifiersExhausted
                    }
                    &&& error == RestoreError::IdentifiersExhausted ==> room.id == i64::MAX
                },
            },
    {
        if room.id < self.next_id {
            return Err(RestoreError::OutOfOrder);
        }
        if room.id == i64::MAX {
            return Err(RestoreError::IdentifiersExhausted);
        }
        let ghost record = room@;
        let ghost before = self.rooms@;
        self.next_id = room.id + 1;
        self.rooms.push(room);
        proof {
            assert(room_views(self.rooms@) =~= room_views(before).push(record));
            assert forall|i: int| 0 <= i < self@.len() implies 1 <= (#[trigger] self@[i]).id
                < self.next_id() by {
                if i < before.len() {
                    assert(self@[i] == old(self)@[i]);
                }
            }
            assert forall|i: int, j: int| 0 <= i < j < self@.len() implies (#[trigger] self@[i]).id
                < (#[trigger] self@[j]).id by {
                assert(self@[i] == old(self)@[i]);
                if j < before.len() {
                    assert(self@[j] == old(self)@[j]);
                }
            }
        }
        Ok(())
    }

    /// The room with the identifier `room_id`.
    pub fn find_by_id(&self, room_id: i64) -> (found: Option<Room>)
        requires
            self.wf(),
        ensures
            match found {
                Some(room) => room_with(self@, room_id as int) == Some(room@),
                None => room_with(self@, room_id as int) is None,
            },
    {
        let mut index: usize = 0;
        while index < self.rooms.len()
            invariant
                self.wf(),
                index <= self.rooms.len(),
                forall|j: int| 0 <= j < index ==> (#[trigger] self@[j]).id != room_id,
            decreases self.rooms.len() - index,
        {
            if self.rooms[index].id == room_id {
                proof {
                    let rooms = self@;
                    let k = choose|i: int|
                        0 <= i < rooms.len() && (#[trigger] rooms[i]).id == room_id as int;
                    assert(rooms[index as int].id == room_id);
                    if k < index {
                        assert(rooms[k].id < rooms[index as int].id);
                    } else if index < k {
                        assert(rooms[index as int].id < rooms[k].id);
                    }
                }
                return Some(self.rooms[index].clone());
            }
            index = index + 1;
        }
        None
    }
}

/// The rooms, their members and their messages.
#[derive(Debug)]
pub struct RoomRepository {
    pub directory: RoomDirectory,
    pub members: MembershipStore,
    pub log: MessageLog,
}

impl RoomRepository {
    /// The invariant of the repository: each of its parts is well formed.
    pub open spec fn wf(&self) -> bool {
        &&& self.directory.wf()
        &&& self.members.wf()
        &&& self.log.wf()
    }

    /// A repository without rooms, members or messages.
    pub fn new() -> (repository: Self)
        ensures
            repository.wf(),
            repository.directory@ == Seq::<RoomView>::empty(),
            repository.directory.next_id() == 1,
            repository.members@ == Set::<(int, Seq<char>)>::empty(),
            repository.log@ == Seq::<MessageView>::empty(),
            repository.log.next_id() == 1,
    {
        RoomRepository {
            directory: RoomDirectory::new(),
            members: MembershipStore::new(),
            log: MessageLog::new(),
        }
    }

    /// Creates a room named `name`, stamped with the current time. The
    /// outcome is that of [`RoomDirectory::create_at`] at some time: only a
    /// directory that has given out its last identifier refuses.
    pub fn create(&mut self, name: &str) -> (outcome: Result<Room, StorageError>)
        requires
            old(self).wf(),
        ensures
            final(self).wf(),
            final(self).members == old(self).members,
            final(self).log == old(self).log,
            outcome is Ok <==> old(self).directory.next_id() < i64::MAX,
            match outcome {
                Ok(room) => {
                    &&& room@.id == old(self).directory.next_id()
                    &&& room@.name == name@
                    &&& final(self).directory@ == old(self).directory@.push(room@)
                    &&& final(self).directory.next_id() == old(self).directory.next_id() + 1
                },
                Err(_) => {
                    &&& final(self).directory@ == old(self).directory@
                    &&& final(self).directory.next_id() == old(self).directory.next_id()
                },
            },
    {
        let created_at = unix_now();
        self.directory.create_at(name, created_at)
    }

    /// The room with the identifier `room_id`.
    pub fn find_by_id(&self, room_id: i64) -> (found: Option<Room>)
        requires
            self.wf(),
        ensures
            match found {
                Some(room) => room_with(self.directory@, room_id as int) == Some(room@),
                None => room_with(self.directory@, room_id as int) is None,
            },
    {
        self.directory.find_by_id(room_id)
    }

    /// The rooms that `account` belongs to, in the order of their creation.
    pub fn find_by_member(&self, account: &str) -> (found: Vec<Room>)
        requires
            self.wf(),
        ensures
            room_views(found@) == self.directory@.filter(joined_by(self.members@, account@)),
    {
        let mut found: Vec<Room> = Vec::new();
        let mut index: usize = 0;
        while index < self.directory.rooms.len()
            invariant
                index <= self.directory.rooms.len(),
                room_views(found@) == self.directory@.take(index as int).filter(
                    joined_by(self.members@, account@),
                ),
            decreases self.directory.rooms.len() - index,
        {
            proof {
                reveal(Seq::filter);
                assert(self.directory@.take(index as int + 1).drop_last() =~= self.directory@.take(
                    index as int,
                ));
            }
            if self.members.is_member(self.directory.rooms[index].id, account) {
                let ghost before = found@;
                let copy = self.directory.rooms[index].clone();
                found.push(copy);
                proof {
                    assert(room_views(found@) =~= room_views(before).push(copy@));
                }
            }
            index = index + 1;
        }
        proof {
            assert(self.directory@.take(index as int) =~= self.directory@);
        }
        found
    }
}

impl Room {
    /// The names of the members of this room, each once.
    pub fn get_members(&self, rooms: &RoomRepository) -> (found: Vec<String>)
        requires
            rooms.wf(),
        ensures
            names(found@).no_duplicates(),
            forall|name: Seq<char>|
                names(found@).contains(name) <==> rooms.members@.contains((self.id as int, name)),
    {
        rooms.members.members_of(self.id)
    }

    /// All messages of this room, oldest first.
    pub fn get_messages(&self, rooms: &RoomRepository) -> (found: Vec<Message>)
        ensures
            message_views(found@) == room_messages(rooms.log@, self.id as int),
    {
        rooms.log.messages_of(self.id)
    }

    /// Makes `account` a member of this room; a no-op for a member.
    pub fn add_member(&self, rooms: &mut RoomRepository, account: &str)
        requires
            old(rooms).wf(),
        ensures
            final(rooms).wf(),
            final(rooms).members@ == old(rooms).members@.insert((self.id as int, account@)),
            final(rooms).log == old(rooms).log,
            final(rooms).directory == old(rooms).directory,
    {
        rooms.members.add_member(self.id, account);
    }

    /// Takes `account` out of this room; a no-op for an account that is no
    /// member.
    pub fn remove_member(&self, rooms: &mut RoomRepository, account: &str)
        requires
            old(rooms).wf(),
        ensures
            final(rooms).wf(),
            final(rooms).members@ == old(rooms).members@.remove((self.id as int, account@)),
            final(rooms).log == old(rooms).log,
            final(rooms).directory == old(rooms).directory,
    {
        rooms.members.remove_member(self.id, account);
    }

    /// Appends a message without attachment to the log of this room. The
    /// outcome is that of [`MessageLog::append_at`] at some time; a message
    /// without text is refused as invalid.
    pub fn send_new_message(
        &self,
        rooms: &mut RoomRepository,
        sender: &str,
        text: Option<String>,
    ) -> (outcome: Result<Message, AppendError>)
        requires
            old(rooms).wf(),
        ensures
            final(rooms).wf(),
            final(rooms).members == old(rooms).members,
            final(rooms).directory == old(rooms).directory,
            exists|sent_at: i64|
                MessageLog::append_outcome(
                    old(rooms).log,
                    self.id,
                    sender@,
                    text_of(text),
                    None,
                    sent_at,
                    outcome,
                    final(rooms).log,
                ),
    {
        let ghost wanted = text_of(text);
        let outcome = rooms.log.append(self.id, sender, text, None);
        proof {
            let sent_at = choose|sent_at: i64|
                MessageLog::append_outcome(
                    old(rooms).log,
                    self.id,
                    sender@,
                    wanted,
                    text_of(None),
                    sent_at,
                    outcome,
                    rooms.log,
                );
            assert(MessageLog::append_outcome(
                old(rooms).log,
                self.id,
                sender@,
                wanted,
                None,
                sent_at,
                outcome,
                rooms.log,
            ));
        }
        outcome
    }

    /// Appends a message that carries the attachment with the key
    /// `file_uuid`, stored as the canonical text of the key, which reads
    /// back as the key. The outcome is that of [`MessageLog::append_at`] at
    /// some time.
    pub fn send_new_message_with_file(
        &self,
        rooms: &mut RoomRepository,
        sender: &str,
        text: Option<String>,
        file_uuid: u128,
    ) -> (outcome: Result<Message, AppendError>)
        requires
            old(rooms).wf(),
        ensures
            final(rooms).wf(),
            final(rooms).members == old(rooms).members,
            final(rooms).directory == old(rooms).directory,
            exists|sent_at: i64|
                MessageLog::append_outcome(
                    old(rooms).log,
                    self.id,
                    sender@,
                    text_of(text),
                    Some(uuid_text(file_uuid)),
                    sent_at,
                    outcome,
                    final(rooms).log,
                ),
            outcome is Ok ==> reference_key(outcome->Ok_0@) == Some(file_uuid),
    {
        let ghost wanted = text_of(text);
        let key = uuid_to_string(file_uuid);
        let outcome = rooms.log.append(self.id, sender, text, Some(key));
        proof {
            let sent_at = choose|sent_at: i64|
                MessageLog::append_outcome(
                    old(rooms).log,
                    self.id,
                    sender@,
                    wanted,
                    text_of(Some(key)),
                    sent_at,
                    outcome,
                    rooms.log,
                );
            assert(MessageLog::append_outcome(
                old(rooms).log,
                self.id,
                sender@,
                wanted,
                Some(uuid_text(file_uuid)),
                sent_at,
                outcome,
                rooms.log,
            ));
        }
        outcome
    }

    /// Links a key drawn at random to an upload named `filename`. The
    /// outcome is that of [`UploadRepository::link`] for some key. The bytes
    /// of the upload are to be stored under its path before a message that
    /// names it is appended.
    pub fn upload(
        &self,
        uploads: &mut UploadRepository,
        filename: &str,
    ) -> (outcome: Result<Upload, FileUploadError>)
        requires
            old(uploads).wf(),
        ensures
            final(uploads).wf(),
            exists|uuid: u128|
                {
                    &&& outcome is Ok <==> !has_key(old(uploads)@, #[trigger] uuid_text(uuid))
                    &&& match outcome {
                        Ok(upload) => {
                            &&& upload@ == (UploadView {
                                uuid: uuid_text(uuid),
                                filename: filename@,
                            })
                            &&& final(uploads)@ == old(uploads)@.push(upload@)
                        },
                        Err(_) => final(uploads)@ == old(uploads)@,
                    }
                },
    {
        uploads.link_new(filename)
    }
}

} // verus!
