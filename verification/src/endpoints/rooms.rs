//! Rooms as their members manage them: listing, creating, inviting and
//! kicking out.

use vstd::prelude::*;
use crate::auth::AuthorizedAccount;
use crate::endpoints::Status;
use crate::repository::room::{RoomView, joined_by, room_views, room_with};
use crate::state::SharedState;
use crate::text::length_between;

verus! {

/// One room in the answer to a listing.
#[derive(Debug)]
pub struct RoomResponseEntry {
    pub room_id: i64,
    pub room_name: String,
}

/// What a [`RoomResponseEntry`] holds, as mathematical values.
pub struct RoomResponseEntryView {
    pub room_id: int,
    pub room_name: Seq<char>,
}

impl View for RoomResponseEntry {
    type V = RoomResponseEntryView;

    open spec fn view(&self) -> RoomResponseEntryView {
        RoomResponseEntryView { room_id: self.room_id as int, room_name: self.room_name@ }
    }
}

/// The entries of a sequence, as mathematical values.
pub open spec fn entry_views(entries: Seq<RoomResponseEntry>) -> Seq<RoomResponseEntryView> {
    entries.map_values(|e: RoomResponseEntry| e@)
}

/// The entry that lists a room.
pub open spec fn entry_of(room: RoomView) -> RoomResponseEntryView {
    RoomResponseEntryView { room_id: room.id, room_name: room.name }
}

/// Whether a name has between 1 and 64 characters.
pub open spec fn valid_name(name: Seq<char>) -> bool {
    1 <= name.len() <= 64
}

/// The form that asks for a new room.
#[derive(Debug)]
pub struct CreateRoomForm {
    pub room_name: String,
}

impl CreateRoomForm {
    /// Whether the form is filled in as it has to be: the name of the room
    /// has between 1 and 64 characters.
    pub fn validate(&self) -> (valid: bool)
        ensures
            valid == valid_name(self.room_name@),
    {
        length_between(self.room_name.as_str(), 1, 64)
    }
}

/// The form that asks to add an account to a room, or to take it out.
#[derive(Debug)]
pub struct MemberModificationForm {
    pub username: String,
    pub room_id: i64,
}

impl MemberModificationForm {
    /// Whether the form is filled in as it has to be: the name of the
    /// account has between 1 and 64 characters.
    pub fn validate(&self) -> (valid: bool)
        ensures
            valid == valid_name(self.username@),
    {
        length_between(self.username.as_str(), 1, 64)
    }
}

/// The rooms that `requester` belongs to, in the order of their creation.
pub fn list(
    shared: &SharedState,
    requester: &AuthorizedAccount,
) -> (entries: Vec<RoomResponseEntry>)
    requires
        shared.wf(),
    ensures
        entry_views(entries@) == shared.repository.rooms.directory@.filter(
            joined_by(shared.repository.rooms.members@, requester@.username),
        ).map_values(|room: RoomView| entry_of(room)),
{
    let rooms = shared.repository.rooms.find_by_member(requester.username.as_str());
    let ghost listed = shared.repository.rooms.directory@.filter(
        joined_by(shared.repository.rooms.members@, requester@.username),
    );
    let mut entries: Vec<RoomResponseEntry> = Vec::new();
    let mut index: usize = 0;
    while index < rooms.len()
        invariant
            index <= rooms.len(),
            room_views(rooms@) == listed,
            entry_views(entries@) == listed.take(index as int).map_values(
                |room: RoomView| entry_of(room),
            ),
        decreases rooms.len() - index,
    {
        let ghost before = entries@;
        let entry = RoomResponseEntry {
            room_id: rooms[index].id,
            room_name: rooms[index].name.clone(),
        };
        entries.push(entry);
        proof {
            assert(room_views(rooms@)[index as int] == rooms@[index as int]@);
            assert(entry_views(entries@) =~= entry_views(before).push(entry@));
            assert(listed.take(index as int + 1).map_values(|room: RoomView| entry_of(room))
                =~= listed.take(index as int).map_values(|room: RoomView| entry_of(room)).push(
                entry@,
            ));
        }
        index = index + 1;
    }
    proof {
        assert(listed.take(index as int) =~= listed);
    }
    entries
}

/// Creates the room that the form asks for and makes `requester` its first
/// member. A form that is not valid is a bad request and a directory that
/// has given out its last identifier an internal error; then nothing
/// changes.
pub fn create(
    shared: &mut SharedState,
    requester: &AuthorizedAccount,
    form: &CreateRoomForm,
) -> (outcome: Result<Status, Status>)
    requires
        old(shared).wf(),
    ensures
        final(shared).wf(),
        final(shared).hub == old(shared).hub,
        final(shared).repository.accounts == old(shared).repository.accounts,
        final(shared).repository.uploads == old(shared).repository.uploads,
        final(shared).repository.rooms.log == old(shared).repository.rooms.log,
        ({
            let rooms = old(shared).repository.rooms;
            match outcome {
                Ok(status) => {
                    &&& status == Status::Created
                    &&& valid_name(form.room_name@)
                    &&& rooms.directory.next_id() < i64::MAX
                    &&& final(shared).repository.rooms.directory@.len() == rooms.directory@.len()
                        + 1
                    &&& final(shared).repository.rooms.directory@.drop_last() == rooms.directory@
                    &&& final(shared).repository.rooms.directory@.last().id
                        == rooms.directory.next_id()
                    &&& final(shared).repository.rooms.directory@.last().name == form.room_name@
                    &&& final(shared).repository.rooms.directory.next_id()
                        == rooms.directory.next_id() + 1
                    &&& final(shared).repository.rooms.members@ == rooms.members@.insert(
                        (rooms.directory.next_id(), requester@.username),
                    )
                },
                Err(status) => {
                    &&& final(shared).repository.rooms.directory@ == rooms.directory@
                    &&& final(shared).repository.rooms.directory.next_id()
                        == rooms.directory.next_id()
                    &&& final(shared).repository.rooms.members@ == rooms.members@
                    &&& status == if !valid_name(form.room_name@) {
                        Status::BadRequest
                    } else {
                        Status::InternalServerError
                    }
                    &&& valid_name(form.room_name@) ==> rooms.directory.next_id() == i64::MAX
                },
            }
        }),
{
    if !form.validate() {
        return Err(Status::BadRequest);
    }
    let room = match shared.repository.rooms.create(form.room_name.as_str()) {
        Err(_) => {
            return Err(Status::InternalServerError);
        },
        Ok(room) => room,
    };
    room.add_member(&mut shared.repository.rooms, requester.username.as_str());
    proof {
        assert(shared.repository.rooms.directory@.drop_last() =~= old(
            shared,
        ).repository.rooms.directory@);
    }
    Ok(Status::Created)
}

/// Makes the account that the form names a member of the room that it
/// names, on behalf of `requester`, who has to be a member of that room.
/// Inviting a member again changes nothing.
pub fn invite(
    shared: &mut SharedState,
    requester: &AuthorizedAccount,
    form: &MemberModificationForm,
) -> (outcome: Result<Status, Status>)
    requires
        old(shared).wf(),
    ensures
        final(shared).wf(),
        final(shared).hub == old(shared).hub,
        final(shared).repository.accounts == old(shared).repository.accounts,
        final(shared).repository.uploads == old(shared).repository.uploads,
        final(shared).repository.rooms.log == old(shared).repository.rooms.log,
        final(shared).repository.rooms.directory == old(shared).repository.rooms.directory,
        ({
            let rooms = old(shared).repository.rooms;
            let room = form.room_id as int;
            match outcome {
                Ok(status) => {
                    &&& status == Status::Created
                    &&& valid_name(form.username@)
                    &&& room_with(rooms.directory@, room) is Some
                    &&& rooms.members@.contains((room, requester@.username))
                    &&& final(shared).repository.rooms.members@ == rooms.members@.insert(
                        (room, form.username@),
                    )
                },
                Err(status) => {
                    &&& final(shared).repository.rooms.members@ == rooms.members@
                    &&& status == if !valid_name(form.username@) {
                        Status::BadRequest
                    } else if room_with(rooms.directory@, room) is None {
                        Status::NotFound
                    } else {
                        Status::Unauthorized
                    }
                    &&& valid_name(form.username@) && room_with(rooms.directory@, room) is Some
                        ==> !rooms.members@.contains((room, requester@.username))
                },
            }
        }),
{
    if !form.validate() {
        return Err(Status::BadRequest);
    }
    let room = match shared.repository.rooms.find_by_id(form.room_id) {
        None => {
            return Err(Status::NotFound);
        },
        Some(room) => room,
    };
    proof {
        lemma_found_room_has_id(shared.repository.rooms.directory@, form.room_id as int);
    }
    if !shared.repository.rooms.members.is_member(room.id, requester.username.as_str()) {
        return Err(Status::Unauthorized);
    }
    room.add_member(&mut shared.repository.rooms, form.username.as_str());
    Ok(Status::Created)
}

/// Takes the account that the form names out of the room that it names.
/// Kicking out an account that is no member changes nothing.
pub fn kick_out(
    shared: &mut SharedState,
    requester: &AuthorizedAccount,
    form: &MemberModificationForm,
) -> (outcome: Result<Status, Status>)
    requires
        old(shared).wf(),
    ensures
        final(shared).wf(),
        final(shared).hub == old(shared).hub,
        final(shared).repository.accounts == old(shared).repository.accounts,
        final(shared).repository.uploads == old(shared).repository.uploads,
        final(shared).repository.rooms.log == old(shared).repository.rooms.log,
        final(shared).repository.rooms.directory == old(shared).repository.rooms.directory,
        ({
            let rooms = old(shared).repository.rooms;
            let room = form.room_id as int;
            match outcome {
                Ok(status) => {
                    &&& status == Status::Success
                    &&& valid_name(form.username@)
                    &&& room_with(rooms.directory@, room) is Some
                    &&& final(shared).repository.rooms.members@ == rooms.members@.remove(
                        (room, form.username@),
                    )
                },
                Err(status) => {
                    &&& final(shared).repository.rooms.members@ == rooms.members@
                    &&& status == if !valid_name(form.username@) {
                        Status::BadRequest
                    } else {
                        Status::NotFound
                    }
                    &&& valid_name(form.username@) ==> room_with(rooms.directory@, room) is None
                },
            }
        }),
{
    if !form.validate() {
        return Err(Status::BadRequest);
    }
    let room = match shared.repository.rooms.find_by_id(form.room_id) {
        None => {
            return Err(Status::NotFound);
        },
        Some(room) => room,
    };
    proof {
        lemma_found_room_has_id(shared.repository.rooms.directory@, form.room_id as int);
    }
    room.remove_member(&mut shared.repository.rooms, form.username.as_str());
    Ok(Status::Success)
}

/// A room that is found under an identifier has that identifier.
pub proof fn lemma_found_room_has_id(rooms: Seq<RoomView>, id: int)
    requires
        room_with(rooms, id) is Some,
    ensures
        room_with(rooms, id)->Some_0.id == id,
{
}

} // verus!
