//! The stores of the chat core, one per group of tables.

pub mod account;
pub mod message;
pub mod room;
pub mod upload;

use vstd::prelude::*;
use account::{AccountRepository, AccountView, SessionView};
use message::MessageView;
use room::{RoomRepository, RoomView};
use upload::{UploadRepository, UploadView};

verus! {

/// A store could not take what it was given.
#[derive(Debug, Clone, Copy, PartialEq, Eq, Structural)]
pub enum StorageError {
    /// The store has no identifier left to give out.
    IdentifiersExhausted,
    /// A key that has to be unique names something already.
    KeyTaken,
}

/// A record read back from durable storage could not be taken.
#[derive(Debug, Clone, Copy, PartialEq, Eq, Structural)]
pub enum RestoreError {
    /// The record is not one that the store would have written.
    Invalid,
    /// The identifier of the record is not above those that the store holds.
    OutOfOrder,
    /// With the record, the store would have no identifier left to give out.
    IdentifiersExhausted,
    /// The room of the record has subscribers, who would miss it.
    RoomActive,
}

/// All stores of the chat core.
#[derive(Debug)]
pub struct Repository {
    pub accounts: AccountRepository,
    pub rooms: RoomRepository,
    pub uploads: UploadRepository,
}

impl Repository {
    /// The invariant of the repository: each of its stores is well formed.
    pub open spec fn wf(&self) -> bool {
        &&& self.accounts.wf()
        &&& self.rooms.wf()
        &&& self.uploads.wf()
    }

    /// A repository in which every store is empty.
    pub fn new() -> (repository: Self)
        ensures
            repository.wf(),
            repository.accounts.accounts() == Seq::<AccountView>::empty(),
            repository.accounts.sessions() == Seq::<SessionView>::empty(),
            repository.rooms.directory@ == Seq::<RoomView>::empty(),
            repository.rooms.directory.next_id() == 1,
            repository.rooms.members@ == Set::<(int, Seq<char>)>::empty(),
            repository.rooms.log@ == Seq::<MessageView>::empty(),
            repository.rooms.log.next_id() == 1,
            repository.uploads@ == Seq::<UploadView>::empty(),
    {
        Repository {
            accounts: AccountRepository::new(),
            rooms: RoomRepository::new(),
            uploads: UploadRepository::new(),
        }
    }
}

} // verus!
