//! The core of a multi-room chat service: who may enter a room, what was
//! said in it, and who hears what is said now.
//!
//! - [`repository`] holds the stores: accounts and sessions, rooms and their
//!   members, the ordered and append-only message log, and the link from
//!   attachment keys to uploaded files.
//! - [`hub`] is the room broadcast hub: one bounded queue per subscriber,
//!   filled in the order of publication; a subscriber that does not keep up
//!   is dropped instead of holding the others back.
//! - [`auth`] decides who a presented token stands for and whether that
//!   account may enter a room.
//! - [`state`] puts the stores and the hub together and says what holds of
//!   the two at all times: whatever waits in the hub is the end of the log
//!   of its room, and whatever attachment the log names is linked.
//! - [`endpoints`] holds what the handlers of the service decide, among them
//!   the connection handler that takes one connection from its handshake
//!   through authorization, replay and live delivery to its end.
//! - [`trusted`] is the boundary of the proofs: the calls into other crates,
//!   each behind a contract that is believed rather than proved.
//!
//! Everything here runs on one thread of control at a time. A service that
//! serves many connections at once passes the shared state from one to the
//! other under a lock of its own; transport, persistence and rendering are
//! its business as well.

pub mod text;
pub mod trusted;
pub mod repository;
pub mod endpoints;
pub mod hub;
pub mod state;
pub mod auth;
