//! Group scheduling polls: an organizer asks a group about a window of
//! candidate dates, the participants say when they are available, and the
//! poll shows a running tally.
//!
//! The library holds the polls and everything that is decided about them;
//! what talks to the chat platform and to the disk calls it with plain
//! values and carries out what it returns.

pub mod calendar;
pub mod chunks;
pub mod command;
pub mod control;
pub mod message_shim;
pub mod registry;
pub mod response;
pub mod scheduler;
pub mod session;
pub mod storage;
pub mod text;
