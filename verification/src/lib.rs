//! Archives of peer-observer events: the formats they are stored in, reading them
//! back from a source that is read bit by bit, and what the tools show of them.
//!
//! The library does no input or output of its own. Where it needs some, it says so,
//! and takes in what came of it.
pub mod archive;
pub mod event;
pub mod fields;
pub mod nats;
pub mod replayer;
pub mod text;
pub mod wire;
