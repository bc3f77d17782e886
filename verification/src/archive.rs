//! Archives of events: a header message and then one message for each event,
//! every one of them with its length delimiter in front.
pub mod header;
pub mod input;
pub mod read;
pub mod laws;
pub mod log_laws;
pub mod replayer;
