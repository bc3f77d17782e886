//! Showing what archive files hold: events, peers, diagrams and tables.
pub mod csv;
pub mod diagram;
pub mod file;
pub mod filter;
pub mod listing;
pub mod options;
pub mod peers;
pub mod report;
