//! The core of a client for a line-oriented chat protocol of the IRC
//! family.
//!
//! The library decides and its caller carries out. It turns raw lines into
//! typed events (`parser`), says what is to be done for each event and in
//! which order (`dispatch`, `connection`), which endpoint to try next while
//! connecting (`acquire`), and lays out the summary that answers a presence
//! message (`summary`). It opens no socket, reads no clock and prints
//! nothing: what it returns names the reads, writes and waits that are owed.

pub mod acquire;
pub mod connection;
pub mod dispatch;
pub mod event;
pub mod parser;
pub mod summary;
pub mod text;
