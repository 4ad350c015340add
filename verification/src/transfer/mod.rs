//! Transfer sessions: chunk tracking, checksum ledgers and the decisions of the
//! sending and receiving loops.
pub mod discovery;
pub mod book;
pub mod ledger;
pub mod receiver;
pub mod registry;
pub mod sender;
pub mod session;
pub mod tracker;
