//! Wire protocol: message type codes, message records, frame layout and frame errors.
pub mod error;
pub mod frame;
pub mod messages;
