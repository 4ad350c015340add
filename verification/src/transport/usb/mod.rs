//! USB transport over an ADB TCP tunnel: device listing parser, ADB command
//! plans and tunnel configuration.
pub mod adb;

pub mod transport;
