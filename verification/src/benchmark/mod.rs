//! Benchmark and calibration support: transfer purposes, window presets, device-pair
//! keys and the generator of incompressible benchmark data.
pub mod calibration;
pub mod config_store;
pub mod ephemeral_file;
pub mod types;
