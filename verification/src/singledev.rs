//! The single-device IOPS benchmark: its configuration.

pub mod config;
