//! The multi-device IOPS benchmark: its configuration, address parsing and
//! block address generators.

pub mod config;
pub mod lba;
pub mod cpus;
pub mod worker;
pub mod report;
pub mod plan;
pub mod select;
