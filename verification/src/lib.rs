use vstd::prelude::*;

pub mod actor;
pub mod numfmt;
pub mod channel;
pub mod device;
pub mod dispatcher;
pub mod examples;
pub mod extent;
pub mod handler;
pub mod ipc;
pub mod log;
pub mod messages;
pub mod multidev;
pub mod nvme;
pub mod pci;
pub mod qpair;
pub mod segment;
pub mod singledev;
pub mod stats;
pub mod tsc;

verus! {
} // verus!
