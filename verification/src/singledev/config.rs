use vstd::prelude::*;

use crate::multidev::config::{find_ns_id, has_ns, not_multiple_text, ns_id_list, ns_not_found_text, result_text};
use crate::nvme::NamespaceInfo;
use crate::numfmt::{dec, list_text};

pub use crate::multidev::config::{OpType, Pattern};

verus! {

/// Configuration of a single-device IOPS benchmark run.
#[derive(Debug, Clone)]
pub struct BenchConfig {
    /// Operation type.
    pub op: OpType,
    /// IO block size in bytes.
    pub block_size: usize,
    /// Outstanding IOs per thread.
    pub queue_depth: u32,
    /// Concurrent client threads.
    pub threads: u32,
    /// Run time in seconds.
    pub duration: u64,
    /// Namespace id.
    pub ns_id: u32,
    /// PCI address of the controller; the first one found when absent.
    pub pci_addr: Option<String>,
    /// Access pattern.
    pub pattern: Pattern,
    /// Whether per-second progress is suppressed.
    pub quiet: bool,
}

/// The outcome of validating `c` against a device with `ss`-byte sectors
/// and namespaces `ns`: the first rule broken, in this order, gives the
/// error.
pub open spec fn validate_spec(c: BenchConfig, ss: u32, ns: Seq<NamespaceInfo>) -> Result<(), Seq<char>> {
    if c.block_size == 0 {
        Err("block-size must be > 0"@)
    } else if c.block_size % (ss as usize) != 0 {
        Err("block-size "@ + dec(c.block_size as nat) + " is not a multiple of device sector size "@ + dec(ss as nat))
    } else if c.threads < 1 {
        Err("threads must be >= 1"@)
    } else if c.duration < 1 {
        Err("duration must be >= 1"@)
    } else if c.queue_depth < 1 {
        Err("queue-depth must be >= 1"@)
    } else if !has_ns(ns, c.ns_id) {
        Err("namespace "@ + dec(c.ns_id as nat) + " not found (available: "@ + list_text(ns_id_list(ns)) + ")"@)
    } else {
        Ok(())
    }
}

impl BenchConfig {
    /// Checks the configuration against a device with `sector_size`-byte
    /// sectors and namespaces `ns_list` (see `validate_spec`). `max_qd`
    /// takes no part: the queue depth is clamped separately.
    pub fn validate(&self, sector_size: u32, max_qd: u32, ns_list: &[NamespaceInfo]) -> (r: Result<(), String>)
        requires
            sector_size > 0 || self.block_size == 0,
        ensures
            result_text(r) == validate_spec(*self, sector_size, ns_list@),
    {
        if self.block_size == 0 {
            proof {
                reveal_strlit("block-size must be > 0");
            }
            return Err(String::from_str("block-size must be > 0"));
        }
        if self.block_size % (sector_size as usize) != 0 {
            return Err(not_multiple_text(self.block_size, sector_size));
        }
        if self.threads < 1 {
            proof {
                reveal_strlit("threads must be >= 1");
            }
            return Err(String::from_str("threads must be >= 1"));
        }
        if self.duration < 1 {
            proof {
                reveal_strlit("duration must be >= 1");
            }
            return Err(String::from_str("duration must be >= 1"));
        }
        if self.queue_depth < 1 {
            proof {
                reveal_strlit("queue-depth must be >= 1");
            }
            return Err(String::from_str("queue-depth must be >= 1"));
        }
        if !find_ns_id(ns_list, self.ns_id) {
            return Err(ns_not_found_text(ns_list, self.ns_id));
        }
        let _ = max_qd;
        Ok(())
    }

    /// Lowers the queue depth to the device maximum `max_qd` when it is
    /// above it; returns whether it did, so the caller can warn.
    pub fn clamp_queue_depth(&mut self, max_qd: u32) -> (clamped: bool)
        ensures
            clamped == (old(self).queue_depth > max_qd),
            final(self).queue_depth == if clamped { max_qd } else { old(self).queue_depth },
            final(self).op == old(self).op,
            final(self).block_size == old(self).block_size,
            final(self).threads == old(self).threads,
            final(self).duration == old(self).duration,
            final(self).ns_id == old(self).ns_id,
            final(self).pci_addr == old(self).pci_addr,
            final(self).pattern == old(self).pattern,
            final(self).quiet == old(self).quiet,
    {
        if self.queue_depth > max_qd {
            self.queue_depth = max_qd;
            true
        } else {
            false
        }
    }
}

/// A configuration passes validation exactly when its block size is a
/// positive multiple of the sector size, there is at least one thread,
/// the run lasts at least a second, the queue depth is at least one and
/// the namespace exists.
pub proof fn law_validate_accepts_exactly(c: BenchConfig, ss: u32, ns: Seq<NamespaceInfo>)
    requires
        ss > 0,
    ensures
        validate_spec(c, ss, ns) is Ok <==> {
            &&& c.block_size > 0
            &&& c.block_size % (ss as usize) == 0
            &&& c.threads >= 1
            &&& c.duration >= 1
            &&& c.queue_depth >= 1
            &&& exists|i: int| 0 <= i < ns.len() && ns[i].ns_id == c.ns_id
        },
{
}

} // verus!
