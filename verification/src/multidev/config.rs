use vstd::prelude::*;

use crate::nvme::NamespaceInfo;
use crate::numfmt::{append_decimal, append_list, dec, list_text};

verus! {

/// The IO operation a benchmark issues.
#[derive(Debug, Clone, Copy, PartialEq, Eq, Structural)]
pub enum OpType {
    /// All operations are reads.
    Read,
    /// All operations are writes.
    Write,
    /// A random mix of reads and writes.
    ReadWrite,
}

impl OpType {
    /// `read`, `write` or `readwrite`.
    pub fn to_string(&self) -> (r: String)
        ensures
            r@ == match *self {
                OpType::Read => "read"@,
                OpType::Write => "write"@,
                OpType::ReadWrite => "readwrite"@,
            },
    {
        match self {
            OpType::Read => String::from_str("read"),
            OpType::Write => String::from_str("write"),
            OpType::ReadWrite => String::from_str("readwrite"),
        }
    }
}

/// How commands are submitted.
#[derive(Debug, Clone, Copy, PartialEq, Eq, Structural)]
pub enum IoMode {
    /// Each command waits for its completion.
    Sync,
    /// Commands complete through a callback.
    Async,
}

impl IoMode {
    /// `sync` or `async`.
    pub fn to_string(&self) -> (r: String)
        ensures
            r@ == match *self {
                IoMode::Sync => "sync"@,
                IoMode::Async => "async"@,
            },
    {
        match self {
            IoMode::Sync => String::from_str("sync"),
            IoMode::Async => String::from_str("async"),
        }
    }
}

/// The block device driver version.
#[derive(Debug, Clone, Copy, PartialEq, Eq, Structural)]
pub enum Driver {
    V1,
    V2,
}

impl Driver {
    /// `v1` or `v2`.
    pub fn to_string(&self) -> (r: String)
        ensures
            r@ == match *self {
                Driver::V1 => "v1"@,
                Driver::V2 => "v2"@,
            },
    {
        match self {
            Driver::V1 => String::from_str("v1"),
            Driver::V2 => String::from_str("v2"),
        }
    }
}

/// The access pattern over the device's blocks.
#[derive(Debug, Clone, Copy, PartialEq, Eq, Structural)]
pub enum Pattern {
    /// A uniformly random block address per operation.
    Random,
    /// Contiguous addresses in a region of its own per thread.
    Sequential,
}

impl Pattern {
    /// `random` or `sequential`.
    pub fn to_string(&self) -> (r: String)
        ensures
            r@ == match *self {
                Pattern::Random => "random"@,
                Pattern::Sequential => "sequential"@,
            },
    {
        match self {
            Pattern::Random => String::from_str("random"),
            Pattern::Sequential => String::from_str("sequential"),
        }
    }
}

/// Configuration of a multi-device IOPS benchmark run.
#[derive(Debug, Clone)]
pub struct BenchConfig {
    /// Operation type.
    pub op: OpType,
    /// Block sizes in bytes; each IO picks one.
    pub block_sizes: Vec<usize>,
    /// IOs submitted together as one batch.
    pub batch_size: u32,
    /// Outstanding IOs per thread.
    pub queue_depth: u32,
    /// Concurrent client threads.
    pub threads: u32,
    /// Run time in seconds.
    pub duration: u64,
    /// Number of devices.
    pub num_devices: u32,
    /// PCI addresses of the controllers, if given.
    pub pci_addrs: Vec<String>,
    /// Namespace ids, one per device; the last is reused for the rest.
    pub ns_ids: Vec<u32>,
    /// Access pattern.
    pub pattern: Pattern,
    /// Submission mode.
    pub io_mode: IoMode,
    /// Whether per-second progress is suppressed.
    pub quiet: bool,
    /// Driver version.
    pub driver: Driver,
}

/// The error of the first block size in `bss` that is zero or not a
/// multiple of `ss`, if any.
pub open spec fn block_sizes_error(bss: Seq<usize>, ss: u32) -> Option<Seq<char>>
    decreases bss.len(),
{
    if bss.len() == 0 {
        None
    } else if bss[0] == 0 {
        Some("block-size must be > 0"@)
    } else if bss[0] % (ss as usize) != 0 {
        Some("block-size "@ + dec(bss[0] as nat) + " is not a multiple of device sector size "@ + dec(ss as nat))
    } else {
        block_sizes_error(bss.drop_first(), ss)
    }
}

/// The ids of a list of namespaces.
pub open spec fn ns_id_list(ns: Seq<NamespaceInfo>) -> Seq<u32> {
    ns.map_values(|n: NamespaceInfo| n.ns_id)
}

/// Whether `ns` has a namespace with id `id`.
pub open spec fn has_ns(ns: Seq<NamespaceInfo>, id: u32) -> bool {
    exists|i: int| 0 <= i < ns.len() && ns[i].ns_id == id
}

/// The outcome of validating `c` against a device with `ss`-byte sectors
/// and namespaces `ns`, for namespace `ns_id`: the first rule broken, in
/// this order, gives the error.
pub open spec fn validate_spec(c: BenchConfig, ss: u32, ns: Seq<NamespaceInfo>, ns_id: u32) -> Result<(), Seq<char>> {
    if c.block_sizes@.len() == 0 {
        Err("block-size must specify at least one size"@)
    } else if block_sizes_error(c.block_sizes@, ss) is Some {
        Err(block_sizes_error(c.block_sizes@, ss)->0)
    } else if c.threads < 1 {
        Err("threads must be >= 1"@)
    } else if c.duration < 1 {
        Err("duration must be >= 1"@)
    } else if c.queue_depth < 1 {
        Err("queue-depth must be >= 1"@)
    } else if c.batch_size < 1 {
        Err("batch-size must be >= 1"@)
    } else if c.batch_size > c.queue_depth {
        Err("batch-size "@ + dec(c.batch_size as nat) + " exceeds queue-depth "@ + dec(c.queue_depth as nat))
    } else if !has_ns(ns, ns_id) {
        Err("namespace "@ + dec(ns_id as nat) + " not found (available: "@ + list_text(ns_id_list(ns)) + ")"@)
    } else {
        Ok(())
    }
}

/// The view of a validation result.
pub open spec fn result_text(r: Result<(), String>) -> Result<(), Seq<char>> {
    match r {
        Ok(()) => Ok(()),
        Err(s) => Err(s@),
    }
}

/// The largest element of a non-empty sequence.
pub open spec fn seq_max(s: Seq<usize>) -> usize
    decreases s.len(),
{
    if s.len() <= 1 {
        s[0]
    } else if s.last() >= seq_max(s.drop_last()) {
        s.last()
    } else {
        seq_max(s.drop_last())
    }
}

/// The ids of namespaces as a vector.
fn collect_ids(ns_list: &[NamespaceInfo]) -> (r: Vec<u32>)
    ensures
        r@ == ns_id_list(ns_list@),
{
    let mut r: Vec<u32> = Vec::new();
    let mut i: usize = 0;
    while i < ns_list.len()
        invariant
            i <= ns_list@.len(),
            r@ == ns_id_list(ns_list@.take(i as int)),
        decreases ns_list@.len() - i,
    {
        r.push(ns_list[i].ns_id);
        i = i + 1;
        proof {
            assert(r@ =~= ns_id_list(ns_list@.take(i as int)));
        }
    }
    proof {
        assert(ns_list@.take(i as int) =~= ns_list@);
    }
    r
}

/// Whether some namespace in `ns_list` has id `id`.
pub fn find_ns_id(ns_list: &[NamespaceInfo], id: u32) -> (r: bool)
    ensures
        r == has_ns(ns_list@, id),
{
    let mut i: usize = 0;
    while i < ns_list.len()
        invariant
            i <= ns_list@.len(),
            forall|j: int| 0 <= j < i ==> ns_list@[j].ns_id != id,
        decreases ns_list@.len() - i,
    {
        if ns_list[i].ns_id == id {
            return true;
        }
        i = i + 1;
    }
    false
}

/// The error text `namespace <id> not found (available: [..])`.
pub fn ns_not_found_text(ns_list: &[NamespaceInfo], ns_id: u32) -> (r: String)
    ensures
        r@ == "namespace "@ + dec(ns_id as nat) + " not found (available: "@ + list_text(ns_id_list(ns_list@)) + ")"@,
{
    let ids = collect_ids(ns_list);
    let mut s = String::from_str("namespace ");
    append_decimal(&mut s, ns_id as u64);
    s.append(" not found (available: ");
    append_list(&mut s, &ids);
    s.append(")");
    proof {
        assert(s@ =~= "namespace "@ + dec(ns_id as nat) + " not found (available: "@ + list_text(ns_id_list(ns_list@)) + ")"@);
    }
    s
}

/// The error text of a block size that is not a multiple of the sector size.
pub fn not_multiple_text(bs: usize, sector_size: u32) -> (r: String)
    ensures
        r@ == "block-size "@ + dec(bs as nat) + " is not a multiple of device sector size "@ + dec(sector_size as nat),
{
    let mut s = String::from_str("block-size ");
    append_decimal(&mut s, bs as u64);
    s.append(" is not a multiple of device sector size ");
    append_decimal(&mut s, sector_size as u64);
    proof {
        assert(s@ =~= "block-size "@ + dec(bs as nat) + " is not a multiple of device sector size "@ + dec(sector_size as nat));
    }
    s
}

/// The largest element of a non-empty vector.
pub fn largest(v: &Vec<usize>) -> (r: usize)
    requires
        v@.len() > 0,
    ensures
        r == seq_max(v@),
        v@.contains(r),
        forall|i: int| 0 <= i < v@.len() ==> v@[i] <= r,
{
    let mut m = v[0];
    let mut i: usize = 1;
    proof {
        assert(v@.take(1).drop_last() =~= Seq::<usize>::empty());
        assert(seq_max(v@.take(1)) == v@[0]);
    }
    while i < v.len()
        invariant
            1 <= i <= v@.len(),
            m == seq_max(v@.take(i as int)),
            v@.take(i as int).contains(m),
            forall|j: int| 0 <= j < i ==> v@[j] <= m,
        decreases v@.len() - i,
    {
        let ghost t = v@.take(i + 1);
        proof {
            assert(t.drop_last() =~= v@.take(i as int));
            assert(t.last() == v@[i as int]);
        }
        if v[i] >= m {
            m = v[i];
            proof {
                assert(t[i as int] == m);
            }
        } else {
            proof {
                let k = choose|k: int| 0 <= k < i && v@.take(i as int)[k] == m;
                assert(t[k] == m);
            }
        }
        i = i + 1;
    }
    proof {
        assert(v@.take(i as int) =~= v@);
    }
    m
}

impl BenchConfig {
    /// The namespace id of device number `device_idx`: its own entry, or
    /// the last entry for devices past the list.
    pub fn ns_id_for_device(&self, device_idx: usize) -> (r: u32)
        requires
            self.ns_ids@.len() > 0,
        ensures
            r == if device_idx < self.ns_ids@.len() {
                self.ns_ids@[device_idx as int]
            } else {
                self.ns_ids@.last()
            },
    {
        if device_idx < self.ns_ids.len() {
            self.ns_ids[device_idx]
        } else {
            self.ns_ids[self.ns_ids.len() - 1]
        }
    }

    /// Takes the device count from the PCI addresses when they are given
    /// and the count was left at its default of 1.
    pub fn resolve_num_devices(&mut self)
        ensures
            final(self).num_devices == if old(self).pci_addrs@.len() > 0 && old(self).num_devices == 1 {
                old(self).pci_addrs@.len() as u32
            } else {
                old(self).num_devices
            },
            final(self).op == old(self).op,
            final(self).block_sizes@ == old(self).block_sizes@,
            final(self).batch_size == old(self).batch_size,
            final(self).queue_depth == old(self).queue_depth,
            final(self).threads == old(self).threads,
            final(self).duration == old(self).duration,
            final(self).pci_addrs@ == old(self).pci_addrs@,
            final(self).ns_ids@ == old(self).ns_ids@,
            final(self).pattern == old(self).pattern,
            final(self).io_mode == old(self).io_mode,
            final(self).quiet == old(self).quiet,
            final(self).driver == old(self).driver,
    {
        if self.pci_addrs.len() > 0 && self.num_devices == 1 {
            self.num_devices = self.pci_addrs.len() as u32;
        }
    }

    /// Checks the configuration against a device with `sector_size`-byte
    /// sectors and namespaces `ns_list`, for namespace `ns_id` (see
    /// `validate_spec`). `max_qd` takes no part: the queue depth is clamped
    /// separately.
    pub fn validate(&self, sector_size: u32, max_qd: u32, ns_list: &[NamespaceInfo], ns_id: u32) -> (r: Result<(), String>)
        requires
            sector_size > 0 || self.block_sizes@.len() == 0 || self.block_sizes@[0] == 0,
        ensures
            result_text(r) == validate_spec(*self, sector_size, ns_list@, ns_id),
    {
        if self.block_sizes.len() == 0 {
            proof {
                reveal_strlit("block-size must specify at least one size");
            }
            return Err(String::from_str("block-size must specify at least one size"));
        }
        let mut i: usize = 0;
        proof {
            assert(self.block_sizes@.skip(0) =~= self.block_sizes@);
        }
        while i < self.block_sizes.len()
            invariant
                i <= self.block_sizes@.len(),
                self.block_sizes@.len() > 0,
                sector_size > 0 || self.block_sizes@[0] == 0,
                block_sizes_error(self.block_sizes@, sector_size)
                    == block_sizes_error(self.block_sizes@.skip(i as int), sector_size),
                i > 0 ==> sector_size > 0,
            decreases self.block_sizes@.len() - i,
        {
            let bs = self.block_sizes[i];
            let ghost rest = self.block_sizes@.skip(i as int);
            proof {
                assert(rest[0] == bs);
                assert(rest.drop_first() =~= self.block_sizes@.skip(i + 1));
            }
            if bs == 0 {
                proof {
                    reveal_strlit("block-size must be > 0");
                }
                return Err(String::from_str("block-size must be > 0"));
            }
            if bs % (sector_size as usize) != 0 {
                return Err(not_multiple_text(bs, sector_size));
            }
            i = i + 1;
        }
        proof {
            assert(self.block_sizes@.skip(i as int).len() == 0);
        }
        if self.threads < 1 {
            proof {
                reveal_strlit("threads must be >= 1");
            }
            return Err(String::from_str("threads must be >= 1"));
        }
        if self.duration < 1 {
            proof {
                reveal_strlit("duration must be >= 1");
            }
            return Err(String::from_str("duration must be >= 1"));
        }
        if self.queue_depth < 1 {
            proof {
                reveal_strlit("queue-depth must be >= 1");
            }
            return Err(String::from_str("queue-depth must be >= 1"));
        }
        if self.batch_size < 1 {
            proof {
                reveal_strlit("batch-size must be >= 1");
            }
            return Err(String::from_str("batch-size must be >= 1"));
        }
        if self.batch_size > self.queue_depth {
            let mut s = String::from_str("batch-size ");
            append_decimal(&mut s, self.batch_size as u64);
            s.append(" exceeds queue-depth ");
            append_decimal(&mut s, self.queue_depth as u64);
            proof {
                assert(s@ =~= "batch-size "@ + dec(self.batch_size as nat) + " exceeds queue-depth "@
                    + dec(self.queue_depth as nat));
            }
            return Err(s);
        }
        if !find_ns_id(ns_list, ns_id) {
            return Err(ns_not_found_text(ns_list, ns_id));
        }
        let _ = max_qd;
        Ok(())
    }

    /// The largest configured block size.
    pub fn max_block_size(&self) -> (r: usize)
        requires
            self.block_sizes@.len() > 0,
        ensures
            r == seq_max(self.block_sizes@),
            self.block_sizes@.contains(r),
            forall|i: int| 0 <= i < self.block_sizes@.len() ==> self.block_sizes@[i] <= r,
    {
        largest(&self.block_sizes)
    }

    /// Lowers the queue depth to the device maximum `max_qd` when it is
    /// above it; returns whether it did, so the caller can warn.
    pub fn clamp_queue_depth(&mut self, max_qd: u32) -> (clamped: bool)
        ensures
            clamped == (old(self).queue_depth > max_qd),
            final(self).queue_depth == if clamped { max_qd } else { old(self).queue_depth },
            final(self).op == old(self).op,
            final(self).block_sizes@ == old(self).block_sizes@,
            final(self).batch_size == old(self).batch_size,
            final(self).threads == old(self).threads,
            final(self).duration == old(self).duration,
            final(self).num_devices == old(self).num_devices,
            final(self).pci_addrs@ == old(self).pci_addrs@,
            final(self).ns_ids@ == old(self).ns_ids@,
            final(self).pattern == old(self).pattern,
            final(self).io_mode == old(self).io_mode,
            final(self).quiet == old(self).quiet,
            final(self).driver == old(self).driver,
    {
        if self.queue_depth > max_qd {
            self.queue_depth = max_qd;
            true
        } else {
            false
        }
    }
}

/// When no block size is flagged, every block size is a positive multiple
/// of the sector size; when one is not, one is flagged.
proof fn lemma_block_sizes_error(bss: Seq<usize>, ss: u32)
    requires
        ss > 0,
    ensures
        block_sizes_error(bss, ss) is None <==> forall|i: int| 0 <= i < bss.len() ==> #[trigger] bss[i] > 0 && bss[i]
            % (ss as usize) == 0,
    decreases bss.len(),
{
    if bss.len() > 0 {
        lemma_block_sizes_error(bss.drop_first(), ss);
        if block_sizes_error(bss, ss) is None {
            assert forall|i: int| 0 <= i < bss.len() implies #[trigger] bss[i] > 0 && bss[i] % (ss as usize) == 0 by {
                if i > 0 {
                    assert(bss[i] == bss.drop_first()[i - 1]);
                }
            }
        } else if bss[0] > 0 && bss[0] % (ss as usize) == 0 {
            let j = choose|j: int| 0 <= j < bss.drop_first().len() && !(#[trigger] bss.drop_first()[j] > 0
                && bss.drop_first()[j] % (ss as usize) == 0);
            assert(bss[j + 1] == bss.drop_first()[j]);
        }
    }
}

/// A configuration passes validation only when it names at least one
/// block size, every block size is a positive multiple of the sector size,
/// there is at least one thread, the run lasts at least a second, the
/// queue depth is at least one, the batch size is between one and the
/// queue depth, and the namespace exists; and every configuration that
/// meets all of these passes.
pub proof fn law_validate_accepts_exactly(c: BenchConfig, ss: u32, ns: Seq<NamespaceInfo>, ns_id: u32)
    requires
        ss > 0,
    ensures
        validate_spec(c, ss, ns, ns_id) is Ok <==> {
            &&& c.block_sizes@.len() > 0
            &&& forall|i: int| 0 <= i < c.block_sizes@.len() ==> #[trigger] c.block_sizes@[i] > 0
                && c.block_sizes@[i] % (ss as usize) == 0
            &&& c.threads >= 1
            &&& c.duration >= 1
            &&& 1 <= c.batch_size <= c.queue_depth
            &&& exists|i: int| 0 <= i < ns.len() && ns[i].ns_id == ns_id
        },
{
    lemma_block_sizes_error(c.block_sizes@, ss);
}

} // verus!
