use vstd::prelude::*;

use crate::numfmt::{append_decimal, dec};

verus! {

/// NVMe specification version reported by a controller.
#[derive(Debug, Clone, Copy, PartialEq, Eq, Structural)]
pub struct NvmeVersion {
    /// Major version number.
    pub major: u16,
    /// Minor version number.
    pub minor: u8,
    /// Tertiary (patch) version number.
    pub tertiary: u8,
}

/// The text `major.minor.tertiary` of a version.
pub open spec fn version_text(v: NvmeVersion) -> Seq<char> {
    dec(v.major as nat) + seq!['.'] + dec(v.minor as nat) + seq!['.'] + dec(v.tertiary as nat)
}

impl NvmeVersion {
    /// Renders the version as `major.minor.tertiary`, e.g. `"1.4.0"`.
    pub fn to_string(&self) -> (r: String)
        ensures
            r@ == version_text(*self),
    {
        proof {
            reveal_strlit(".");
        }
        let mut s = String::new();
        append_decimal(&mut s, self.major as u64);
        s.append(".");
        append_decimal(&mut s, self.minor as u64);
        s.append(".");
        append_decimal(&mut s, self.tertiary as u64);
        proof {
            assert(s@ =~= version_text(*self));
        }
        s
    }
}

/// Information about a namespace discovered on a controller.
#[derive(Debug, Clone, Copy, PartialEq, Eq, Structural)]
pub struct NvmeNamespaceInfo {
    /// NVMe namespace identifier.
    pub ns_id: u32,
    /// Total number of sectors in this namespace.
    pub num_sectors: u64,
    /// Sector size in bytes.
    pub sector_size: u32,
}

impl NvmeNamespaceInfo {
    /// Total capacity in bytes: sectors times sector size.
    pub fn capacity_bytes(&self) -> (r: u64)
        requires
            self.num_sectors * self.sector_size <= u64::MAX,
        ensures
            r == self.num_sectors * self.sector_size,
    {
        self.num_sectors * self.sector_size as u64
    }
}

/// Namespace information handed to clients.
#[derive(Debug, Clone, Copy, PartialEq, Eq, Structural)]
pub struct NamespaceInfo {
    /// NVMe namespace identifier.
    pub ns_id: u32,
    /// Total number of sectors in this namespace.
    pub num_sectors: u64,
    /// Sector size in bytes.
    pub sector_size: u32,
}

/// A snapshot of controller properties taken at initialization time.
#[derive(Debug, Clone, Copy, PartialEq, Eq, Structural)]
pub struct ControllerSnapshot {
    /// Sector size of the default namespace.
    pub sector_size: u32,
    /// Number of sectors in the default namespace.
    pub num_sectors: u64,
    /// Maximum queue depth.
    pub max_queue_depth: u32,
    /// Number of IO queues.
    pub num_io_queues: u32,
    /// Maximum transfer size in bytes.
    pub max_transfer_size: u32,
    /// Block size (same as sector size for NVMe).
    pub block_size: u32,
    /// NUMA node of the controller.
    pub numa_node: i32,
    /// NVMe specification version.
    pub nvme_version: NvmeVersion,
}

/// Errors reported by the block device layer.
#[derive(Debug, Clone)]
pub enum BlockDeviceError {
    /// A read command failed.
    ReadFailed(String),
    /// A write command failed.
    WriteFailed(String),
    /// Probing or resetting the controller failed.
    ProbeFailure(String),
    /// A queue pair could not be allocated.
    QpairAllocationFailed(String),
}

/// Errors of the NVMe block device component.
#[derive(Debug, Clone)]
pub enum NvmeBlockError {
    /// The component is not initialized.
    NotInitialized(String),
    /// The namespace does not exist.
    InvalidNamespace(String),
    /// The LBA range lies outside the namespace.
    LbaOutOfRange(String),
    /// The client disconnected or a channel could not be created.
    ClientDisconnected(String),
    /// The operation was aborted.
    Aborted(String),
    /// The operation is not supported by the controller.
    NotSupported(String),
    /// A block device level failure.
    BlockDevice(BlockDeviceError),
}

/// Message of the error for an unknown namespace.
pub open spec fn invalid_namespace_msg(ns_id: u32) -> Seq<char> {
    "namespace "@ + dec(ns_id as nat) + " not found \u{2014} use NsProbe to discover available namespaces"@
}

/// Message of the error for an LBA range past the namespace end.
pub open spec fn lba_out_of_range_msg(ns: NvmeNamespaceInfo, lba: u64, num_blocks: u64) -> Seq<char> {
    "lba="@ + dec(lba as nat) + " + num_blocks="@ + dec(num_blocks as nat) + " = "@
        + dec((lba + num_blocks) as nat) + " exceeds namespace "@ + dec(ns.ns_id as nat)
        + "'s sector count "@ + dec(ns.num_sectors as nat)
}

/// Index of the first namespace with the given id, if any.
pub open spec fn find_ns(namespaces: Seq<NvmeNamespaceInfo>, ns_id: u32) -> Option<int> {
    if exists|i: int| 0 <= i < namespaces.len() && namespaces[i].ns_id == ns_id {
        Some(choose|i: int|
            0 <= i < namespaces.len() && namespaces[i].ns_id == ns_id
                && forall|j: int| 0 <= j < i ==> namespaces[j].ns_id != ns_id)
    } else {
        None
    }
}

/// Some namespace at or before index `k` is the first with id `ns_id`.
proof fn lemma_first_match(namespaces: Seq<NvmeNamespaceInfo>, ns_id: u32, k: int)
    requires
        0 <= k < namespaces.len(),
        namespaces[k].ns_id == ns_id,
    ensures
        exists|i: int|
            0 <= i < namespaces.len() && namespaces[i].ns_id == ns_id
                && forall|j: int| 0 <= j < i ==> namespaces[j].ns_id != ns_id,
    decreases k,
{
    if exists|j: int| 0 <= j < k && namespaces[j].ns_id == ns_id {
        let j = choose|j: int| 0 <= j < k && namespaces[j].ns_id == ns_id;
        lemma_first_match(namespaces, ns_id, j);
    } else {
        assert(forall|j: int| 0 <= j < k ==> namespaces[j].ns_id != ns_id);
    }
}

/// `find_ns` yields the first match.
pub proof fn lemma_find_ns(namespaces: Seq<NvmeNamespaceInfo>, ns_id: u32)
    ensures
        match find_ns(namespaces, ns_id) {
            Some(i) => 0 <= i < namespaces.len() && namespaces[i].ns_id == ns_id
                && forall|j: int| 0 <= j < i ==> namespaces[j].ns_id != ns_id,
            None => forall|j: int| 0 <= j < namespaces.len() ==> namespaces[j].ns_id != ns_id,
        },
{
    if exists|i: int| 0 <= i < namespaces.len() && namespaces[i].ns_id == ns_id {
        let w = choose|i: int| 0 <= i < namespaces.len() && namespaces[i].ns_id == ns_id;
        lemma_first_match(namespaces, ns_id, w);
    }
}

/// Builds the error for an unknown namespace.
fn invalid_namespace_error(ns_id: u32) -> (e: NvmeBlockError)
    ensures
        e matches NvmeBlockError::InvalidNamespace(m) && m@ == invalid_namespace_msg(ns_id),
{
    let mut s = String::from_str("namespace ");
    append_decimal(&mut s, ns_id as u64);
    s.append(" not found \u{2014} use NsProbe to discover available namespaces");
    NvmeBlockError::InvalidNamespace(s)
}

/// Finds the namespace `ns_id` among `namespaces`.
///
/// Returns the first namespace with that id, or `InvalidNamespace` when
/// there is none.
pub fn validate_ns_id(namespaces: &Vec<NvmeNamespaceInfo>, ns_id: u32) -> (r: Result<
    NvmeNamespaceInfo,
    NvmeBlockError,
>)
    ensures
        match r {
            Ok(ns) => find_ns(namespaces@, ns_id) matches Some(i) && ns == namespaces@[i],
            Err(e) => find_ns(namespaces@, ns_id) is None
                && (e matches NvmeBlockError::InvalidNamespace(m) && m@ == invalid_namespace_msg(ns_id)),
        },
{
    proof {
        lemma_find_ns(namespaces@, ns_id);
    }
    let mut i: usize = 0;
    while i < namespaces.len()
        invariant
            0 <= i <= namespaces.len(),
            forall|j: int| 0 <= j < i ==> namespaces@[j].ns_id != ns_id,
        decreases namespaces.len() - i,
    {
        if namespaces[i].ns_id == ns_id {
            return Ok(namespaces[i]);
        }
        i = i + 1;
    }
    Err(invalid_namespace_error(ns_id))
}

/// Checks that `num_blocks` blocks starting at `lba` lie inside `ns`.
pub fn validate_lba_range(ns: &NvmeNamespaceInfo, lba: u64, num_blocks: u64) -> (r: Result<
    (),
    NvmeBlockError,
>)
    requires
        lba + num_blocks <= u64::MAX,
    ensures
        r is Ok <==> lba + num_blocks <= ns.num_sectors,
        r matches Err(e) ==> (e matches NvmeBlockError::LbaOutOfRange(m)
            && m@ == lba_out_of_range_msg(*ns, lba, num_blocks)),
{
    if lba + num_blocks > ns.num_sectors {
        let mut s = String::from_str("lba=");
        append_decimal(&mut s, lba);
        s.append(" + num_blocks=");
        append_decimal(&mut s, num_blocks);
        s.append(" = ");
        append_decimal(&mut s, lba + num_blocks);
        s.append(" exceeds namespace ");
        append_decimal(&mut s, ns.ns_id as u64);
        s.append("'s sector count ");
        append_decimal(&mut s, ns.num_sectors);
        proof {
            assert(s@ =~= lba_out_of_range_msg(*ns, lba, num_blocks));
        }
        return Err(NvmeBlockError::LbaOutOfRange(s));
    }
    Ok(())
}

/// Converts internal namespace info to the client-facing type.
pub fn to_namespace_info(ns: &NvmeNamespaceInfo) -> (r: NamespaceInfo)
    ensures
        r == client_ns(*ns),
{
    NamespaceInfo { ns_id: ns.ns_id, num_sectors: ns.num_sectors, sector_size: ns.sector_size }
}

/// The client-facing view of a namespace.
pub open spec fn client_ns(ns: NvmeNamespaceInfo) -> NamespaceInfo {
    NamespaceInfo { ns_id: ns.ns_id, num_sectors: ns.num_sectors, sector_size: ns.sector_size }
}

/// The client-facing view of a list of namespaces.
pub open spec fn client_ns_list(s: Seq<NvmeNamespaceInfo>) -> Seq<NamespaceInfo> {
    s.map_values(|ns: NvmeNamespaceInfo| client_ns(ns))
}

/// Converts a list of internal namespace infos to client-facing types.
pub fn to_namespace_info_list(namespaces: &Vec<NvmeNamespaceInfo>) -> (r: Vec<NamespaceInfo>)
    ensures
        r@ == client_ns_list(namespaces@),
{
    let mut out: Vec<NamespaceInfo> = Vec::new();
    let mut i: usize = 0;
    while i < namespaces.len()
        invariant
            0 <= i <= namespaces.len(),
            out@ == namespaces@.subrange(0, i as int).map_values(|ns: NvmeNamespaceInfo| client_ns(ns)),
        decreases namespaces.len() - i,
    {
        out.push(to_namespace_info(&namespaces[i]));
        proof {
            assert(namespaces@.subrange(0, i + 1) == namespaces@.subrange(0, i as int).push(namespaces@[i as int]));
        }
        i = i + 1;
        proof {
            assert(out@ =~= namespaces@.subrange(0, i as int).map_values(|ns: NvmeNamespaceInfo| client_ns(ns)));
        }
    }
    proof {
        assert(namespaces@.subrange(0, i as int) =~= namespaces@);
    }
    out
}

} // verus!
