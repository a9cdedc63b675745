use vstd::prelude::*;

use crate::messages::{make_error, ErrView, ErrorKind};
use crate::nvme::{version_text, ControllerSnapshot, NvmeBlockError};

verus! {

/// The component side of an NVMe block device: the controller snapshot
/// taken at initialization, if any, and the next client id to hand out.
pub struct BlockDeviceState {
    snapshot: Option<ControllerSnapshot>,
    next_client_id: u64,
}

/// The error for queries made before initialization.
pub open spec fn not_initialized_error() -> ErrView {
    ErrView { kind: ErrorKind::NotInitialized, msg: "call initialize() before using device methods"@ }
}

impl BlockDeviceState {
    /// The snapshot, `None` before initialization.
    pub closed spec fn snapshot_spec(&self) -> Option<ControllerSnapshot> {
        self.snapshot
    }

    /// The id the next client gets.
    pub closed spec fn next_id(&self) -> u64 {
        self.next_client_id
    }

    /// A device not yet initialized.
    pub fn new() -> (r: Self)
        ensures
            r.snapshot_spec() is None,
            r.next_id() == 0,
    {
        BlockDeviceState { snapshot: None, next_client_id: 0 }
    }

    /// Records the controller snapshot taken at initialization.
    pub fn set_snapshot(&mut self, snapshot: ControllerSnapshot)
        ensures
            final(self).snapshot_spec() == Some(snapshot),
            final(self).next_id() == old(self).next_id(),
    {
        self.snapshot = Some(snapshot);
    }

    /// The snapshot, or `NotInitialized` before initialization.
    pub fn controller_snapshot(&self) -> (r: Result<ControllerSnapshot, NvmeBlockError>)
        ensures
            match self.snapshot_spec() {
                Some(s) => r == Ok::<ControllerSnapshot, NvmeBlockError>(s),
                None => r matches Err(e) && e@ == not_initialized_error(),
            },
    {
        match self.snapshot {
            Some(s) => Ok(s),
            None => {
                proof {
                    reveal_strlit("call initialize() before using device methods");
                }
                Err(make_error(
                    ErrorKind::NotInitialized,
                    String::from_str("call initialize() before using device methods"),
                ))
            },
        }
    }

    /// The sector size; the namespace id is not consulted.
    pub fn sector_size(&self, ns_id: u32) -> (r: Result<u32, NvmeBlockError>)
        ensures
            match self.snapshot_spec() {
                Some(s) => r == Ok::<u32, NvmeBlockError>(s.sector_size),
                None => r matches Err(e) && e@ == not_initialized_error(),
            },
    {
        let s = self.controller_snapshot()?;
        Ok(s.sector_size)
    }

    /// The number of sectors; the namespace id is not consulted.
    pub fn num_sectors(&self, ns_id: u32) -> (r: Result<u64, NvmeBlockError>)
        ensures
            match self.snapshot_spec() {
                Some(s) => r == Ok::<u64, NvmeBlockError>(s.num_sectors),
                None => r matches Err(e) && e@ == not_initialized_error(),
            },
    {
        let s = self.controller_snapshot()?;
        Ok(s.num_sectors)
    }

    /// The maximum queue depth, 0 before initialization.
    pub fn max_queue_depth(&self) -> (r: u32)
        ensures
            r == match self.snapshot_spec() {
                Some(s) => s.max_queue_depth,
                None => 0,
            },
    {
        match self.snapshot {
            Some(s) => s.max_queue_depth,
            None => 0,
        }
    }

    /// The number of IO queues, 0 before initialization.
    pub fn num_io_queues(&self) -> (r: u32)
        ensures
            r == match self.snapshot_spec() {
                Some(s) => s.num_io_queues,
                None => 0,
            },
    {
        match self.snapshot {
            Some(s) => s.num_io_queues,
            None => 0,
        }
    }

    /// The maximum transfer size, 0 before initialization.
    pub fn max_transfer_size(&self) -> (r: u32)
        ensures
            r == match self.snapshot_spec() {
                Some(s) => s.max_transfer_size,
                None => 0,
            },
    {
        match self.snapshot {
            Some(s) => s.max_transfer_size,
            None => 0,
        }
    }

    /// The block size, 512 before initialization.
    pub fn block_size(&self) -> (r: u32)
        ensures
            r == match self.snapshot_spec() {
                Some(s) => s.block_size,
                None => 512,
            },
    {
        match self.snapshot {
            Some(s) => s.block_size,
            None => 512,
        }
    }

    /// The NUMA node, -1 before initialization.
    pub fn numa_node(&self) -> (r: i32)
        ensures
            r == match self.snapshot_spec() {
                Some(s) => s.numa_node as int,
                None => -1int,
            },
    {
        match self.snapshot {
            Some(s) => s.numa_node,
            None => -1,
        }
    }

    /// The NVMe version as text, `unknown` before initialization.
    pub fn nvme_version(&self) -> (r: String)
        ensures
            r@ == match self.snapshot_spec() {
                Some(s) => version_text(s.nvme_version),
                None => "unknown"@,
            },
    {
        match self.snapshot {
            Some(s) => s.nvme_version.to_string(),
            None => String::from_str("unknown"),
        }
    }

    /// Hands out the id of a new client, or `NotInitialized` before
    /// initialization. Ids count up from 0.
    pub fn connect_client(&mut self) -> (r: Result<u64, NvmeBlockError>)
        requires
            old(self).next_id() < u64::MAX,
        ensures
            final(self).snapshot_spec() == old(self).snapshot_spec(),
            match old(self).snapshot_spec() {
                Some(_) => r == Ok::<u64, NvmeBlockError>(old(self).next_id())
                    && final(self).next_id() == old(self).next_id() + 1,
                None => r matches Err(e) && e@ == (ErrView {
                    kind: ErrorKind::NotInitialized,
                    msg: "call initialize() before connecting clients"@,
                }) && final(self).next_id() == old(self).next_id(),
            },
    {
        if self.snapshot.is_none() {
            proof {
                reveal_strlit("call initialize() before connecting clients");
            }
            return Err(make_error(
                ErrorKind::NotInitialized,
                String::from_str("call initialize() before connecting clients"),
            ));
        }
        let id = self.next_client_id;
        self.next_client_id = id + 1;
        Ok(id)
    }
}

/// The first check of initialization: the environment component must be
/// wired in (`env_connected`) before the controller is probed.
pub fn check_env_connected(env_connected: bool) -> (r: Result<(), NvmeBlockError>)
    ensures
        env_connected ==> r is Ok,
        !env_connected ==> (r matches Err(e) && e@ == (ErrView {
            kind: ErrorKind::NotInitialized,
            msg: "spdk_env receptacle not connected \u{2014} wire ISPDKEnv before calling initialize()"@,
        })),
{
    if env_connected {
        Ok(())
    } else {
        proof {
            reveal_strlit("spdk_env receptacle not connected \u{2014} wire ISPDKEnv before calling initialize()");
        }
        Err(make_error(
            ErrorKind::NotInitialized,
            String::from_str("spdk_env receptacle not connected \u{2014} wire ISPDKEnv before calling initialize()"),
        ))
    }
}

} // verus!
