use vstd::prelude::*;

verus! {

/// A staged cache entry waiting to be written to its data device.
#[derive(Debug, Clone, Copy, PartialEq, Eq, Structural)]
pub struct WriteJob {
    /// Cache key.
    pub key: u64,
    /// Size in bytes.
    pub size: u32,
    /// Index of the data device.
    pub device_index: usize,
}

/// Errors of the dispatcher.
#[derive(Debug, Clone)]
pub enum DispatcherError {
    NotInitialized(String),
    InvalidParameter(String),
    KeyNotFound(u64),
    AlreadyExists(u64),
    AllocationFailed(String),
    IoError(String),
}

/// The abstract value of a dispatcher error.
pub enum DispatcherErrorView {
    NotInitialized(Seq<char>),
    InvalidParameter(Seq<char>),
    KeyNotFound(u64),
    AlreadyExists(u64),
    AllocationFailed(Seq<char>),
    IoError(Seq<char>),
}

impl View for DispatcherError {
    type V = DispatcherErrorView;

    open spec fn view(&self) -> DispatcherErrorView {
        match self {
            DispatcherError::NotInitialized(m) => DispatcherErrorView::NotInitialized(m@),
            DispatcherError::InvalidParameter(m) => DispatcherErrorView::InvalidParameter(m@),
            DispatcherError::KeyNotFound(k) => DispatcherErrorView::KeyNotFound(*k),
            DispatcherError::AlreadyExists(k) => DispatcherErrorView::AlreadyExists(*k),
            DispatcherError::AllocationFailed(m) => DispatcherErrorView::AllocationFailed(m@),
            DispatcherError::IoError(m) => DispatcherErrorView::IoError(m@),
        }
    }
}

/// What the dispatch map found for a key.
#[derive(Debug, Clone, Copy, PartialEq, Eq, Structural)]
pub enum LookupKind {
    NotExist,
    MismatchSize,
    /// In a staging buffer.
    Staging,
    /// On the block device at `offset`.
    BlockDevice { offset: u64 },
}

/// Why the dispatch map refused to create a staging buffer; `Other`
/// carries the error's text.
#[derive(Debug, Clone)]
pub enum StagingError {
    AlreadyExists(u64),
    AllocationFailed(String),
    Other(String),
}

/// Number of 4 KiB blocks that hold `size` bytes.
pub open spec fn blocks_for(size: u32) -> int {
    (size + 4095) / 4096
}

/// The dispatcher's lifecycle: whether it is initialized.
pub struct Dispatcher {
    initialized: bool,
}

impl Dispatcher {
    /// Whether the dispatcher is initialized.
    pub closed spec fn is_initialized(&self) -> bool {
        self.initialized
    }

    /// A dispatcher not yet initialized.
    pub fn new() -> (r: Self)
        ensures
            !r.is_initialized(),
    {
        Dispatcher { initialized: false }
    }

    /// Initializes with `num_data_devices` data devices; `map_bound` says
    /// whether the dispatch map is connected. Fails with `NotInitialized`
    /// when it is not, then with `InvalidParameter` when no data device is
    /// given.
    pub fn initialize(&mut self, map_bound: bool, num_data_devices: usize) -> (r: Result<(), DispatcherError>)
        ensures
            !map_bound ==> (r matches Err(e) && e@ == DispatcherErrorView::NotInitialized("dispatch_map not bound"@)
                && final(self).is_initialized() == old(self).is_initialized()),
            map_bound && num_data_devices == 0 ==> (r matches Err(e) && e@ == DispatcherErrorView::InvalidParameter(
                "data_pci_addrs must not be empty"@) && final(self).is_initialized() == old(self).is_initialized()),
            map_bound && num_data_devices > 0 ==> r is Ok && final(self).is_initialized(),
    {
        if !map_bound {
            proof {
                reveal_strlit("dispatch_map not bound");
            }
            return Err(DispatcherError::NotInitialized(String::from_str("dispatch_map not bound")));
        }
        if num_data_devices == 0 {
            proof {
                reveal_strlit("data_pci_addrs must not be empty");
            }
            return Err(DispatcherError::InvalidParameter(String::from_str("data_pci_addrs must not be empty")));
        }
        self.initialized = true;
        Ok(())
    }

    /// Shuts the dispatcher down; it is no longer initialized.
    pub fn shutdown(&mut self)
        ensures
            !final(self).is_initialized(),
    {
        self.initialized = false;
    }

    /// `Ok` when initialized, else `NotInitialized`.
    pub fn ensure_initialized(&self) -> (r: Result<(), DispatcherError>)
        ensures
            self.is_initialized() ==> r is Ok,
            !self.is_initialized() ==> (r matches Err(e) && e@ == DispatcherErrorView::NotInitialized(
                "dispatcher not initialized"@)),
    {
        if !self.initialized {
            proof {
                reveal_strlit("dispatcher not initialized");
            }
            return Err(DispatcherError::NotInitialized(String::from_str("dispatcher not initialized")));
        }
        Ok(())
    }

    /// The first checks of a populate of `size` bytes: the dispatcher must
    /// be initialized, the size positive and the dispatch map connected.
    /// Gives the number of 4 KiB blocks to stage.
    pub fn populate_blocks(&self, size: u32, map_bound: bool) -> (r: Result<u32, DispatcherError>)
        ensures
            !self.is_initialized() ==> (r matches Err(e) && e@ == DispatcherErrorView::NotInitialized(
                "dispatcher not initialized"@)),
            self.is_initialized() && size == 0 ==> (r matches Err(e) && e@ == DispatcherErrorView::InvalidParameter(
                "IPC handle size must be > 0"@)),
            self.is_initialized() && size > 0 && !map_bound ==> (r matches Err(e)
                && e@ == DispatcherErrorView::NotInitialized("dispatch_map not bound"@)),
            self.is_initialized() && size > 0 && map_bound ==> r == Ok::<u32, DispatcherError>(blocks_for(size) as u32),
    {
        self.ensure_initialized()?;
        if size == 0 {
            proof {
                reveal_strlit("IPC handle size must be > 0");
            }
            return Err(DispatcherError::InvalidParameter(String::from_str("IPC handle size must be > 0")));
        }
        if !map_bound {
            proof {
                reveal_strlit("dispatch_map not bound");
            }
            return Err(DispatcherError::NotInitialized(String::from_str("dispatch_map not bound")));
        }
        Ok(size / 4096 + if size % 4096 == 0 { 0 } else { 1 })
    }
}

/// The dispatcher error for a refused staging buffer.
pub fn staging_error(e: StagingError) -> (r: DispatcherError)
    ensures
        r@ == match e {
            StagingError::AlreadyExists(k) => DispatcherErrorView::AlreadyExists(k),
            StagingError::AllocationFailed(m) => DispatcherErrorView::AllocationFailed(m@),
            StagingError::Other(m) => DispatcherErrorView::IoError(m@),
        },
{
    match e {
        StagingError::AlreadyExists(k) => DispatcherError::AlreadyExists(k),
        StagingError::AllocationFailed(m) => DispatcherError::AllocationFailed(m),
        StagingError::Other(m) => DispatcherError::IoError(m),
    }
}

/// Whether a key is cached, from what the dispatch map's lookup gave
/// (`None` when the lookup failed).
pub fn check_outcome(lookup: Option<LookupKind>) -> (r: bool)
    ensures
        r == (lookup matches Some(k) && k != LookupKind::NotExist),
{
    match lookup {
        Some(LookupKind::NotExist) => false,
        Some(_) => true,
        None => false,
    }
}

/// The result of a lookup of `key`: `took_read` says whether the read
/// reference was taken, `lookup` what the map found (`None` when the lookup
/// failed), `released` whether the reference was given back.
pub fn lookup_outcome(key: u64, took_read: bool, lookup: Option<LookupKind>, released: bool) -> (r: Result<(), DispatcherError>)
    ensures
        !took_read ==> (r matches Err(e) && e@ == DispatcherErrorView::KeyNotFound(key)),
        took_read && !released ==> (r matches Err(e) && e@ == DispatcherErrorView::IoError(
            "failed to release read lock"@)),
        took_read && released ==> match lookup {
            None => r matches Err(e) && e@ == DispatcherErrorView::KeyNotFound(key),
            Some(LookupKind::NotExist) => r matches Err(e) && e@ == DispatcherErrorView::KeyNotFound(key),
            Some(LookupKind::MismatchSize) => r matches Err(e) && e@ == DispatcherErrorView::InvalidParameter(
                "size mismatch on lookup"@),
            Some(_) => r is Ok,
        },
{
    if !took_read {
        return Err(DispatcherError::KeyNotFound(key));
    }
    if !released {
        proof {
            reveal_strlit("failed to release read lock");
        }
        return Err(DispatcherError::IoError(String::from_str("failed to release read lock")));
    }
    match lookup {
        None => Err(DispatcherError::KeyNotFound(key)),
        Some(LookupKind::NotExist) => Err(DispatcherError::KeyNotFound(key)),
        Some(LookupKind::MismatchSize) => {
            proof {
                reveal_strlit("size mismatch on lookup");
            }
            Err(DispatcherError::InvalidParameter(String::from_str("size mismatch on lookup")))
        },
        Some(_) => Ok(()),
    }
}

/// The result of a remove of `key`: `took_write` says whether the write
/// reference was taken, `removed` whether the map dropped the entry. The
/// flag says whether the write reference must be given back, which is so
/// when the map kept the entry after the reference was taken.
pub fn remove_outcome(key: u64, took_write: bool, removed: bool) -> (r: (Result<(), DispatcherError>, bool))
    ensures
        !took_write ==> (r.0 matches Err(e) && e@ == DispatcherErrorView::KeyNotFound(key)) && !r.1,
        took_write && removed ==> r.0 is Ok && !r.1,
        took_write && !removed ==> (r.0 matches Err(e) && e@ == DispatcherErrorView::KeyNotFound(key)) && r.1,
{
    if !took_write {
        return (Err(DispatcherError::KeyNotFound(key)), false);
    }
    if removed {
        (Ok(()), false)
    } else {
        (Err(DispatcherError::KeyNotFound(key)), true)
    }
}

} // verus!
