use vstd::prelude::*;

use crate::nvme::{BlockDeviceError, NvmeBlockError};

verus! {

/// An IO queue pair: its configured depth and the number of operations in
/// flight on it.
#[derive(Debug, Clone, Copy)]
pub struct QueuePair {
    depth: u32,
    in_flight: u32,
}

/// Free slots of a queue pair with depth `depth` and `in_flight` operations.
pub open spec fn free_slots(q: (u32, u32)) -> int {
    if q.1 >= q.0 { 0 } else { q.0 - q.1 }
}

impl View for QueuePair {
    /// The pair `(depth, in_flight)`.
    type V = (u32, u32);

    closed spec fn view(&self) -> (u32, u32) {
        (self.depth, self.in_flight)
    }
}

impl QueuePair {
    /// A queue pair of the given depth with nothing in flight.
    pub fn new_detached(depth: u32) -> (r: Self)
        ensures
            r@ == (depth, 0u32),
    {
        QueuePair { depth, in_flight: 0 }
    }

    /// Configured queue depth.
    pub fn depth(&self) -> (r: u32)
        ensures
            r == self@.0,
    {
        self.depth
    }

    /// Number of operations in flight.
    pub fn in_flight(&self) -> (r: u32)
        ensures
            r == self@.1,
    {
        self.in_flight
    }

    /// Number of available slots (depth minus in-flight, never negative).
    pub fn available(&self) -> (r: u32)
        ensures
            r == free_slots(self@),
    {
        self.depth.saturating_sub(self.in_flight)
    }

    /// Records that an operation was submitted.
    pub fn submit(&mut self)
        requires
            old(self)@.1 < u32::MAX,
        ensures
            final(self)@ == (old(self)@.0, (old(self)@.1 + 1) as u32),
    {
        self.in_flight = self.in_flight + 1;
    }

    /// Records that one operation completed (never below zero).
    pub fn complete(&mut self)
        ensures
            final(self)@ == (old(self)@.0, if old(self)@.1 == 0 { 0u32 } else { (old(self)@.1 - 1) as u32 }),
    {
        self.in_flight = self.in_flight.saturating_sub(1);
    }

    /// Records `n` completions reported by the driver and returns `n`.
    ///
    /// A positive count lowers the in-flight number (never below zero);
    /// zero or a negative status leaves it unchanged.
    pub fn record_completions(&mut self, n: i32) -> (r: i32)
        ensures
            r == n,
            final(self)@.0 == old(self)@.0,
            final(self)@.1 == if n > 0 {
                if old(self)@.1 >= n { (old(self)@.1 - n) as u32 } else { 0u32 }
            } else {
                old(self)@.1
            },
    {
        if n > 0 {
            self.in_flight = self.in_flight.saturating_sub(n as u32);
        }
        n
    }
}

/// Queue depths that a pool allocates when the controller allows them.
pub open spec fn standard_depths() -> Seq<u32> {
    seq![4u32, 16u32, 64u32, 256u32]
}

/// The standard depths not above `max_depth`, in increasing order.
pub open spec fn allowed_depths(max_depth: u32) -> Seq<u32> {
    standard_depths().filter(|d: u32| d <= max_depth)
}

/// Index of the first queue pair with at least `batch` free slots, or the
/// last index (0 for an empty pool) when none has room.
pub open spec fn select_spec(qs: Seq<(u32, u32)>, batch: int) -> int {
    if exists|i: int| 0 <= i < qs.len() && free_slots(qs[i]) >= batch {
        choose|i: int|
            0 <= i < qs.len() && free_slots(qs[i]) >= batch
                && forall|j: int| 0 <= j < i ==> free_slots(qs[j]) < batch
    } else if qs.len() == 0 {
        0
    } else {
        qs.len() - 1
    }
}

proof fn lemma_first_fit(qs: Seq<(u32, u32)>, batch: int, k: int)
    requires
        0 <= k < qs.len(),
        free_slots(qs[k]) >= batch,
    ensures
        exists|i: int|
            0 <= i < qs.len() && free_slots(qs[i]) >= batch
                && forall|j: int| 0 <= j < i ==> free_slots(qs[j]) < batch,
    decreases k,
{
    if exists|j: int| 0 <= j < k && free_slots(qs[j]) >= batch {
        let j = choose|j: int| 0 <= j < k && free_slots(qs[j]) >= batch;
        lemma_first_fit(qs, batch, j);
    }
}

/// `select_spec` picks the first queue pair with room, else the last one.
pub proof fn lemma_select_spec(qs: Seq<(u32, u32)>, batch: int)
    ensures
        0 <= select_spec(qs, batch) < qs.len() || (qs.len() == 0 && select_spec(qs, batch) == 0),
        (exists|i: int| 0 <= i < qs.len() && free_slots(qs[i]) >= batch) ==> {
            let k = select_spec(qs, batch);
            &&& free_slots(qs[k]) >= batch
            &&& forall|j: int| 0 <= j < k ==> free_slots(qs[j]) < batch
        },
{
    if exists|i: int| 0 <= i < qs.len() && free_slots(qs[i]) >= batch {
        let w = choose|i: int| 0 <= i < qs.len() && free_slots(qs[i]) >= batch;
        lemma_first_fit(qs, batch, w);
    }
}

/// A pool of IO queue pairs with varying depths.
pub struct QueuePairPool {
    qpairs: Vec<QueuePair>,
}

impl View for QueuePairPool {
    /// The `(depth, in_flight)` pairs of the queue pairs, in pool order.
    type V = Seq<(u32, u32)>;

    closed spec fn view(&self) -> Seq<(u32, u32)> {
        self.qpairs@.map_values(|q: QueuePair| q@)
    }
}

impl QueuePairPool {
    /// The depths to allocate for a controller whose maximum queue depth is
    /// `max_depth`: the standard depths 4, 16, 64 and 256 that do not exceed
    /// it, in increasing order. Fails when none fits.
    pub fn allocation_depths(max_depth: u32) -> (r: Result<Vec<u32>, NvmeBlockError>)
        ensures
            match r {
                Ok(v) => v@ == allowed_depths(max_depth) && v@.len() > 0,
                Err(e) => allowed_depths(max_depth).len() == 0
                    && (e matches NvmeBlockError::BlockDevice(BlockDeviceError::QpairAllocationFailed(m))
                    && m@ == "no queue pairs could be allocated \u{2014} max_depth too small"@),
            },
    {
        let mut v: Vec<u32> = Vec::new();
        proof {
            reveal_with_fuel(Seq::<u32>::filter, 5);
            assert(standard_depths().drop_last().drop_last().drop_last().drop_last() =~= Seq::<u32>::empty());
            assert(standard_depths().drop_last().drop_last().drop_last() =~= seq![4u32]);
            assert(standard_depths().drop_last().drop_last() =~= seq![4u32, 16u32]);
            assert(standard_depths().drop_last() =~= seq![4u32, 16u32, 64u32]);
        }
        if 4 <= max_depth {
            v.push(4);
        }
        if 16 <= max_depth {
            v.push(16);
        }
        if 64 <= max_depth {
            v.push(64);
        }
        if 256 <= max_depth {
            v.push(256);
        }
        proof {
            assert(v@ =~= allowed_depths(max_depth));
        }
        if v.len() == 0 {
            return Err(NvmeBlockError::BlockDevice(BlockDeviceError::QpairAllocationFailed(
                String::from_str("no queue pairs could be allocated \u{2014} max_depth too small"),
            )));
        }
        Ok(v)
    }

    /// A pool of queue pairs with the given depths, nothing in flight.
    pub fn from_detached(depths: &[u32]) -> (r: Self)
        ensures
            r@.len() == depths@.len(),
            forall|i: int| 0 <= i < depths@.len() ==> #[trigger] r@[i] == (depths@[i], 0u32),
    {
        let mut qpairs: Vec<QueuePair> = Vec::new();
        let mut i: usize = 0;
        while i < depths.len()
            invariant
                0 <= i <= depths@.len(),
                qpairs@.len() == i,
                forall|j: int| 0 <= j < i ==> #[trigger] qpairs@[j]@ == (depths@[j], 0u32),
            decreases depths@.len() - i,
        {
            qpairs.push(QueuePair::new_detached(depths[i]));
            i = i + 1;
        }
        QueuePairPool { qpairs }
    }

    /// Number of queue pairs in the pool.
    pub fn len(&self) -> (r: usize)
        ensures
            r == self@.len(),
    {
        self.qpairs.len()
    }

    /// Whether the pool has no queue pairs.
    pub fn is_empty(&self) -> (r: bool)
        ensures
            r <==> self@.len() == 0,
    {
        self.qpairs.len() == 0
    }

    /// The queue pair at `index`, if any.
    pub fn get(&self, index: usize) -> (r: Option<QueuePair>)
        ensures
            match r {
                Some(q) => index < self@.len() && q@ == self@[index as int],
                None => index >= self@.len(),
            },
    {
        if index < self.qpairs.len() {
            Some(self.qpairs[index])
        } else {
            None
        }
    }

    /// Records a submission on the queue pair at `index`; returns whether
    /// the index exists.
    pub fn submit_on(&mut self, index: usize) -> (r: bool)
        requires
            index < old(self)@.len() ==> old(self)@[index as int].1 < u32::MAX,
        ensures
            r <==> index < old(self)@.len(),
            r ==> final(self)@ == old(self)@.update(
                index as int,
                (old(self)@[index as int].0, (old(self)@[index as int].1 + 1) as u32),
            ),
            !r ==> final(self)@ == old(self)@,
    {
        if index < self.qpairs.len() {
            let mut q = self.qpairs[index];
            q.submit();
            self.qpairs.set(index, q);
            proof {
                assert(self@ =~= old(self)@.update(
                    index as int,
                    (old(self)@[index as int].0, (old(self)@[index as int].1 + 1) as u32),
                ));
            }
            true
        } else {
            false
        }
    }

    /// Records `n` completions reported for the queue pair at `index`.
    pub fn record_completions_on(&mut self, index: usize, n: i32) -> (r: i32)
        requires
            index < old(self)@.len(),
        ensures
            r == n,
            final(self)@.len() == old(self)@.len(),
            forall|j: int| 0 <= j < old(self)@.len() && j != index ==> #[trigger] final(self)@[j] == old(self)@[j],
            final(self)@[index as int].0 == old(self)@[index as int].0,
            final(self)@[index as int].1 == if n > 0 {
                if old(self)@[index as int].1 >= n { (old(self)@[index as int].1 - n) as u32 } else { 0u32 }
            } else {
                old(self)@[index as int].1
            },
    {
        let mut q = self.qpairs[index];
        let r = q.record_completions(n);
        self.qpairs.set(index, q);
        r
    }

    /// Lowers the in-flight count of the queue pair at `index` by `n`
    /// reaped completions, never below zero.
    pub fn reap_on(&mut self, index: usize, n: u32)
        requires
            index < old(self)@.len(),
        ensures
            final(self)@ == old(self)@.update(
                index as int,
                (old(self)@[index as int].0, if old(self)@[index as int].1 >= n {
                    (old(self)@[index as int].1 - n) as u32
                } else {
                    0u32
                }),
            ),
    {
        let mut q = self.qpairs[index];
        q.in_flight = q.in_flight.saturating_sub(n);
        self.qpairs.set(index, q);
        proof {
            assert(self@ =~= old(self)@.update(
                index as int,
                (old(self)@[index as int].0, if old(self)@[index as int].1 >= n {
                    (old(self)@[index as int].1 - n) as u32
                } else {
                    0u32
                }),
            ));
        }
    }

    /// Selects the best queue pair index for a batch of `batch_size`
    /// operations: the first (shallowest) queue pair with at least that many
    /// free slots, else the last (deepest) one, or 0 for an empty pool.
    pub fn select_index(&self, batch_size: usize) -> (r: usize)
        ensures
            r == select_spec(self@, batch_size as int),
    {
        proof {
            lemma_select_spec(self@, batch_size as int);
        }
        let mut i: usize = 0;
        while i < self.qpairs.len()
            invariant
                0 <= i <= self@.len(),
                self@.len() == self.qpairs@.len(),
                forall|j: int| 0 <= j < i ==> free_slots(#[trigger] self@[j]) < batch_size,
            decreases self.qpairs.len() - i,
        {
            if self.qpairs[i].available() as usize >= batch_size {
                proof {
                    let k = select_spec(self@, batch_size as int);
                    assert(free_slots(self@[i as int]) >= batch_size);
                    if k < i {
                        assert(free_slots(self@[k]) < batch_size);
                    }
                    if k > i {
                        assert(free_slots(self@[i as int]) < batch_size);
                    }
                }
                return i;
            }
            i = i + 1;
        }
        self.qpairs.len().saturating_sub(1)
    }

    /// The queue pair that `select_index` picks for a batch of
    /// `batch_size` operations, to be updated in place.
    pub fn select_qpair(&mut self, batch_size: usize) -> (r: &mut QueuePair)
        requires
            old(self)@.len() > 0,
        ensures
            (*r)@ == old(self)@[select_spec(old(self)@, batch_size as int)],
            final(self)@ == old(self)@.update(select_spec(old(self)@, batch_size as int), (*final(r))@),
    {
        let idx = self.select_index(batch_size);
        proof {
            lemma_select_spec(self@, batch_size as int);
        }
        &mut self.qpairs[idx]
    }

    /// Deallocates all queue pairs, leaving the pool empty.
    pub fn deallocate_all(&mut self)
        ensures
            final(self)@.len() == 0,
    {
        self.qpairs.clear();
    }
}

} // verus!
