use vstd::prelude::*;

use rand::Rng;
use std::collections::VecDeque;

use crate::multidev::config::{largest, seq_max, IoMode, OpType, Pattern};
use crate::multidev::lba::{region_end, region_limit, region_start, seq_next, LbaGenerator, RandomLba, SequentialLba};

verus! {

/// A fair coin (`rand::random::<bool>()`). Nothing is claimed of the
/// outcome.
#[verifier::external_body]
fn coin_flip() -> bool {
    rand::random::<bool>()
}

/// A number drawn from `0..bound` by the thread's generator
/// (`rand::thread_rng().gen_range`, which panics on an empty range).
/// Claims only that it lies in the range.
#[verifier::external_body]
fn draw_index(bound: usize) -> (r: usize)
    requires
        bound > 0,
    ensures
        r < bound,
{
    rand::thread_rng().gen_range(0..bound)
}

/// The address source of a worker.
pub enum LbaSource {
    Random(RandomLba),
    Sequential(SequentialLba),
}

/// The state of a worker's address source: the bound of random addresses,
/// or the next, first and last address of a sequential region.
pub enum LbaModel {
    Random { bound: u64 },
    Sequential { current: u64, start: u64, end: u64 },
}

/// The view of an address source.
pub open spec fn lba_model(l: LbaSource) -> LbaModel {
    match l {
        LbaSource::Random(g) => LbaModel::Random { bound: g.bound() },
        LbaSource::Sequential(g) => LbaModel::Sequential {
            current: g.current_spec(),
            start: g.start_spec(),
            end: g.end_spec(),
        },
    }
}

/// An IO the worker has submitted and not yet seen complete: when it was
/// submitted (nanoseconds on the caller's clock), whether it reads, and its
/// size in bytes.
#[derive(Debug, Clone, Copy, PartialEq, Eq, Structural)]
pub struct InFlight {
    pub start_ns: u64,
    pub is_read: bool,
    pub block_size: usize,
}

/// The next IO to send: read or write, synchronous or not, the namespace,
/// block address, block size (and its index among the configured sizes)
/// and the buffer slot to use.
#[derive(Debug, Clone, Copy, PartialEq, Eq, Structural)]
pub struct IoRequest {
    pub is_read: bool,
    pub sync: bool,
    pub ns_id: u32,
    pub lba: u64,
    pub size_index: usize,
    pub block_size: usize,
    pub slot: usize,
}

/// What a worker measured so far.
#[derive(Debug, Clone)]
pub struct RunStats {
    pub read_ops: u64,
    pub write_ops: u64,
    pub errors: u64,
    pub total_bytes: u64,
    pub latencies_ns: Vec<u64>,
}

/// How an IO ended, as the worker sees it.
#[derive(Debug, Clone, Copy, PartialEq, Eq, Structural)]
pub enum Outcome {
    ReadDone { ok: bool },
    WriteDone { ok: bool },
    Timeout,
    Error,
    /// Any other completion; the worker ignores it.
    Other,
}

/// The decisions of a benchmark worker thread: which IO to send next, how
/// many to batch, and what each completion counts for. Sending, buffers
/// and clocks stay with the caller.
pub struct WorkerCore {
    in_flight: VecDeque<InFlight>,
    submit_count: u64,
    queue_depth: u32,
    batch_size: u32,
    op: OpType,
    io_mode: IoMode,
    ns_id: u32,
    block_sizes: Vec<usize>,
    sector_size: usize,
    lba: LbaSource,
}

/// The abstract state of a worker.
pub struct WorkerModel {
    pub in_flight: Seq<InFlight>,
    pub submit_count: u64,
    pub queue_depth: u32,
    pub batch_size: u32,
    pub op: OpType,
    pub io_mode: IoMode,
    pub ns_id: u32,
    pub block_sizes: Seq<usize>,
    pub sector_size: usize,
    pub lba: LbaModel,
}

/// The latency of an IO started at `start` and seen complete at `now`.
pub open spec fn latency(start: u64, now: u64) -> u64 {
    if now >= start { (now - start) as u64 } else { 0 }
}

/// The statistics after `o` completed the IO `io` at `now`.
pub open spec fn count_outcome(s: (u64, u64, u64, u64, Seq<u64>), o: Outcome, io: InFlight, now: u64) -> (
    u64,
    u64,
    u64,
    u64,
    Seq<u64>,
) {
    match o {
        Outcome::ReadDone { ok } => if ok {
            ((s.0 + 1) as u64, s.1, s.2, (s.3 + io.block_size) as u64, s.4.push(latency(io.start_ns, now)))
        } else {
            (s.0, s.1, (s.2 + 1) as u64, s.3, s.4.push(latency(io.start_ns, now)))
        },
        Outcome::WriteDone { ok } => if ok {
            (s.0, (s.1 + 1) as u64, s.2, (s.3 + io.block_size) as u64, s.4.push(latency(io.start_ns, now)))
        } else {
            (s.0, s.1, (s.2 + 1) as u64, s.3, s.4.push(latency(io.start_ns, now)))
        },
        _ => (s.0, s.1, (s.2 + 1) as u64, s.3, s.4),
    }
}

/// The statistics as a tuple.
pub open spec fn stats_tuple(s: RunStats) -> (u64, u64, u64, u64, Seq<u64>) {
    (s.read_ops, s.write_ops, s.errors, s.total_bytes, s.latencies_ns@)
}

impl RunStats {
    /// Nothing measured yet.
    pub fn new() -> (r: Self)
        ensures
            stats_tuple(r) == (0u64, 0u64, 0u64, 0u64, Seq::<u64>::empty()),
    {
        RunStats { read_ops: 0, write_ops: 0, errors: 0, total_bytes: 0, latencies_ns: Vec::new() }
    }
}

impl WorkerCore {
    /// The abstract state.
    pub closed spec fn model(&self) -> WorkerModel {
        WorkerModel {
            in_flight: self.in_flight@,
            submit_count: self.submit_count,
            queue_depth: self.queue_depth,
            batch_size: self.batch_size,
            op: self.op,
            io_mode: self.io_mode,
            ns_id: self.ns_id,
            block_sizes: self.block_sizes@,
            sector_size: self.sector_size,
            lba: lba_model(self.lba),
        }
    }

    /// A worker for namespace `ns_id` of `num_sectors` sectors of
    /// `sector_size` bytes, thread `thread_index` of `threads_on_device` on
    /// its device. Addresses keep the largest IO inside the namespace:
    /// random ones over the whole namespace, sequential ones within the
    /// thread's region.
    pub fn new(
        op: OpType,
        io_mode: IoMode,
        pattern: Pattern,
        block_sizes: Vec<usize>,
        queue_depth: u32,
        batch_size: u32,
        ns_id: u32,
        num_sectors: u64,
        sector_size: usize,
        thread_index: u32,
        threads_on_device: u32,
    ) -> (r: Self)
        requires
            block_sizes@.len() > 0,
            sector_size > 0,
            queue_depth > 0,
            threads_on_device > 0,
            thread_index < threads_on_device,
            forall|i: int| 0 <= i < block_sizes@.len() ==> #[trigger] (block_sizes@[i] as int) / (sector_size as int) <= num_sectors,
            pattern == Pattern::Random ==> forall|i: int| 0 <= i < block_sizes@.len()
                ==> #[trigger] (block_sizes@[i] as int) / (sector_size as int) < num_sectors,
            pattern == Pattern::Sequential ==> forall|i: int| 0 <= i < block_sizes@.len()
                ==> #[trigger] (block_sizes@[i] as int) / (sector_size as int) <= region_limit(
                    thread_index,
                    threads_on_device,
                    num_sectors,
                ),
        ensures
            r.model() == (WorkerModel {
                in_flight: Seq::empty(),
                submit_count: 0,
                queue_depth,
                batch_size,
                op,
                io_mode,
                ns_id,
                block_sizes: block_sizes@,
                sector_size,
                lba: match pattern {
                    Pattern::Random => LbaModel::Random {
                        bound: (num_sectors - seq_max(block_sizes@) as int / (sector_size as int)) as u64,
                    },
                    Pattern::Sequential => LbaModel::Sequential {
                        current: region_start(thread_index, threads_on_device, num_sectors) as u64,
                        start: region_start(thread_index, threads_on_device, num_sectors) as u64,
                        end: region_end(
                            thread_index,
                            threads_on_device,
                            num_sectors,
                            (seq_max(block_sizes@) as int / (sector_size as int)) as u64,
                        ) as u64,
                    },
                },
            }),
    {
        let maxbs = largest(&block_sizes);
        let max_blocks = (maxbs / sector_size) as u64;
        let lba = match pattern {
            Pattern::Random => LbaSource::Random(RandomLba::new(num_sectors, max_blocks)),
            Pattern::Sequential => {
                proof {
                    let q = num_sectors as int / threads_on_device as int;
                    assert(thread_index * q + q <= num_sectors) by (nonlinear_arith)
                        requires thread_index < threads_on_device, q == num_sectors as int / threads_on_device as int,
                            threads_on_device > 0;
                    assert(thread_index * q >= 0) by (nonlinear_arith)
                        requires q >= 0;
                    assert(q >= 0) by (nonlinear_arith)
                        requires threads_on_device > 0, q == num_sectors as int / threads_on_device as int;
                    let k = choose|k: int| 0 <= k < block_sizes@.len() && block_sizes@[k] == maxbs;
                    assert((block_sizes@[k] as int) / (sector_size as int) <= region_limit(
                        thread_index,
                        threads_on_device,
                        num_sectors,
                    ));
                }
                LbaSource::Sequential(SequentialLba::new(thread_index, threads_on_device, num_sectors, max_blocks))
            },
        };
        WorkerCore {
            in_flight: VecDeque::new(),
            submit_count: 0,
            queue_depth,
            batch_size,
            op,
            io_mode,
            ns_id,
            block_sizes,
            sector_size,
            lba,
        }
    }

    /// Number of IOs in flight.
    pub fn in_flight_count(&self) -> (r: usize)
        ensures
            r == self.model().in_flight.len(),
    {
        self.in_flight.len()
    }

    /// Whether another IO fits under the queue depth.
    pub fn has_room(&self) -> (r: bool)
        ensures
            r == (self.model().in_flight.len() < self.model().queue_depth),
    {
        self.in_flight.len() < self.queue_depth as usize
    }

    /// How many IOs the next submission carries: the batch size, but no
    /// more than the room left under the queue depth.
    pub fn next_batch_len(&self) -> (r: usize)
        requires
            self.model().in_flight.len() <= self.model().queue_depth,
        ensures
            r == if self.model().batch_size as int <= self.model().queue_depth - self.model().in_flight.len() {
                self.model().batch_size as int
            } else {
                self.model().queue_depth - self.model().in_flight.len()
            },
    {
        let remaining = self.queue_depth as usize - self.in_flight.len();
        let b = self.batch_size as usize;
        if b <= remaining { b } else { remaining }
    }

    /// Whether IOs go one by one rather than in batch commands.
    pub fn single_commands(&self, count: usize) -> (r: bool)
        ensures
            r == (count == 1 && self.model().batch_size == 1),
    {
        count == 1 && self.batch_size == 1
    }

    /// Reads or writes, as the operation type says; a mix flips a coin.
    pub fn choose_is_read(&self) -> (r: bool)
        ensures
            self.model().op == OpType::Read ==> r,
            self.model().op == OpType::Write ==> !r,
    {
        match self.op {
            OpType::Read => true,
            OpType::Write => false,
            OpType::ReadWrite => coin_flip(),
        }
    }

    /// The index of the block size of the next IO: the only one, or one
    /// drawn at random.
    pub fn pick_size_index(&self) -> (r: usize)
        requires
            self.model().block_sizes.len() > 0,
        ensures
            r < self.model().block_sizes.len(),
            self.model().block_sizes.len() == 1 ==> r == 0,
    {
        if self.block_sizes.len() == 1 {
            0
        } else {
            draw_index(self.block_sizes.len())
        }
    }

    /// Prepares the next IO with block size number `size_index`, started
    /// at `now_ns`, and records it in flight: it uses the next address of
    /// the generator and the buffer slot of its submission count.
    pub fn build(&mut self, now_ns: u64, size_index: usize, is_read: bool) -> (r: IoRequest)
        requires
            size_index < old(self).model().block_sizes.len(),
            old(self).model().queue_depth > 0,
            old(self).model().sector_size > 0,
        ensures
            final(self).model() == (WorkerModel {
                in_flight: old(self).model().in_flight.push(InFlight {
                    start_ns: now_ns,
                    is_read,
                    block_size: old(self).model().block_sizes[size_index as int],
                }),
                lba: match old(self).model().lba {
                    LbaModel::Random { bound } => LbaModel::Random { bound },
                    LbaModel::Sequential { current, start, end } => LbaModel::Sequential {
                        current: seq_next(
                            current,
                            start,
                            end,
                            (old(self).model().block_sizes[size_index as int] as int / (old(
                                self,
                            ).model().sector_size as int)) as u64,
                        ),
                        start,
                        end,
                    },
                },
                ..old(self).model()
            }),
            r.is_read == is_read,
            r.sync == (old(self).model().io_mode == IoMode::Sync),
            r.ns_id == old(self).model().ns_id,
            r.size_index == size_index,
            r.block_size == old(self).model().block_sizes[size_index as int],
            r.slot == ((old(self).model().submit_count as int) % (old(self).model().queue_depth as int)) as usize,
            match old(self).model().lba {
                LbaModel::Random { bound } => bound > 0 ==> r.lba < bound,
                LbaModel::Sequential { current, start, end } => r.lba == current,
            },
    {
        let block_size = self.block_sizes[size_index];
        let blocks = (block_size / self.sector_size) as u64;
        let lba = match &mut self.lba {
            LbaSource::Random(g) => g.next_lba(blocks),
            LbaSource::Sequential(g) => g.next_lba(blocks),
        };
        proof {
            assert((self.submit_count % (self.queue_depth as u64)) < self.queue_depth) by (nonlinear_arith)
                requires self.queue_depth > 0;
        }
        let slot = (self.submit_count % (self.queue_depth as u64)) as usize;
        self.in_flight.push_back(InFlight { start_ns: now_ns, is_read, block_size });
        IoRequest {
            is_read,
            sync: match self.io_mode {
                IoMode::Sync => true,
                IoMode::Async => false,
            },
            ns_id: self.ns_id,
            lba,
            size_index,
            block_size,
            slot,
        }
    }

    /// Counts `n` IOs as submitted.
    pub fn record_submitted(&mut self, n: u64)
        requires
            old(self).model().submit_count + n <= u64::MAX,
        ensures
            final(self).model() == (WorkerModel {
                submit_count: (old(self).model().submit_count + n) as u64,
                ..old(self).model()
            }),
    {
        self.submit_count = self.submit_count + n;
    }

    /// Takes back the last `n` IOs of a batch that could not be sent: they
    /// leave the in-flight list and the submission count.
    pub fn roll_back(&mut self, n: usize)
        requires
            n <= old(self).model().in_flight.len(),
            n <= old(self).model().submit_count,
        ensures
            final(self).model() == (WorkerModel {
                in_flight: old(self).model().in_flight.take(old(self).model().in_flight.len() - n),
                submit_count: (old(self).model().submit_count - n) as u64,
                ..old(self).model()
            }),
    {
        let ghost start = self.in_flight@;
        let mut k: usize = 0;
        while k < n
            invariant
                k <= n,
                n <= start.len(),
                self.in_flight@ == start.take(start.len() - k),
                self.submit_count == old(self).submit_count - k,
                n <= old(self).submit_count,
                self.queue_depth == old(self).queue_depth,
                self.batch_size == old(self).batch_size,
                self.op == old(self).op,
                self.io_mode == old(self).io_mode,
                self.ns_id == old(self).ns_id,
                self.block_sizes@ == old(self).block_sizes@,
                self.sector_size == old(self).sector_size,
                lba_model(self.lba) == lba_model(old(self).lba),
                start == old(self).in_flight@,
            decreases n - k,
        {
            let _ = self.in_flight.pop_back();
            self.submit_count = self.submit_count - 1;
            k = k + 1;
            proof {
                assert(self.in_flight@ =~= start.take(start.len() - k));
            }
        }
    }

    /// Accounts for a completion seen at `now_ns`: a finished read or write
    /// takes the oldest IO in flight and records its latency, counting an
    /// operation and its bytes on success or an error on failure; a timeout
    /// or an error takes the oldest IO and counts an error; anything else
    /// changes nothing. With nothing in flight, a finished read or write is
    /// ignored.
    pub fn complete(&mut self, o: Outcome, now_ns: u64, stats: &mut RunStats)
        requires
            old(stats).read_ops < u64::MAX,
            old(stats).write_ops < u64::MAX,
            old(stats).errors < u64::MAX,
            forall|i: int| 0 <= i < old(self).model().in_flight.len() ==>
                old(stats).total_bytes + #[trigger] old(self).model().in_flight[i].block_size <= u64::MAX,
        ensures
            ({
                let q = old(self).model().in_flight;
                let ignored = o == Outcome::Other || ((o is ReadDone || o is WriteDone) && q.len() == 0);
                if ignored {
                    &&& final(self).model() == old(self).model()
                    &&& stats_tuple(*final(stats)) == stats_tuple(*old(stats))
                } else {
                    &&& final(self).model() == (WorkerModel {
                        in_flight: if q.len() > 0 { q.drop_first() } else { q },
                        ..old(self).model()
                    })
                    &&& stats_tuple(*final(stats)) == count_outcome(stats_tuple(*old(stats)), o, q[0], now_ns)
                }
            }),
    {
        let ghost q = self.in_flight@;
        match o {
            Outcome::ReadDone { ok } | Outcome::WriteDone { ok } => {
                match self.in_flight.pop_front() {
                    Some(io) => {
                        let lat = if now_ns >= io.start_ns { now_ns - io.start_ns } else { 0 };
                        stats.latencies_ns.push(lat);
                        if ok {
                            proof {
                                assert(old(stats).total_bytes + q[0].block_size <= u64::MAX);
                            }
                            if o == (Outcome::ReadDone { ok: true }) {
                                stats.read_ops = stats.read_ops + 1;
                            } else {
                                stats.write_ops = stats.write_ops + 1;
                            }
                            stats.total_bytes = stats.total_bytes + io.block_size as u64;
                        } else {
                            stats.errors = stats.errors + 1;
                        }
                    },
                    None => {},
                }
            },
            Outcome::Timeout | Outcome::Error => {
                let _ = self.in_flight.pop_front();
                stats.errors = stats.errors + 1;
            },
            Outcome::Other => {},
        }
    }
}

/// How one completion of the IO `io` at `now` moves the counts `s` (reads,
/// writes, errors, bytes, latencies): a successful read adds one read and
/// the IO's bytes, a successful write one write and its bytes, and neither
/// touches the other's count or the errors; a failed read or write, a
/// timeout or an error adds one error and no operation or bytes. A
/// finished read or write, failed or not, records the time since the IO
/// was started (none when the clock reads earlier); a timeout or an error
/// records no latency.
pub proof fn law_completion_counts(s: (u64, u64, u64, u64, Seq<u64>), io: InFlight, now: u64)
    requires
        s.0 < u64::MAX,
        s.1 < u64::MAX,
        s.2 < u64::MAX,
        s.3 + io.block_size <= u64::MAX,
    ensures
        ({
            let r = count_outcome(s, Outcome::ReadDone { ok: true }, io, now);
            &&& r.0 == s.0 + 1 && r.1 == s.1 && r.2 == s.2
            &&& r.3 == s.3 + io.block_size
        }),
        ({
            let w = count_outcome(s, Outcome::WriteDone { ok: true }, io, now);
            &&& w.0 == s.0 && w.1 == s.1 + 1 && w.2 == s.2
            &&& w.3 == s.3 + io.block_size
        }),
        forall|o: Outcome|
            o == (Outcome::ReadDone { ok: false }) || o == (Outcome::WriteDone { ok: false }) || o == Outcome::Timeout
                || o == Outcome::Error ==> {
                let e = #[trigger] count_outcome(s, o, io, now);
                &&& e.0 == s.0 && e.1 == s.1 && e.2 == s.2 + 1 && e.3 == s.3
            },
        forall|ok: bool|
            {
                let a = #[trigger] count_outcome(s, Outcome::ReadDone { ok }, io, now).4;
                let b = count_outcome(s, Outcome::WriteDone { ok }, io, now).4;
                &&& a.len() == s.4.len() + 1 && a.take(s.4.len() as int) == s.4
                &&& b.len() == s.4.len() + 1 && b.take(s.4.len() as int) == s.4
                &&& a.last() == b.last()
                &&& a.last() == if now >= io.start_ns { now - io.start_ns } else { 0 }
            },
        count_outcome(s, Outcome::Timeout, io, now).4 == s.4,
        count_outcome(s, Outcome::Error, io, now).4 == s.4,
{
    assert forall|ok: bool|
        {
            let a = #[trigger] count_outcome(s, Outcome::ReadDone { ok }, io, now).4;
            let b = count_outcome(s, Outcome::WriteDone { ok }, io, now).4;
            &&& a.len() == s.4.len() + 1 && a.take(s.4.len() as int) == s.4
            &&& b.len() == s.4.len() + 1 && b.take(s.4.len() as int) == s.4
            &&& a.last() == b.last()
            &&& a.last() == if now >= io.start_ns { now - io.start_ns } else { 0 }
        } by {
        assert(s.4.push(latency(io.start_ns, now)).take(s.4.len() as int) =~= s.4);
    }
}

} // verus!
