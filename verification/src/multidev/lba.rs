use vstd::prelude::*;

use rand::rngs::StdRng;
use rand::{Rng, SeedableRng};

verus! {

/// The generator type of the `rand` crate, carried opaquely.
#[verifier::external_type_specification]
#[verifier::external_body]
pub struct ExStdRng(StdRng);

/// A generator seeded from the operating system's entropy source
/// (`SeedableRng::from_entropy` of `rand`). Nothing is claimed of its
/// state. The call panics when the system cannot provide entropy, which no
/// argument can rule out.
#[verifier::external_body]
fn entropy_rng() -> StdRng {
    StdRng::from_entropy()
}

/// A number drawn from `0..bound` by `rng` (`Rng::gen_range` of `rand`,
/// which panics on an empty range). Claims only that it lies in the range.
#[verifier::external_body]
fn draw_below(rng: &mut StdRng, bound: u64) -> (r: u64)
    requires
        bound > 0,
    ensures
        r < bound,
{
    rng.gen_range(0..bound)
}

/// A source of block addresses for IOs.
pub trait LbaGenerator {
    /// The block address of the next IO, which touches `blocks_per_io`
    /// sectors.
    fn next_lba(&mut self, blocks_per_io: u64) -> u64;
}

/// Uniformly random block addresses below a bound.
pub struct RandomLba {
    max_lba: u64,
    rng: StdRng,
}

impl RandomLba {
    /// The exclusive bound of the addresses drawn.
    pub closed spec fn bound(&self) -> u64 {
        self.max_lba
    }

    /// A generator for a namespace of `total_sectors` sectors whose largest
    /// IO touches `max_blocks_per_io` sectors: addresses stay below
    /// `total_sectors - max_blocks_per_io`, so every IO fits.
    pub fn new(total_sectors: u64, max_blocks_per_io: u64) -> (r: Self)
        requires
            total_sectors > max_blocks_per_io,
        ensures
            r.bound() == total_sectors - max_blocks_per_io,
            r.bound() > 0,
    {
        RandomLba { max_lba: total_sectors - max_blocks_per_io, rng: entropy_rng() }
    }
}

impl LbaGenerator for RandomLba {
    /// A random address below the bound, whatever the IO size (the
    /// constructor makes the bound positive).
    fn next_lba(&mut self, blocks_per_io: u64) -> (r: u64)
        ensures
            old(self).bound() > 0 ==> r < old(self).bound(),
            final(self).bound() == old(self).bound(),
    {
        if self.max_lba == 0 {
            0
        } else {
            draw_below(&mut self.rng, self.max_lba)
        }
    }
}

/// Contiguous block addresses within a region of the namespace, wrapping
/// to the region's start.
#[derive(Debug, Clone, Copy)]
pub struct SequentialLba {
    current: u64,
    start: u64,
    end: u64,
}

/// The first address of thread `t`'s region when `total` sectors are split
/// among `n` threads.
pub open spec fn region_start(t: u32, n: u32, total: u64) -> int {
    t * (total as int / n as int)
}

/// The last address an IO of up to `maxb` sectors may start at in thread
/// `t`'s region: the last thread's region runs to the end of the namespace.
pub open spec fn region_end(t: u32, n: u32, total: u64, maxb: u64) -> int {
    if t == n - 1 {
        total - maxb
    } else {
        region_start(t, n, total) + total as int / n as int - maxb
    }
}

/// The address after `cur` for an IO of `blocks` sectors: the next one,
/// or the start once past the end.
pub open spec fn seq_next(cur: u64, start: u64, end: u64, blocks: u64) -> u64 {
    if cur + blocks > end { start } else { (cur + blocks) as u64 }
}

impl SequentialLba {
    /// The next address to hand out.
    pub closed spec fn current_spec(&self) -> u64 {
        self.current
    }

    /// The region's first address.
    pub closed spec fn start_spec(&self) -> u64 {
        self.start
    }

    /// The region's last address.
    pub closed spec fn end_spec(&self) -> u64 {
        self.end
    }

    /// The generator of thread `thread_index` of `num_threads`, over a
    /// namespace of `total_sectors` sectors whose largest IO touches
    /// `max_blocks_per_io` sectors: each thread gets `total_sectors /
    /// num_threads` sectors of its own, the last one also the remainder.
    pub fn new(thread_index: u32, num_threads: u32, total_sectors: u64, max_blocks_per_io: u64) -> (r: Self)
        requires
            num_threads > 0,
            region_start(thread_index, num_threads, total_sectors) + total_sectors as int / num_threads as int
                <= u64::MAX,
            0 <= region_end(thread_index, num_threads, total_sectors, max_blocks_per_io),
        ensures
            r.start_spec() == region_start(thread_index, num_threads, total_sectors),
            r.end_spec() == region_end(thread_index, num_threads, total_sectors, max_blocks_per_io),
            r.current_spec() == r.start_spec(),
    {
        let region_size = total_sectors / num_threads as u64;
        proof {
            assert(thread_index as int * region_size as int >= 0) by (nonlinear_arith)
                requires region_size >= 0;
        }
        let start = thread_index as u64 * region_size;
        let end = if thread_index == num_threads - 1 {
            total_sectors - max_blocks_per_io
        } else {
            start + region_size - max_blocks_per_io
        };
        SequentialLba { current: start, start, end }
    }
}

impl LbaGenerator for SequentialLba {
    /// The current address; the next one follows it by `blocks_per_io`
    /// sectors, or is the region's start when that would pass the end.
    fn next_lba(&mut self, blocks_per_io: u64) -> (r: u64)
        ensures
            r == old(self).current_spec(),
            final(self).current_spec() == seq_next(
                old(self).current_spec(), old(self).start_spec(), old(self).end_spec(), blocks_per_io),
            final(self).start_spec() == old(self).start_spec(),
            final(self).end_spec() == old(self).end_spec(),
    {
        let lba = self.current;
        if self.current > self.end || blocks_per_io > self.end - self.current {
            self.current = self.start;
        } else {
            self.current = self.current + blocks_per_io;
        }
        lba
    }
}

/// Threads' regions do not overlap: every IO of up to `maxb` sectors that
/// thread `a` starts in its region ends before thread `b`'s region begins,
/// for `a < b`.
pub proof fn law_regions_disjoint(a: u32, b: u32, n: u32, total: u64, maxb: u64)
    requires
        a < b < n,
    ensures
        region_end(a, n, total, maxb) + maxb <= region_start(b, n, total),
{
    let q = total as int / n as int;
    assert(q >= 0) by (nonlinear_arith)
        requires n > 0, q == total as int / n as int;
    assert((a + 1) * q <= b * q) by (nonlinear_arith)
        requires a + 1 <= b, q >= 0;
    assert((a + 1) * q == a * q + q) by (nonlinear_arith);
}

/// A generator only hands out addresses of its region: the start, or
/// addresses up to the region's end.
pub proof fn law_sequential_in_region(g: SequentialLba, blocks: u64)
    requires
        g.current_spec() == g.start_spec() || g.start_spec() <= g.current_spec() <= g.end_spec(),
    ensures
        ({
            let n = seq_next(g.current_spec(), g.start_spec(), g.end_spec(), blocks);
            n == g.start_spec() || g.start_spec() <= n <= g.end_spec()
        }),
{
}

/// The next address after calls of `next_lba` with the IO sizes `bs`, in
/// order, starting from address `cur`.
pub open spec fn seq_after(cur: u64, start: u64, end: u64, bs: Seq<u64>) -> u64
    decreases bs.len(),
{
    if bs.len() == 0 {
        cur
    } else {
        seq_next(seq_after(cur, start, end, bs.drop_last()), start, end, bs.last())
    }
}

/// The first address past thread `t`'s region: the next thread's start,
/// or the end of the namespace for the last thread.
pub open spec fn region_limit(t: u32, n: u32, total: u64) -> int {
    if t == n - 1 {
        total as int
    } else {
        region_start(t, n, total) + total as int / n as int
    }
}

/// Over any sequence of calls, a fresh generator of thread `t` hands out
/// only addresses of its own region: the `k`-th call (counting from 0)
/// returns the address after the first `k` IO sizes, which lies at or after
/// the region's start, and an IO of up to `maxb` sectors there ends within
/// the region. (This holds when the region has room for one IO of `maxb`
/// sectors; otherwise every call returns the region's start.)
pub proof fn law_sequential_calls(g: SequentialLba, t: u32, n: u32, total: u64, maxb: u64, bs: Seq<u64>)
    requires
        t < n,
        g.start_spec() == region_start(t, n, total),
        g.end_spec() == region_end(t, n, total, maxb),
        g.current_spec() == g.start_spec(),
        g.start_spec() <= g.end_spec(),
    ensures
        forall|k: int| 0 <= k <= bs.len() ==> {
            let a = #[trigger] seq_after(g.start_spec(), g.start_spec(), g.end_spec(), bs.take(k));
            &&& region_start(t, n, total) <= a
            &&& a + maxb <= region_limit(t, n, total)
        },
{
    assert forall|k: int| 0 <= k <= bs.len() implies {
        let a = #[trigger] seq_after(g.start_spec(), g.start_spec(), g.end_spec(), bs.take(k));
        &&& region_start(t, n, total) <= a
        &&& a + maxb <= region_limit(t, n, total)
    } by {
        lemma_seq_after_in_range(g.start_spec(), g.end_spec(), bs.take(k));
    }
}

/// Starting from the region's start, the address stays between the start
/// and the end.
proof fn lemma_seq_after_in_range(start: u64, end: u64, bs: Seq<u64>)
    requires
        start <= end,
    ensures
        start <= seq_after(start, start, end, bs) <= end,
    decreases bs.len(),
{
    if bs.len() > 0 {
        lemma_seq_after_in_range(start, end, bs.drop_last());
    }
}

/// With IOs of `b` sectors throughout, a generator starting at its region's
/// start hands out every slot `start + k * b` that does not pass the end,
/// in order, and wraps to the start only once the next slot would pass the
/// end: after `k` calls the next address is `start + k * b` while that is
/// at most `end`, and the call after the last such slot returns to the
/// start.
pub proof fn law_sequential_every_slot(start: u64, end: u64, b: u64, k: nat)
    requires
        start <= end,
    ensures
        start + k * b <= end ==> seq_after(start, start, end, Seq::new(k, |i: int| b)) == start + k * b,
        start + k * b <= end < start + (k + 1) * b ==> seq_after(start, start, end, Seq::new(k + 1, |i: int| b))
            == start,
    decreases k,
{
    let bs = Seq::new(k, |i: int| b);
    if k > 0 {
        let pre = Seq::new((k - 1) as nat, |i: int| b);
        assert(bs.drop_last() =~= pre);
        assert(start + (k - 1) * b <= start + k * b) by (nonlinear_arith)
            requires b >= 0, k >= 1;
        law_sequential_every_slot(start, end, b, (k - 1) as nat);
        assert(start + (k - 1) * b + b == start + k * b) by (nonlinear_arith);
    }
    let next = Seq::new(k + 1, |i: int| b);
    assert(next.drop_last() =~= bs);
    assert(next.last() == b);
    assert(start + k * b + b == start + (k + 1) * b) by (nonlinear_arith);
    if start + k * b <= end {
        assert(seq_after(start, start, end, bs) == start + k * b);
    }
}

} // verus!
