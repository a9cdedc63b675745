use vstd::prelude::*;

verus! {

/// Whether `s` is in ascending order.
pub open spec fn sorted(s: Seq<u64>) -> bool {
    forall|i: int, j: int| 0 <= i <= j < s.len() ==> s[i] <= s[j]
}

/// The sum of the elements of `s`.
pub open spec fn seq_sum(s: Seq<u64>) -> int
    decreases s.len(),
{
    if s.len() == 0 {
        0
    } else {
        seq_sum(s.drop_last()) + s.last()
    }
}

/// The sum of a sequence does not depend on the order of its elements.
pub proof fn lemma_sum_perm(a: Seq<u64>, b: Seq<u64>)
    requires
        a.to_multiset() == b.to_multiset(),
    ensures
        seq_sum(a) == seq_sum(b),
    decreases a.len(),
{
    broadcast use vstd::seq_lib::group_to_multiset_ensures, vstd::multiset::group_multiset_axioms;

    if a.len() == 0 {
        assert(b.len() == a.to_multiset().len());
    } else {
        let x = a.last();
        let a1 = a.drop_last();
        assert(a1.push(x) =~= a);
        assert(a.to_multiset() == a1.to_multiset().insert(x));
        assert(a.to_multiset().count(x) > 0);
        assert(b.to_multiset().count(x) > 0);
        assert(b.contains(x));
        let k = choose|k: int| 0 <= k < b.len() && b[k] == x;
        let b2 = b.remove(k);
        assert(b2.to_multiset() == b.to_multiset().remove(x));
        assert(a1.to_multiset() =~= a.to_multiset().remove(x));
        lemma_sum_perm(a1, b2);
        lemma_sum_remove(b, k);
    }
}

/// Removing element `k` takes it out of the sum.
pub proof fn lemma_sum_remove(s: Seq<u64>, k: int)
    requires
        0 <= k < s.len(),
    ensures
        seq_sum(s) == seq_sum(s.remove(k)) + s[k],
    decreases s.len(),
{
    if k < s.len() - 1 {
        let r = s.remove(k);
        assert(r.drop_last() =~= s.drop_last().remove(k));
        assert(r.last() == s.last());
        lemma_sum_remove(s.drop_last(), k);
    } else {
        assert(s.remove(k) =~= s.drop_last());
    }
}

/// The sum of a concatenation.
pub proof fn lemma_sum_append(a: Seq<u64>, b: Seq<u64>)
    ensures
        seq_sum(a + b) == seq_sum(a) + seq_sum(b),
    decreases b.len(),
{
    if b.len() > 0 {
        assert((a + b).drop_last() =~= a + b.drop_last());
        lemma_sum_append(a, b.drop_last());
    } else {
        assert(a + b =~= a);
    }
}

/// A sum is at most the length times a bound on the elements.
pub proof fn lemma_sum_bound(s: Seq<u64>, m: int)
    requires
        forall|i: int| 0 <= i < s.len() ==> s[i] <= m,
        m >= 0,
    ensures
        0 <= seq_sum(s) <= s.len() * m,
    decreases s.len(),
{
    if s.len() > 0 {
        lemma_sum_bound(s.drop_last(), m);
        assert((s.len() - 1) * m + m == s.len() * m) by (nonlinear_arith);
    }
}

/// Sorts `v` in ascending order.
pub fn sort_u64(v: &mut Vec<u64>)
    ensures
        sorted(final(v)@),
        final(v)@.to_multiset() == old(v)@.to_multiset(),
        final(v)@.len() == old(v)@.len(),
{
    let n = v.len();
    let mut i: usize = 1;
    if n == 0 {
        return;
    }
    while i < n
        invariant
            1 <= i <= n,
            n == v@.len(),
            sorted(v@.take(i as int)),
            v@.to_multiset() == old(v)@.to_multiset(),
        decreases n - i,
    {
        let mut j: usize = i;
        proof {
            assert forall|a: int, b: int| 0 <= a <= b <= i && a != j && b != j implies v@[a] <= v@[b] by {
                assert(v@.take(i as int)[a] == v@[a] && v@.take(i as int)[b] == v@[b]);
            }
        }
        while j > 0 && v[j - 1] > v[j]
            invariant
                0 <= j <= i < n,
                n == v@.len(),
                v@.to_multiset() == old(v)@.to_multiset(),
                // the prefix without position j is sorted
                forall|a: int, b: int| 0 <= a <= b <= i && a != j && b != j ==> v@[a] <= v@[b],
                // everything after j is above v[j]
                forall|b: int| j < b <= i ==> v@[j as int] < v@[b],
            decreases j,
        {
            let ghost before = v@;
            let x = v[j - 1];
            let y = v[j];
            v.set(j - 1, y);
            v.set(j, x);
            proof {
                broadcast use vstd::seq_lib::group_to_multiset_ensures, vstd::multiset::group_multiset_axioms;

                let s1 = before.update(j - 1, y);
                assert(v@ =~= s1.update(j as int, x));
                assert(s1.to_multiset() == before.to_multiset().insert(y).remove(x));
                assert(v@.to_multiset() == s1.to_multiset().insert(x).remove(y));
                assert(v@.to_multiset() =~= before.to_multiset());
            }
            j = j - 1;
        }
        proof {
            assert forall|a: int, b: int| 0 <= a <= b < i + 1 implies #[trigger] v@.take(i + 1)[a] <= #[trigger] v@.take(i + 1)[b] by {
                if a == j && b != j {
                    if j > 0 {
                        assert(v@[j - 1] <= v@[j as int]);
                    }
                } else if b == j && a != j {
                    if a < j {
                        assert(v@[a] <= v@[j - 1]);
                    }
                }
            }
        }
        i = i + 1;
    }
    proof {
        assert(v@.take(n as int) =~= v@);
    }
}


/// Latency statistics of a set of samples, in nanoseconds.
#[derive(Debug, Clone, Copy, PartialEq, Eq, Structural)]
pub struct LatencyStats {
    pub count: u64,
    pub min: u64,
    pub max: u64,
    pub mean: u64,
    pub p50: u64,
    pub p99: u64,
}

/// The sum of values that are all at least `m` is at least `m` per value.
pub proof fn lemma_sum_at_least(s: Seq<u64>, m: int)
    requires
        forall|i: int| 0 <= i < s.len() ==> s[i] >= m,
        m >= 0,
    ensures
        seq_sum(s) >= s.len() * m,
    decreases s.len(),
{
    if s.len() > 0 {
        lemma_sum_at_least(s.drop_last(), m);
        assert((s.len() - 1) * m + m == s.len() * m) by (nonlinear_arith);
    }
}

/// Sorts the latency `samples` (nanoseconds) and computes their count,
/// extremes, mean (their sum divided by the count, rounded down) and the
/// samples at ranks `len / 2` and `len * 99 / 100`.
pub fn compute_stats(samples: &mut Vec<u64>) -> (r: LatencyStats)
    requires
        0 < old(samples)@.len() <= u32::MAX,
        old(samples)@.len() * 99 <= usize::MAX,
    ensures
        sorted(final(samples)@),
        final(samples)@.to_multiset() == old(samples)@.to_multiset(),
        final(samples)@.len() == old(samples)@.len(),
        ({
            let s = final(samples)@;
            let n = s.len() as int;
            &&& r.count == n
            &&& r.min == s[0]
            &&& r.max == s[n - 1]
            &&& r.mean == seq_sum(old(samples)@) / n
            &&& r.p50 == s[n / 2]
            &&& r.p99 == s[n * 99 / 100]
        }),
        r.min <= r.p50 <= r.p99 <= r.max,
        r.min <= r.mean <= r.max,
{
    sort_u64(samples);
    let n = samples.len();
    let mut sum: u128 = 0;
    let mut i: usize = 0;
    while i < n
        invariant
            i <= n,
            n == samples@.len(),
            n <= u32::MAX,
            sum == seq_sum(samples@.take(i as int)),
        decreases n - i,
    {
        proof {
            assert(samples@.take(i + 1).drop_last() =~= samples@.take(i as int));
            lemma_sum_bound(samples@.take(i as int), u64::MAX as int);
            assert(i * u64::MAX <= u32::MAX * u64::MAX) by (nonlinear_arith)
                requires i <= u32::MAX;
        }
        sum = sum + samples[i] as u128;
        i = i + 1;
    }
    proof {
        assert(samples@.take(n as int) =~= samples@);
        lemma_sum_perm(samples@, old(samples)@);
        lemma_sum_bound(samples@, samples@[n - 1] as int);
        lemma_sum_at_least(samples@, samples@[0] as int);
        assert(samples@[0] <= sum / (n as u128) <= samples@[n - 1]) by (nonlinear_arith)
            requires
                sum <= n * samples@[n - 1],
                sum >= n * samples@[0],
                n > 0;
        assert(0 <= n / 2 <= n * 99 / 100 < n) by (nonlinear_arith)
            requires n > 0;
    }
    let mean = (sum / (n as u128)) as u64;
    LatencyStats {
        count: n as u64,
        min: samples[0],
        max: samples[n - 1],
        mean,
        p50: samples[n / 2],
        p99: samples[n * 99 / 100],
    }
}

/// What one benchmark thread measured.
#[derive(Debug, Clone)]
pub struct ThreadResult {
    /// Successful read completions.
    pub read_ops: u64,
    /// Successful write completions.
    pub write_ops: u64,
    /// IO errors.
    pub errors: u64,
    /// Per-operation latencies in nanoseconds.
    pub latencies_ns: Vec<u64>,
}

/// The sums over all threads of their reads, writes and errors.
pub open spec fn total_reads(rs: Seq<ThreadResult>) -> int
    decreases rs.len(),
{
    if rs.len() == 0 { 0 } else { total_reads(rs.drop_last()) + rs.last().read_ops }
}

/// The sum over all threads of their writes.
pub open spec fn total_writes(rs: Seq<ThreadResult>) -> int
    decreases rs.len(),
{
    if rs.len() == 0 { 0 } else { total_writes(rs.drop_last()) + rs.last().write_ops }
}

/// The sum over all threads of their errors.
pub open spec fn total_errors(rs: Seq<ThreadResult>) -> int
    decreases rs.len(),
{
    if rs.len() == 0 { 0 } else { total_errors(rs.drop_last()) + rs.last().errors }
}

/// All latency samples of all threads, thread by thread.
pub open spec fn all_latencies(rs: Seq<ThreadResult>) -> Seq<u64>
    decreases rs.len(),
{
    if rs.len() == 0 { Seq::empty() } else { all_latencies(rs.drop_last()) + rs.last().latencies_ns@ }
}

/// The integer part of a benchmark's final report: operation totals and
/// the merged latency samples in ascending order with their sum.
#[derive(Debug)]
pub struct Totals {
    pub total_read_ops: u64,
    pub total_write_ops: u64,
    pub total_errors: u64,
    /// Every latency sample of every thread, in ascending order.
    pub latencies: Vec<u64>,
    /// The sum of the latency samples.
    pub latency_sum: u128,
}

/// Adds up the threads' results and merges their latency samples into one
/// sorted list.
pub fn summarize(results: &[ThreadResult]) -> (r: Totals)
    requires
        total_reads(results@) <= u64::MAX,
        total_writes(results@) <= u64::MAX,
        total_errors(results@) <= u64::MAX,
        all_latencies(results@).len() <= usize::MAX,
    ensures
        r.total_read_ops == total_reads(results@),
        r.total_write_ops == total_writes(results@),
        r.total_errors == total_errors(results@),
        sorted(r.latencies@),
        r.latencies@.to_multiset() == all_latencies(results@).to_multiset(),
        r.latency_sum == seq_sum(all_latencies(results@)),
{
    let mut reads: u64 = 0;
    let mut writes: u64 = 0;
    let mut errors: u64 = 0;
    let mut lat: Vec<u64> = Vec::new();
    let mut i: usize = 0;
    while i < results.len()
        invariant
            i <= results@.len(),
            reads == total_reads(results@.take(i as int)),
            writes == total_writes(results@.take(i as int)),
            errors == total_errors(results@.take(i as int)),
            lat@ == all_latencies(results@.take(i as int)),
            total_reads(results@) <= u64::MAX,
            total_writes(results@) <= u64::MAX,
            total_errors(results@) <= u64::MAX,
            all_latencies(results@).len() <= usize::MAX,
        decreases results@.len() - i,
    {
        let ghost t = results@.take(i + 1);
        proof {
            assert(t.drop_last() =~= results@.take(i as int));
            lemma_totals_prefix(results@, i + 1);
        }
        reads = reads + results[i].read_ops;
        writes = writes + results[i].write_ops;
        errors = errors + results[i].errors;
        let mut k: usize = 0;
        let ghost base = lat@;
        while k < results[i].latencies_ns.len()
            invariant
                i < results@.len(),
                k <= results@[i as int].latencies_ns@.len(),
                lat@ == base + results@[i as int].latencies_ns@.take(k as int),
                base.len() + results@[i as int].latencies_ns@.len() <= usize::MAX,
            decreases results@[i as int].latencies_ns@.len() - k,
        {
            lat.push(results[i].latencies_ns[k]);
            k = k + 1;
            proof {
                assert(lat@ =~= base + results@[i as int].latencies_ns@.take(k as int));
            }
        }
        proof {
            assert(results@[i as int].latencies_ns@.take(k as int) =~= results@[i as int].latencies_ns@);
        }
        i = i + 1;
    }
    proof {
        assert(results@.take(i as int) =~= results@);
    }
    let ghost merged = lat@;
    sort_u64(&mut lat);
    let mut sum: u128 = 0;
    let n = lat.len();
    let mut j: usize = 0;
    while j < n
        invariant
            j <= n,
            n == lat@.len(),
            sum == seq_sum(lat@.take(j as int)),
        decreases n - j,
    {
        proof {
            assert(lat@.take(j + 1).drop_last() =~= lat@.take(j as int));
            lemma_sum_bound(lat@.take(j as int), u64::MAX as int);
            assert(j * u64::MAX <= usize::MAX * u64::MAX) by (nonlinear_arith)
                requires j <= usize::MAX;
            assert(usize::MAX * u64::MAX + u64::MAX <= u128::MAX) by (nonlinear_arith);
        }
        sum = sum + lat[j] as u128;
        j = j + 1;
    }
    proof {
        assert(lat@.take(n as int) =~= lat@);
        lemma_sum_perm(lat@, merged);
    }
    Totals { total_read_ops: reads, total_write_ops: writes, total_errors: errors, latencies: lat, latency_sum: sum }
}

/// Totals of a prefix are bounded by the totals of the whole, and the
/// merged samples of a prefix are no more than all of them.
proof fn lemma_totals_prefix(rs: Seq<ThreadResult>, k: int)
    requires
        0 <= k <= rs.len(),
    ensures
        total_reads(rs.take(k)) <= total_reads(rs),
        total_writes(rs.take(k)) <= total_writes(rs),
        total_errors(rs.take(k)) <= total_errors(rs),
        all_latencies(rs.take(k)).len() <= all_latencies(rs).len(),
    decreases rs.len() - k,
{
    if k < rs.len() {
        lemma_totals_prefix(rs, k + 1);
        assert(rs.take(k + 1).drop_last() =~= rs.take(k));
    } else {
        assert(rs.take(k) =~= rs);
    }
}

} // verus!
