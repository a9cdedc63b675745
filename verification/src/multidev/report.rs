use vstd::prelude::*;

use crate::stats::seq_sum;

verus! {

/// The sum of the values of the entries (`(device, value)`) that belong to
/// device `d`.
pub open spec fn device_sum(entries: Seq<(usize, u64)>, d: int) -> int
    decreases entries.len(),
{
    if entries.len() == 0 {
        0
    } else {
        device_sum(entries.drop_last(), d) + if entries.last().0 == d { entries.last().1 as int } else { 0 }
    }
}

/// A device sum over a prefix is at most the sum over the whole.
proof fn lemma_device_sum_prefix(entries: Seq<(usize, u64)>, k: int, d: int)
    requires
        0 <= k <= entries.len(),
    ensures
        device_sum(entries.take(k), d) <= device_sum(entries, d),
    decreases entries.len() - k,
{
    if k < entries.len() {
        lemma_device_sum_prefix(entries, k + 1, d);
        assert(entries.take(k + 1).drop_last() =~= entries.take(k));
    } else {
        assert(entries.take(k) =~= entries);
    }
}

/// Adds up per-thread values by device: `entries` holds, for each thread,
/// its device and its value; the result holds one sum per device.
pub fn per_device_sums(entries: &[(usize, u64)], num_devices: usize) -> (r: Vec<u64>)
    requires
        forall|t: int| 0 <= t < entries@.len() ==> (#[trigger] entries@[t]).0 < num_devices,
        forall|d: int| 0 <= d < num_devices ==> #[trigger] device_sum(entries@, d) <= u64::MAX,
    ensures
        r@.len() == num_devices,
        forall|d: int| 0 <= d < num_devices ==> #[trigger] r@[d] == device_sum(entries@, d),
{
    let mut sums: Vec<u64> = Vec::new();
    let mut d: usize = 0;
    while d < num_devices
        invariant
            d <= num_devices,
            sums@.len() == d,
            forall|k: int| 0 <= k < d ==> sums@[k] == 0,
        decreases num_devices - d,
    {
        sums.push(0);
        d = d + 1;
    }
    let mut t: usize = 0;
    while t < entries.len()
        invariant
            t <= entries@.len(),
            sums@.len() == num_devices,
            forall|t2: int| 0 <= t2 < entries@.len() ==> (#[trigger] entries@[t2]).0 < num_devices,
            forall|k: int| 0 <= k < num_devices ==> #[trigger] device_sum(entries@, k) <= u64::MAX,
            forall|k: int| 0 <= k < num_devices ==> #[trigger] sums@[k] == device_sum(entries@.take(t as int), k),
        decreases entries@.len() - t,
    {
        let (dev, v) = entries[t];
        let ghost before = sums@;
        proof {
            assert(entries@.take(t + 1).drop_last() =~= entries@.take(t as int));
            lemma_device_sum_prefix(entries@, t + 1, dev as int);
            assert(sums@[dev as int] == device_sum(entries@.take(t as int), dev as int));
        }
        let cur = sums[dev];
        sums.set(dev, cur + v);
        t = t + 1;
        proof {
            assert forall|k: int| 0 <= k < num_devices implies #[trigger] sums@[k] == device_sum(entries@.take(t as int), k) by {
                assert(entries@.take(t as int).drop_last() =~= entries@.take(t - 1));
                if k != dev as int {
                    assert(sums@[k] == before[k]);
                }
            }
        }
    }
    proof {
        assert(entries@.take(t as int) =~= entries@);
    }
    sums
}

/// The number of entries that belong to device `d`.
pub open spec fn device_count(entries: Seq<(usize, u64)>, d: int) -> int
    decreases entries.len(),
{
    if entries.len() == 0 {
        0
    } else {
        device_count(entries.drop_last(), d) + if entries.last().0 == d { 1int } else { 0int }
    }
}

/// Counts the threads of each device.
pub fn per_device_counts(entries: &[(usize, u64)], num_devices: usize) -> (r: Vec<usize>)
    requires
        forall|t: int| 0 <= t < entries@.len() ==> (#[trigger] entries@[t]).0 < num_devices,
    ensures
        r@.len() == num_devices,
        forall|d: int| 0 <= d < num_devices ==> #[trigger] r@[d] == device_count(entries@, d),
{
    let mut counts: Vec<usize> = Vec::new();
    let mut d: usize = 0;
    while d < num_devices
        invariant
            d <= num_devices,
            counts@.len() == d,
            forall|k: int| 0 <= k < d ==> counts@[k] == 0,
        decreases num_devices - d,
    {
        counts.push(0);
        d = d + 1;
    }
    let mut t: usize = 0;
    while t < entries.len()
        invariant
            t <= entries@.len(),
            counts@.len() == num_devices,
            forall|t2: int| 0 <= t2 < entries@.len() ==> (#[trigger] entries@[t2]).0 < num_devices,
            forall|k: int| 0 <= k < num_devices ==> #[trigger] counts@[k] == device_count(entries@.take(t as int), k),
            forall|k: int| 0 <= k < num_devices ==> #[trigger] device_count(entries@.take(t as int), k) <= t,
        decreases entries@.len() - t,
    {
        let (dev, _v) = entries[t];
        let ghost before = counts@;
        let cur = counts[dev];
        proof {
            assert(cur <= t);
        }
        counts.set(dev, cur + 1);
        t = t + 1;
        proof {
            assert(entries@.take(t as int).drop_last() =~= entries@.take(t - 1));
            assert forall|k: int| 0 <= k < num_devices implies #[trigger] counts@[k] == device_count(entries@.take(t as int), k) by {
                if k != dev as int {
                    assert(counts@[k] == before[k]);
                }
            }
            assert forall|k: int| 0 <= k < num_devices implies #[trigger] device_count(entries@.take(t as int), k) <= t by {
                assert(device_count(entries@.take(t - 1), k) <= t - 1);
            }
        }
    }
    proof {
        assert(entries@.take(t as int) =~= entries@);
    }
    counts
}

/// The operations each thread completed since the last progress line:
/// its counter now (`current`) minus its counter then (`prev`), which
/// becomes the counter now. The second result is the total over all
/// threads.
pub fn interval_deltas(current: &Vec<u64>, prev: &mut Vec<u64>) -> (r: (Vec<u64>, u64))
    requires
        old(prev)@.len() == current@.len(),
        forall|i: int| 0 <= i < current@.len() ==> old(prev)@[i] <= #[trigger] current@[i],
        seq_sum(current@) <= u64::MAX,
    ensures
        final(prev)@ == current@,
        r.0@.len() == current@.len(),
        forall|i: int| 0 <= i < current@.len() ==> #[trigger] r.0@[i] == current@[i] - old(prev)@[i],
        r.1 == seq_sum(r.0@),
{
    let mut deltas: Vec<u64> = Vec::new();
    let mut total: u64 = 0;
    let mut i: usize = 0;
    let ghost old_prev = prev@;
    while i < current.len()
        invariant
            i <= current@.len(),
            prev@.len() == current@.len(),
            old_prev.len() == current@.len(),
            forall|k: int| 0 <= k < current@.len() ==> old_prev[k] <= #[trigger] current@[k],
            seq_sum(current@) <= u64::MAX,
            deltas@.len() == i,
            forall|k: int| 0 <= k < i ==> #[trigger] deltas@[k] == current@[k] - old_prev[k],
            forall|k: int| 0 <= k < i ==> #[trigger] prev@[k] == current@[k],
            forall|k: int| i <= k < current@.len() ==> #[trigger] prev@[k] == old_prev[k],
            total == seq_sum(deltas@),
            seq_sum(deltas@) <= seq_sum(current@.take(i as int)),
        decreases current@.len() - i,
    {
        let d = current[i] - prev[i];
        let ghost before = deltas@;
        proof {
            assert(current@.take(i + 1).drop_last() =~= current@.take(i as int));
            assert(current@.take(i + 1).last() == current@[i as int]);
            lemma_prefix_sum_le(current@, i as int + 1);
            assert(seq_sum(current@.take(i + 1)) == seq_sum(current@.take(i as int)) + current@[i as int]);
        }
        deltas.push(d);
        proof {
            assert(deltas@.drop_last() =~= before);
            assert(seq_sum(deltas@) == seq_sum(before) + d);
        }
        total = total + d;
        prev.set(i, current[i]);
        i = i + 1;
    }
    proof {
        assert(prev@ =~= current@);
    }
    (deltas, total)
}

/// A prefix of counters sums to no more than all of them.
proof fn lemma_prefix_sum_le(s: Seq<u64>, k: int)
    requires
        0 <= k <= s.len(),
    ensures
        seq_sum(s.take(k)) <= seq_sum(s),
    decreases s.len() - k,
{
    if k < s.len() {
        lemma_prefix_sum_le(s, k + 1);
        assert(s.take(k + 1).drop_last() =~= s.take(k));
    } else {
        assert(s.take(k) =~= s);
    }
}

} // verus!
