use vstd::prelude::*;

use crate::multidev::config::BenchConfig;
use crate::numfmt::{append_decimal, dec};

verus! {

/// Where a worker thread runs: its device (round robin over the devices),
/// its index among that device's threads, and how many threads that device
/// has.
#[derive(Debug, Clone, Copy, PartialEq, Eq, Structural)]
pub struct ThreadSlot {
    pub device: usize,
    pub index_on_device: u32,
    pub threads_on_device: u32,
}

/// The slot of thread `t` of `threads` over `n` devices.
pub open spec fn slot_of(t: int, threads: u32, n: usize) -> ThreadSlot {
    ThreadSlot {
        device: (t % (n as int)) as usize,
        index_on_device: (t / (n as int)) as u32,
        threads_on_device: ((threads as int) / (n as int) + if (t % (n as int)) < ((threads as int) % (n as int)) {
            1int
        } else {
            0int
        }) as u32,
    }
}

/// Assigns `threads` worker threads to `n` devices round robin: thread `t`
/// goes to device `t % n` as that device's thread number `t / n`; a device
/// gets `threads / n` threads, one more when its number is below
/// `threads % n`.
pub fn thread_slots(threads: u32, n: usize) -> (r: Vec<ThreadSlot>)
    requires
        n > 0,
    ensures
        r@.len() == threads,
        forall|t: int| 0 <= t < threads ==> #[trigger] r@[t] == slot_of(t, threads, n),
{
    let mut r: Vec<ThreadSlot> = Vec::new();
    let mut t: u32 = 0;
    let nn = n as u64;
    let tt = threads as u64;
    while t < threads
        invariant
            t <= threads,
            r@.len() == t,
            nn == n,
            tt == threads,
            n > 0,
            forall|k: int| 0 <= k < t ==> #[trigger] r@[k] == slot_of(k, threads, n),
        decreases threads - t,
    {
        let d = (t as u64) % nn;
        let idx = (t as u64) / nn;
        let count = tt / nn + if d < tt % nn { 1 } else { 0 };
        proof {
            assert(d < nn) by (nonlinear_arith)
                requires d == (t as u64) % nn, nn > 0;
            assert(idx <= t) by (nonlinear_arith)
                requires idx == (t as u64) / nn, nn > 0;
            assert(tt / nn + 1 <= tt || d >= tt % nn) by (nonlinear_arith)
                requires nn > 0, d < nn, tt == threads, t < threads, d == (t as u64) % nn;
            assert(tt / nn <= tt) by (nonlinear_arith)
                requires nn > 0;
        }
        r.push(ThreadSlot { device: d as usize, index_on_device: idx as u32, threads_on_device: count as u32 });
        t = t + 1;
    }
    r
}

/// Every thread's number on its device is below the device's thread count,
/// so each device's threads split its namespace into regions of their own.
pub proof fn law_slot_index_in_range(t: int, threads: u32, n: usize)
    requires
        n > 0,
        0 <= t < threads,
    ensures
        slot_of(t, threads, n).index_on_device < slot_of(t, threads, n).threads_on_device,
        slot_of(t, threads, n).device < n,
{
    let q = t / (n as int);
    let r = t % (n as int);
    let bq = (threads as int) / (n as int);
    let br = (threads as int) % (n as int);
    assert(t == q * n + r && 0 <= r < n && q >= 0) by (nonlinear_arith)
        requires n > 0, q == t / (n as int), r == t % (n as int), t >= 0;
    assert(threads == bq * n + br && 0 <= br < n && bq >= 0) by (nonlinear_arith)
        requires n > 0, bq == (threads as int) / (n as int), br == (threads as int) % (n as int);
    assert(q < bq || (q == bq && r < br)) by (nonlinear_arith)
        requires t == q * n + r, threads == bq * n + br, 0 <= r < n, 0 <= br < n, t < threads, n > 0, q >= 0,
            bq >= 0;
    assert(bq <= threads) by (nonlinear_arith)
        requires threads == bq * n + br, n > 0, br >= 0, bq >= 0;
    if r < br {
        assert(bq + 1 <= threads) by (nonlinear_arith)
            requires threads == bq * n + br, n > 0, br > 0, bq >= 0;
    }
}

impl BenchConfig {
    /// Raises the thread count to the device count, so that every device
    /// has a worker; returns whether it did.
    pub fn scale_threads(&mut self) -> (scaled: bool)
        ensures
            scaled == (old(self).threads < old(self).num_devices),
            final(self).threads == if scaled { old(self).num_devices } else { old(self).threads },
            final(self).num_devices == old(self).num_devices,
            final(self).pci_addrs@ == old(self).pci_addrs@,
            final(self).block_sizes@ == old(self).block_sizes@,
            final(self).ns_ids@ == old(self).ns_ids@,
            final(self).queue_depth == old(self).queue_depth,
            final(self).batch_size == old(self).batch_size,
    {
        if self.threads < self.num_devices {
            self.threads = self.num_devices;
            true
        } else {
            false
        }
    }

    /// Checks that explicit PCI addresses, when given, name as many devices
    /// as the device count.
    pub fn check_address_count(&self) -> (r: Result<(), String>)
        ensures
            (self.pci_addrs@.len() == 0 || self.pci_addrs@.len() == self.num_devices) ==> r is Ok,
            !(self.pci_addrs@.len() == 0 || self.pci_addrs@.len() == self.num_devices) ==> (r matches Err(e)
                && e@ == "--pci-addrs specifies "@ + dec(self.pci_addrs@.len()) + " addresses but --num-devices is "@
                + dec(self.num_devices as nat)),
    {
        if self.pci_addrs.len() == 0 || self.pci_addrs.len() == self.num_devices as usize {
            return Ok(());
        }
        let mut s = String::from_str("--pci-addrs specifies ");
        append_decimal(&mut s, self.pci_addrs.len() as u64);
        s.append(" addresses but --num-devices is ");
        append_decimal(&mut s, self.num_devices as u64);
        Err(s)
    }
}

/// How many of the threads `0..t` go to device `d` of `n`, round robin.
pub open spec fn threads_to(t: nat, n: nat, d: int) -> nat
    decreases t,
{
    if t == 0 {
        0
    } else {
        threads_to((t - 1) as nat, n, d) + if (t - 1) % (n as int) == d { 1nat } else { 0nat }
    }
}

/// Counts the threads of each of `n` devices when `threads` threads are
/// dealt out round robin.
pub fn thread_distribution(threads: u32, n: usize) -> (r: Vec<u32>)
    requires
        n > 0,
    ensures
        r@.len() == n,
        forall|d: int| 0 <= d < n ==> #[trigger] r@[d] == threads_to(threads as nat, n as nat, d),
{
    let mut r: Vec<u32> = Vec::new();
    let mut d: usize = 0;
    while d < n
        invariant
            d <= n,
            r@.len() == d,
            forall|k: int| 0 <= k < d ==> #[trigger] r@[k] == 0,
        decreases n - d,
    {
        r.push(0);
        d = d + 1;
    }
    let mut t: u32 = 0;
    while t < threads
        invariant
            t <= threads,
            n > 0,
            r@.len() == n,
            forall|k: int| 0 <= k < n ==> #[trigger] r@[k] == threads_to(t as nat, n as nat, k),
        decreases threads - t,
    {
        let i = (t as usize) % n;
        proof {
            assert(i < n) by (nonlinear_arith)
                requires i == (t as usize) % n, n > 0;
            assert(threads_to(t as nat, n as nat, i as int) <= t) by {
                lemma_threads_to_bound(t as nat, n as nat, i as int);
            }
        }
        r.set(i, r[i] + 1);
        t = t + 1;
        proof {
            assert forall|k: int| 0 <= k < n implies #[trigger] r@[k] == threads_to(t as nat, n as nat, k) by {
                assert(((t - 1) as int) % (n as int) == i as int);
            }
        }
    }
    r
}

/// No device gets more threads than there are.
proof fn lemma_threads_to_bound(t: nat, n: nat, d: int)
    ensures
        threads_to(t, n, d) <= t,
    decreases t,
{
    if t > 0 {
        lemma_threads_to_bound((t - 1) as nat, n, d);
    }
}

/// One entry of the distribution text: `D<device>:<threads>`.
pub open spec fn dist_entry(d: nat, c: u32) -> Seq<char> {
    "D"@ + dec(d) + ":"@ + dec(c as nat)
}

/// The distribution text: the entries of the devices in order, separated
/// by `, `.
pub open spec fn dist_text(counts: Seq<u32>) -> Seq<char>
    decreases counts.len(),
{
    if counts.len() == 0 {
        Seq::empty()
    } else if counts.len() == 1 {
        dist_entry(0, counts[0])
    } else {
        dist_text(counts.drop_last()) + ", "@ + dist_entry((counts.len() - 1) as nat, counts.last())
    }
}

/// The text that shows how many threads each device got, such as
/// `D0:3, D1:2`.
pub fn distribution_text(counts: &Vec<u32>) -> (r: String)
    ensures
        r@ == dist_text(counts@),
{
    let mut s = String::new();
    let mut d: usize = 0;
    proof {
        assert(counts@.take(0) =~= Seq::<u32>::empty());
        reveal_strlit("");
    }
    while d < counts.len()
        invariant
            d <= counts@.len(),
            s@ == dist_text(counts@.take(d as int)),
        decreases counts@.len() - d,
    {
        let ghost pre = counts@.take(d as int);
        proof {
            assert(counts@.take(d + 1).drop_last() =~= pre);
            reveal_strlit(", ");
            reveal_strlit("D");
            reveal_strlit(":");
        }
        if d > 0 {
            s.append(", ");
        }
        s.append("D");
        append_decimal(&mut s, d as u64);
        s.append(":");
        append_decimal(&mut s, counts[d] as u64);
        proof {
            let t = counts@.take(d + 1);
            assert(t.last() == counts@[d as int]);
            if d == 0 {
                assert(s@ =~= dist_entry(0, counts@[0]));
            } else {
                assert(s@ =~= dist_text(pre) + ", "@ + dist_entry(d as nat, counts@[d as int]));
            }
        }
        d = d + 1;
    }
    proof {
        assert(counts@.take(d as int) =~= counts@);
    }
    s
}

} // verus!
