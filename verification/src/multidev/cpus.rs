use std::collections::BTreeSet;

use vstd::prelude::*;
use vstd::std_specs::btree::increasing_seq;
use vstd::std_specs::iter::IteratorSpec;

verus! {

/// Whether `s` is strictly ascending.
pub open spec fn strictly_ascending(s: Seq<usize>) -> bool {
    forall|i: int, j: int| 0 <= i < j < s.len() ==> s[i] < s[j]
}

/// Every processor listed for any of the nodes.
pub open spec fn all_listed(nodes: Seq<Seq<usize>>) -> Set<usize> {
    Set::new(|c: usize| exists|n: int, k: int| 0 <= n < nodes.len() && 0 <= k < nodes[n].len() && nodes[n][k] == c)
}

/// The placement of benchmark threads: one processor per device's actor,
/// taken from the front of the ascending list of available processors, and
/// the remaining ones handed to worker threads in turn.
pub struct CpuPlan {
    /// Every available processor, ascending, without repeats.
    pub available: Vec<usize>,
    /// The processor of each device's actor.
    pub actor_cpus: Vec<usize>,
    /// The processor of each worker thread; empty when none are left.
    pub worker_cpus: Vec<usize>,
}

/// The actor processors of a plan over the ascending list `avail`.
pub open spec fn actor_part(avail: Seq<usize>, num_devices: nat) -> Seq<usize> {
    avail.take(if num_devices < avail.len() { num_devices as int } else { avail.len() as int })
}

/// The worker processors of a plan over `avail`: what is left after the
/// actors, reused in turn when there are more threads than processors.
pub open spec fn worker_part(avail: Seq<usize>, num_devices: nat, threads: nat) -> Seq<usize> {
    let rest = avail.skip(actor_part(avail, num_devices).len() as int);
    if rest.len() == 0 {
        Seq::empty()
    } else {
        Seq::new(threads, |i: int| rest[i % rest.len() as int])
    }
}

/// A set's keys in increasing order are strictly ascending numbers.
proof fn lemma_keys_ascending(keys: Seq<&usize>)
    requires
        increasing_seq(keys),
    ensures
        forall|a: int, b: int| 0 <= a < b < keys.len() ==> *keys[a] < *keys[b],
{
    broadcast use vstd::std_specs::btree::axiom_increasing_seq_meaning;
    assert(vstd::laws_cmp::obeys_cmp::<usize>());
    assert(vstd::laws_cmp::obeys_cmp::<&usize>());
    assert forall|a: int, b: int| 0 <= a < b < keys.len() implies *keys[a] < *keys[b] by {
        assert(vstd::std_specs::cmp::OrdSpec::cmp_spec(&keys[a], &keys[b]) is Less);
    }
}

/// Plans processor placement for `num_devices` device actors and
/// `num_threads` workers over the processors listed for the devices' NUMA
/// nodes (`node_cpus`, one list per node): the union, ascending without
/// repeats, gives each actor one processor from its front while they last,
/// and workers share the rest in turn. Nothing is planned when no processor
/// is listed.
pub fn plan_cpu_assignment(num_devices: usize, num_threads: u32, node_cpus: &Vec<Vec<usize>>) -> (r: CpuPlan)
    ensures
        strictly_ascending(r.available@),
        r.available@.to_set() == all_listed(node_cpus@.map_values(|v: Vec<usize>| v@)),
        r.actor_cpus@ == actor_part(r.available@, num_devices as nat),
        r.worker_cpus@ == worker_part(r.available@, num_devices as nat, num_threads as nat),
{
    let ghost nodes = node_cpus@.map_values(|v: Vec<usize>| v@);
    let mut all: BTreeSet<usize> = BTreeSet::new();
    let mut n: usize = 0;
    while n < node_cpus.len()
        invariant
            n <= node_cpus@.len(),
            nodes == node_cpus@.map_values(|v: Vec<usize>| v@),
            all@ == all_listed(nodes.take(n as int)),
        decreases node_cpus@.len() - n,
    {
        let mut k: usize = 0;
        let ghost base = all_listed(nodes.take(n as int));
        while k < node_cpus[n].len()
            invariant
                n < node_cpus@.len(),
                k <= node_cpus@[n as int]@.len(),
                nodes == node_cpus@.map_values(|v: Vec<usize>| v@),
                all@ == base + node_cpus@[n as int]@.take(k as int).to_set(),
            decreases node_cpus@[n as int]@.len() - k,
        {
            let c = node_cpus[n][k];
            all.insert(c);
            k = k + 1;
            proof {
                let t = node_cpus@[n as int]@.take(k as int);
                let pre = node_cpus@[n as int]@.take(k - 1);
                assert(t =~= pre.push(c));
                assert(t.to_set() =~= pre.to_set().insert(c)) by {
                    assert forall|x: usize| t.to_set().contains(x) == pre.to_set().insert(c).contains(x) by {
                        if t.to_set().contains(x) {
                            let j = choose|j: int| 0 <= j < t.len() && t[j] == x;
                            if j < k - 1 {
                                assert(pre[j] == x);
                            }
                        }
                        if pre.to_set().contains(x) {
                            let j = choose|j: int| 0 <= j < pre.len() && pre[j] == x;
                            assert(t[j] == x);
                        }
                        if x == c {
                            assert(t[k - 1] == x);
                        }
                    }
                }
                assert(all@ =~= base + t.to_set());
            }
        }
        proof {
            assert(node_cpus@[n as int]@.take(k as int) =~= node_cpus@[n as int]@);
            let nn = nodes.take(n + 1);
            assert(nn[n as int] == node_cpus@[n as int]@);
            assert forall|x: usize| all_listed(nn).contains(x) == (base + node_cpus@[n as int]@.to_set()).contains(x) by {
                if all_listed(nn).contains(x) {
                    let (a, b) = choose|a: int, b: int| 0 <= a < nn.len() && 0 <= b < nn[a].len() && nn[a][b] == x;
                    if a < n {
                        assert(nodes.take(n as int)[a] == nn[a]);
                        assert(base.contains(x));
                    } else {
                        assert(node_cpus@[n as int]@.to_set().contains(x));
                    }
                }
                if base.contains(x) {
                    let (a, b) = choose|a: int, b: int| 0 <= a < n && 0 <= b < nodes.take(n as int)[a].len()
                        && nodes.take(n as int)[a][b] == x;
                    assert(nn[a] == nodes.take(n as int)[a]);
                    assert(all_listed(nn).contains(x));
                }
                if node_cpus@[n as int]@.to_set().contains(x) {
                    let b = choose|b: int| 0 <= b < node_cpus@[n as int]@.len() && node_cpus@[n as int]@[b] == x;
                    assert(nn[n as int][b] == x);
                    assert(all_listed(nn).contains(x));
                }
            }
            assert(all_listed(nn) =~= base + node_cpus@[n as int]@.to_set());
        }
        n = n + 1;
    }
    proof {
        assert(nodes.take(n as int) =~= nodes);
    }
    let mut avail: Vec<usize> = Vec::new();
    let ghost keys = vstd::std_specs::btree::spec_btree_keys_iter(&all).remaining();
    proof {
        broadcast use vstd::std_specs::btree::axiom_spec_btree_keys_iter;
        assert(keys.unref().to_set() == all@);
    }
    for c in it: all.iter()
        invariant
            it.seq() == keys,
            avail@ == it.seq().take(it.index()).map_values(|r: &usize| *r),
    {
        proof {
            assert(it.seq().take(it.index() + 1) =~= it.seq().take(it.index()).push(it.seq()[it.index()]));
        }
        avail.push(*c);
        proof {
            assert(avail@ =~= it.seq().take(it.index() + 1).map_values(|r: &usize| *r));
        }
    }
    proof {
        broadcast use vstd::std_specs::btree::axiom_spec_btree_keys_iter;
        assert(keys.take(keys.len() as int) =~= keys);
        assert(avail@.len() == keys.len());
        assert forall|x: usize| avail@.to_set().contains(x) == all@.contains(x) by {
            if avail@.to_set().contains(x) {
                let j = choose|j: int| 0 <= j < avail@.len() && avail@[j] == x;
                assert(keys.unref()[j] == *keys[j]);
                assert(keys.unref().to_set().contains(keys.unref()[j]));
            }
            if all@.contains(x) {
                assert(keys.unref().to_set().contains(x));
                let j = choose|j: int| 0 <= j < keys.len() && keys.unref()[j] == x;
                assert(avail@[j] == x);
            }
        }
        assert(avail@.to_set() =~= all@);
        assert(increasing_seq(keys));
        lemma_keys_ascending(keys);
        assert forall|a: int, b: int| 0 <= a < b < avail@.len() implies avail@[a] < avail@[b] by {
            assert(avail@[a] == *keys[a] && avail@[b] == *keys[b]);
        }
    }
    let take = if num_devices < avail.len() { num_devices } else { avail.len() };
    let mut actor_cpus: Vec<usize> = Vec::new();
    let mut i: usize = 0;
    while i < take
        invariant
            i <= take <= avail@.len(),
            actor_cpus@ == avail@.take(i as int),
        decreases take - i,
    {
        actor_cpus.push(avail[i]);
        i = i + 1;
        proof {
            assert(actor_cpus@ =~= avail@.take(i as int));
        }
    }
    let spare = avail.len() - take;
    let mut worker_cpus: Vec<usize> = Vec::new();
    if spare > 0 {
        let ghost rest = avail@.skip(take as int);
        let mut w: usize = 0;
        while w < num_threads as usize
            invariant
                w <= num_threads,
                spare == rest.len(),
                spare > 0,
                rest == avail@.skip(take as int),
                take + spare == avail@.len(),
                avail@.len() <= usize::MAX,
                worker_cpus@ == Seq::new(w as nat, |j: int| rest[j % rest.len() as int]),
            decreases num_threads - w,
        {
            let idx = w % spare;
            proof {
                assert(idx < spare) by (nonlinear_arith)
                    requires idx == w % spare, spare > 0;
                assert(take + idx < avail@.len());
                assert(rest[idx as int] == avail@[take + idx]);
            }
            worker_cpus.push(avail[take + idx]);
            w = w + 1;
            proof {
                assert(worker_cpus@ =~= Seq::new(w as nat, |j: int| rest[j % rest.len() as int]));
            }
        }
    }
    proof {
        assert(actor_cpus@ =~= actor_part(avail@, num_devices as nat));
        assert(worker_cpus@ =~= worker_part(avail@, num_devices as nat, num_threads as nat));
    }
    CpuPlan { available: avail, actor_cpus, worker_cpus }
}

/// Actors never share a processor, and no worker runs on an actor's
/// processor.
pub proof fn law_actors_apart(avail: Seq<usize>, num_devices: nat, threads: nat)
    requires
        strictly_ascending(avail),
    ensures
        forall|i: int, j: int| 0 <= i < j < actor_part(avail, num_devices).len() ==>
            #[trigger] actor_part(avail, num_devices)[i] != #[trigger] actor_part(avail, num_devices)[j],
        forall|i: int, j: int| 0 <= i < actor_part(avail, num_devices).len() && 0 <= j < worker_part(avail, num_devices, threads).len() ==>
            #[trigger] actor_part(avail, num_devices)[i] != #[trigger] worker_part(avail, num_devices, threads)[j],
{
    let a = actor_part(avail, num_devices);
    let w = worker_part(avail, num_devices, threads);
    let rest = avail.skip(a.len() as int);
    assert forall|i: int, j: int| 0 <= i < a.len() && 0 <= j < w.len() implies #[trigger] a[i] != #[trigger] w[j] by {
        let m = j % rest.len() as int;
        assert(0 <= m < rest.len()) by (nonlinear_arith)
            requires rest.len() > 0, m == j % rest.len() as int;
        assert(w[j] == avail[a.len() + m]);
        assert(a[i] == avail[i]);
    }
}

} // verus!
