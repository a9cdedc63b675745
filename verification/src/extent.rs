use vstd::prelude::*;

use crate::numfmt::{append_decimal, dec};

verus! {

/// Configuration of the extent manager benchmark.
#[derive(Debug, Clone)]
pub struct BenchmarkConfig {
    /// PCI address of the NVMe device.
    pub device: String,
    /// Namespace id.
    pub ns_id: u32,
    /// Worker threads.
    pub threads: usize,
    /// Operations per phase.
    pub count: u64,
    /// Extent size class in bytes.
    pub size_class: u32,
    /// Slab size in bytes.
    pub slab_size: u32,
    /// Managed space in bytes; taken from the device when absent.
    pub total_size: Option<u64>,
}

/// The outcome of checking a configuration: the first rule broken, in this
/// order, gives the error.
pub open spec fn validate_config_spec(c: BenchmarkConfig) -> Result<(), Seq<char>> {
    if c.size_class < 131072 || c.size_class > 5 * 1024 * 1024 {
        Err("size-class must be between 131072 (128 KiB) and 5242880 (5 MiB), got "@ + dec(c.size_class as nat))
    } else if c.size_class % 4096 != 0 {
        Err("size-class must be a multiple of 4096, got "@ + dec(c.size_class as nat))
    } else if c.slab_size < 8192 {
        Err("slab-size must be at least 8192 (8 KiB), got "@ + dec(c.slab_size as nat))
    } else if c.slab_size % 4096 != 0 {
        Err("slab-size must be a multiple of 4096, got "@ + dec(c.slab_size as nat))
    } else if c.total_size matches Some(total) && total <= c.slab_size {
        Err("total-size ("@ + dec(c.total_size->0 as nat) + ") must be greater than slab-size ("@
            + dec(c.slab_size as nat) + ")"@)
    } else if c.threads == 0 {
        Err("threads must be >= 1"@)
    } else if c.count == 0 {
        Err("count must be >= 1"@)
    } else {
        Ok(())
    }
}

/// `prefix` followed by `n` in decimal.
fn text_with_number(prefix: &str, n: u64) -> (r: String)
    ensures
        r@ == prefix@ + dec(n as nat),
{
    let mut s = String::from_str(prefix);
    append_decimal(&mut s, n);
    s
}

/// Checks the benchmark configuration (see `validate_config_spec`).
pub fn validate_config(config: &BenchmarkConfig) -> (r: Result<(), String>)
    ensures
        match r {
            Ok(()) => validate_config_spec(*config) is Ok,
            Err(e) => validate_config_spec(*config) == Err::<(), Seq<char>>(e@),
        },
{
    if config.size_class < 131072 || config.size_class > 5 * 1024 * 1024 {
        return Err(text_with_number(
            "size-class must be between 131072 (128 KiB) and 5242880 (5 MiB), got ",
            config.size_class as u64,
        ));
    }
    if config.size_class % 4096 != 0 {
        return Err(text_with_number("size-class must be a multiple of 4096, got ", config.size_class as u64));
    }
    if config.slab_size < 8192 {
        return Err(text_with_number("slab-size must be at least 8192 (8 KiB), got ", config.slab_size as u64));
    }
    if config.slab_size % 4096 != 0 {
        return Err(text_with_number("slab-size must be a multiple of 4096, got ", config.slab_size as u64));
    }
    if let Some(total) = config.total_size {
        if total <= config.slab_size as u64 {
            let mut s = text_with_number("total-size (", total);
            s.append(") must be greater than slab-size (");
            append_decimal(&mut s, config.slab_size as u64);
            s.append(")");
            proof {
                assert(s@ =~= "total-size ("@ + dec(total as nat) + ") must be greater than slab-size ("@
                    + dec(config.slab_size as nat) + ")"@);
            }
            return Err(s);
        }
    }
    if config.threads == 0 {
        proof {
            reveal_strlit("threads must be >= 1");
        }
        return Err(String::from_str("threads must be >= 1"));
    }
    if config.count == 0 {
        proof {
            reveal_strlit("count must be >= 1");
        }
        return Err(String::from_str("count must be >= 1"));
    }
    Ok(())
}

/// The key range of thread `i` of `n` sharing `total` keys: `(first key,
/// number of keys)`. Each thread gets `total / n` keys, and the first
/// `total % n` threads one more.
pub open spec fn key_range(total: u64, n: int, i: int) -> (int, int) {
    let q = total as int / n;
    let r = total as int % n;
    (i * q + if i < r { i } else { r }, q + if i < r { 1int } else { 0int })
}

/// Splits `total_count` keys among `num_threads` threads into consecutive
/// ranges `(first key, number of keys)` (see `key_range`).
pub fn compute_key_ranges(total_count: u64, num_threads: usize) -> (r: Vec<(u64, u64)>)
    requires
        num_threads > 0,
    ensures
        r@.len() == num_threads,
        forall|i: int| 0 <= i < num_threads ==> (#[trigger] r@[i].0 as int, r@[i].1 as int) == key_range(
            total_count, num_threads as int, i),
{
    let n = num_threads as u64;
    let per_thread = total_count / n;
    let remainder = total_count % n;
    let mut ranges: Vec<(u64, u64)> = Vec::new();
    let mut offset: u64 = 0;
    let mut i: usize = 0;
    while i < num_threads
        invariant
            i <= num_threads,
            n == num_threads,
            per_thread == total_count / n,
            remainder == total_count % n,
            ranges@.len() == i,
            offset == key_range(total_count, n as int, i as int).0,
            offset <= total_count,
            forall|k: int| 0 <= k < i ==> (#[trigger] ranges@[k].0 as int, ranges@[k].1 as int) == key_range(
                total_count, n as int, k),
        decreases num_threads - i,
    {
        proof {
            lemma_key_range_step(total_count, n as int, i as int);
        }
        let count = per_thread + if (i as u64) < remainder { 1 } else { 0 };
        ranges.push((offset, count));
        offset = offset + count;
        i = i + 1;
    }
    ranges
}

/// The next range starts where range `i` ends, and ranges stay within the
/// key space.
proof fn lemma_key_range_step(total: u64, n: int, i: int)
    requires
        n > 0,
        0 <= i < n,
    ensures
        key_range(total, n, i).0 + key_range(total, n, i).1 == key_range(total, n, i + 1).0,
        key_range(total, n, i + 1).0 <= total,
        key_range(total, n, i).1 <= total,
{
    let q = total as int / n;
    let r = total as int % n;
    assert(total == n * q + r) by (nonlinear_arith)
        requires n > 0, q == total as int / n, r == total as int % n;
    assert((i + 1) * q == i * q + q) by (nonlinear_arith);
    assert((i + 1) * q <= n * q) by (nonlinear_arith)
        requires i + 1 <= n, q >= 0;
    assert(q >= 0) by (nonlinear_arith)
        requires n > 0, q == total as int / n;
    assert(0 <= r < n) by (nonlinear_arith)
        requires n > 0, r == total as int % n;
}

/// The ranges partition the keys: the first starts at 0, each starts where
/// the previous one ends, the last ends at `total`, and no two counts differ
/// by more than one.
pub proof fn law_key_ranges_partition(total: u64, n: int)
    requires
        n > 0,
    ensures
        key_range(total, n, 0).0 == 0,
        forall|i: int| 0 <= i < n - 1 ==> #[trigger] key_range(total, n, i).0 + key_range(total, n, i).1
            == key_range(total, n, i + 1).0,
        key_range(total, n, n - 1).0 + key_range(total, n, n - 1).1 == total,
        forall|i: int, j: int| 0 <= i < n && 0 <= j < n ==> #[trigger] key_range(total, n, i).1
            <= #[trigger] key_range(total, n, j).1 + 1,
{
    assert(0 * (total as int / n) == 0) by (nonlinear_arith);
    assert forall|i: int| 0 <= i < n - 1 implies #[trigger] key_range(total, n, i).0 + key_range(total, n, i).1
        == key_range(total, n, i + 1).0 by {
        lemma_key_range_step(total, n, i);
    }
    let q = total as int / n;
    let r = total as int % n;
    assert(total == n * q + r) by (nonlinear_arith)
        requires n > 0, q == total as int / n, r == total as int % n;
    assert((n - 1) * q + q == n * q) by (nonlinear_arith);
    assert(0 <= r < n) by (nonlinear_arith)
        requires n > 0, r == total as int % n;
}

} // verus!
