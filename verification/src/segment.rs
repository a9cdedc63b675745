use vstd::prelude::*;

verus! {

/// A piece of a larger transfer: where it starts in the buffer, the block
/// address it goes to, and its length in bytes.
#[derive(Debug, Clone, Copy, PartialEq, Eq, Structural)]
pub struct IoSegment {
    /// Byte offset from the start of the buffer.
    pub buffer_offset: usize,
    /// Starting logical block address on the device.
    pub lba: u64,
    /// Number of bytes in this segment.
    pub length: usize,
}

/// Number of segments of a transfer of `total` bytes cut into pieces of at
/// most `mts` bytes.
pub open spec fn segment_count(total: nat, mts: nat) -> nat {
    ((total + mts - 1) / mts as int) as nat
}

/// Segment number `k` of a transfer of `total` bytes starting at block
/// `start_lba`, cut into pieces of at most `mts` bytes on a device with
/// `ss`-byte sectors: it starts `k * mts` bytes into the buffer, is as long
/// as what is left up to `mts`, and its block address advances by
/// `mts / ss` per segment before it.
pub open spec fn segment_at(start_lba: u64, total: nat, mts: nat, ss: nat, k: int) -> IoSegment {
    let off: int = k * mts;
    IoSegment {
        buffer_offset: off as usize,
        lba: (start_lba + k * (mts as int / ss as int)) as u64,
        length: (if total - off < mts { total - off } else { mts as int }) as usize,
    }
}

/// How far the block address advances over a transfer of `total` bytes
/// cut into pieces of at most `mts` bytes on `ss`-byte sectors: the whole
/// sectors of each piece, summed.
pub open spec fn lba_advance(total: int, mts: int, ss: int) -> int {
    (total / mts) * (mts / ss) + (total % mts) / ss
}

/// Taking one full piece off a transfer takes one piece's sectors off the
/// advance.
proof fn lemma_advance_step(r: int, mts: int, ss: int)
    requires
        r >= mts > 0,
        ss > 0,
    ensures
        lba_advance(r, mts, ss) == mts / ss + lba_advance(r - mts, mts, ss),
        lba_advance(r - mts, mts, ss) >= 0,
{
    let q = (r - mts) / mts;
    let m = (r - mts) % mts;
    vstd::arithmetic::div_mod::lemma_fundamental_div_mod(r - mts, mts);
    assert(r == (q + 1) * mts + m) by (nonlinear_arith)
        requires r - mts == mts * q + m;
    vstd::arithmetic::div_mod::lemma_fundamental_div_mod_converse(r, mts, q + 1, m);
    assert((q + 1) * (mts / ss) == mts / ss + q * (mts / ss)) by (nonlinear_arith);
    assert(q >= 0 && m >= 0 && mts / ss >= 0 && m / ss >= 0) by (nonlinear_arith)
        requires r - mts >= 0, mts > 0, ss > 0, q == (r - mts) / mts, m == (r - mts) % mts;
    assert(q * (mts / ss) >= 0) by (nonlinear_arith)
        requires q >= 0, mts / ss >= 0;
}

/// Splits a transfer of `total_bytes` bytes starting at block `start_lba`
/// into segments of at most `max_transfer_size` bytes, in order; the block
/// address advances by the number of whole sectors of each segment.
pub fn segment_io(start_lba: u64, total_bytes: usize, max_transfer_size: u32, sector_size: u32) -> (r: Vec<IoSegment>)
    requires
        max_transfer_size > 0,
        sector_size > 0,
        start_lba + lba_advance(total_bytes as int, max_transfer_size as int, sector_size as int) <= u64::MAX,
    ensures
        r@.len() == segment_count(total_bytes as nat, max_transfer_size as nat),
        forall|k: int| 0 <= k < r@.len() ==> #[trigger] r@[k] == segment_at(
            start_lba, total_bytes as nat, max_transfer_size as nat, sector_size as nat, k),
{
    let mts = max_transfer_size as usize;
    let ss = sector_size as usize;
    let ghost total = total_bytes as nat;
    let ghost step: int = mts as int / ss as int;
    let mut segments: Vec<IoSegment> = Vec::new();
    let mut remaining = total_bytes;
    let mut buffer_offset: usize = 0;
    let mut lba = start_lba;
    proof {
        assert(0int * mts == 0 && 0int * step == 0) by (nonlinear_arith);
        if total_bytes == 0 {
            assert(segment_count(0, mts as nat) == 0) by (nonlinear_arith)
                requires mts > 0, segment_count(0, mts as nat) == (0 + mts - 1) / mts as int;
        }
    }
    while remaining > 0
        invariant
            mts == max_transfer_size,
            ss == sector_size,
            mts > 0,
            ss > 0,
            step == mts as int / ss as int,
            total == total_bytes,
            remaining > 0 ==> buffer_offset as int == segments@.len() * mts,
            buffer_offset + remaining == total_bytes,
            remaining > 0 ==> lba as int == start_lba + segments@.len() * step,
            remaining > 0 ==> start_lba + segments@.len() * step + lba_advance(remaining as int, mts as int, ss as int)
                <= u64::MAX,
            forall|k: int| 0 <= k < segments@.len() ==> #[trigger] segments@[k] == segment_at(
                start_lba, total, mts as nat, ss as nat, k),
            remaining > 0 || segments@.len() == segment_count(total, mts as nat),
        decreases remaining,
    {
        let length = if remaining < mts { remaining } else { mts };
        let ghost i = segments@.len() as int;
        proof {
            assert(segment_at(start_lba, total, mts as nat, ss as nat, i) == IoSegment {
                buffer_offset,
                lba,
                length,
            });
        }
        segments.push(IoSegment { buffer_offset, lba, length });
        proof {
            assert(length as int / ss as int >= 0) by (nonlinear_arith)
                requires ss > 0;
            if length < mts {
                assert(length == remaining);
                vstd::arithmetic::div_mod::lemma_fundamental_div_mod_converse(remaining as int, mts as int, 0, remaining as int);
                assert(lba_advance(remaining as int, mts as int, ss as int) == remaining as int / ss as int);
            } else {
                assert(length as int / ss as int == step);
                lemma_advance_step(remaining as int, mts as int, ss as int);
            }
        }
        buffer_offset = buffer_offset + length;
        lba = lba + (length / ss) as u64;
        remaining = remaining - length;
        proof {
            let n = segments@.len() as int;
            assert(n * mts == i * mts + mts) by (nonlinear_arith)
                requires n == i + 1;
            assert(n * step == i * step + step) by (nonlinear_arith)
                requires n == i + 1;
            if remaining > 0 {
                assert(length == mts);
                assert(buffer_offset as int == n * mts);
                assert(lba as int == start_lba + n * step);
            } else {
                assert(total as int == i * mts + length);
                assert(segment_count(total, mts as nat) == n) by (nonlinear_arith)
                    requires total as int == i * mts + length, 0 < length <= mts, n == i + 1, i >= 0, mts > 0,
                        segment_count(total, mts as nat) == (total + mts - 1) / mts as int;
            }
        }
    }
    segments
}

/// The segments tile the buffer: each starts where the previous one ends,
/// each is non-empty and at most `mts` bytes long, and the last one ends at
/// `total`.
pub proof fn law_segments_tile(start_lba: u64, total: nat, mts: nat, ss: nat)
    requires
        total <= usize::MAX,
        mts > 0,
        ss > 0,
    ensures
        forall|k: int| 0 <= k < segment_count(total, mts) ==> {
            &&& 0 < (#[trigger] segment_at(start_lba, total, mts, ss, k)).length <= mts
            &&& segment_at(start_lba, total, mts, ss, k).buffer_offset == k * mts
        },
        forall|k: int| 0 <= k < segment_count(total, mts) - 1 ==>
            (#[trigger] segment_at(start_lba, total, mts, ss, k)).length == mts,
        segment_count(total, mts) > 0 ==> ({
            let last = segment_at(start_lba, total, mts, ss, segment_count(total, mts) - 1);
            last.buffer_offset + last.length == total
        }),
{
    let n = segment_count(total, mts) as int;
    assert(n == (total + mts - 1) / mts as int);
    assert(n * mts >= total) by (nonlinear_arith)
        requires mts > 0, n == (total + mts - 1) / mts as int;
    assert(total > 0 ==> (n - 1) * mts < total) by (nonlinear_arith)
        requires mts > 0, n == (total + mts - 1) / mts as int;
    assert(total == 0 ==> n == 0) by (nonlinear_arith)
        requires mts > 0, n == (total + mts - 1) / mts as int;
    if n > 0 {
        assert((n - 1) * mts >= 0) by (nonlinear_arith)
            requires n >= 1, mts > 0;
        assert(n * mts == (n - 1) * mts + mts) by (nonlinear_arith);
        let last = segment_at(start_lba, total, mts, ss, n - 1);
        assert(last.buffer_offset == (n - 1) * mts);
        assert(last.buffer_offset + last.length == total);
    }
    assert forall|k: int| 0 <= k < n implies {
        &&& 0 < (#[trigger] segment_at(start_lba, total, mts, ss, k)).length <= mts
        &&& segment_at(start_lba, total, mts, ss, k).buffer_offset == k * mts
    } by {
        assert(k * mts <= (n - 1) * mts) by (nonlinear_arith)
            requires k <= n - 1, mts > 0;
        assert(k * mts >= 0) by (nonlinear_arith)
            requires k >= 0, mts > 0;
        assert(k * mts < total);
    }
    assert forall|k: int| 0 <= k < n - 1 implies
        (#[trigger] segment_at(start_lba, total, mts, ss, k)).length == mts by {
        assert(k * mts + mts <= (n - 1) * mts) by (nonlinear_arith)
            requires k + 1 <= n - 1, mts > 0;
    }
}

/// When the segment size is a whole number of sectors, each segment's block
/// address is the start address plus the sectors before it in the buffer.
pub proof fn law_segment_lba(start_lba: u64, total: nat, mts: nat, ss: nat, k: int)
    requires
        mts > 0,
        ss > 0,
        mts % ss == 0,
        0 <= k,
        start_lba + k * (mts as int / ss as int) <= u64::MAX,
    ensures
        segment_at(start_lba, total, mts, ss, k).lba == start_lba + (k * mts) / ss as int,
{
    assert((k * mts) / ss as int == k * (mts as int / ss as int)) by (nonlinear_arith)
        requires mts % ss == 0, ss > 0, k >= 0, mts > 0;
}

} // verus!
