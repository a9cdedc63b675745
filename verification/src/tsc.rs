use vstd::prelude::*;

verus! {

/// 2^32, the scale of the fixed-point tick length.
pub open spec fn fp_one() -> int {
    0x1_0000_0000
}

/// Conversions between time-stamp-counter ticks and wall time, from a
/// calibration measurement.
///
/// The tick length in nanoseconds is kept as a fixed-point number scaled by
/// 2^32, next to the number of ticks per millisecond.
#[derive(Debug, Clone, Copy)]
pub struct TscClock {
    ns_per_tick_fp32: u64,
    ticks_per_ms: u64,
}

/// Fixed-point nanoseconds per tick measured over `elapsed_ns` nanoseconds
/// and `elapsed_ticks` ticks: `(elapsed_ns * 2^32) / elapsed_ticks`, cut to
/// 64 bits.
pub open spec fn calibrated_ns_per_tick(elapsed_ns: u64, elapsed_ticks: u64) -> u64 {
    ((elapsed_ns * fp_one() / elapsed_ticks as int) % 0x1_0000_0000_0000_0000) as u64
}

/// Ticks per millisecond measured over `elapsed_ns` nanoseconds and
/// `elapsed_ticks` ticks.
pub open spec fn calibrated_ticks_per_ms(elapsed_ns: u64, elapsed_ticks: u64) -> int {
    elapsed_ticks * 1_000_000 / elapsed_ns as int
}

impl TscClock {
    /// Builds a clock from a calibration window of `elapsed_ns` nanoseconds
    /// during which the counter advanced by `elapsed_ticks` ticks.
    pub fn new(elapsed_ns: u64, elapsed_ticks: u64) -> (r: Self)
        requires
            elapsed_ns > 0,
            elapsed_ticks > 0,
            elapsed_ticks * 1_000_000 <= u64::MAX,
        ensures
            r.ns_per_tick() == calibrated_ns_per_tick(elapsed_ns, elapsed_ticks),
            r.ticks_per_ms_spec() == calibrated_ticks_per_ms(elapsed_ns, elapsed_ticks),
    {
        let scaled: u128 = (elapsed_ns as u128) << 32u128;
        proof {
            let e = elapsed_ns as u128;
            assert(e << 32u128 == e * 0x1_0000_0000u128) by (bit_vector)
                requires e < 0x1_0000_0000_0000_0000u128;
        }
        let q: u128 = scaled / (elapsed_ticks as u128);
        let ns_per_tick_fp32: u64 = q as u64;
        proof {
            assert(q as u64 == q % 0x1_0000_0000_0000_0000u128) by (bit_vector);
        }
        let ticks_per_ms = elapsed_ticks * 1_000_000 / elapsed_ns;
        TscClock { ns_per_tick_fp32, ticks_per_ms }
    }

    /// Fixed-point nanoseconds per tick (scaled by 2^32).
    pub closed spec fn ns_per_tick(&self) -> u64 {
        self.ns_per_tick_fp32
    }

    /// Ticks per millisecond.
    pub fn ticks_per_ms(&self) -> (r: u64)
        ensures
            r == self.ticks_per_ms_spec(),
    {
        self.ticks_per_ms
    }

    /// Ticks per millisecond.
    pub closed spec fn ticks_per_ms_spec(&self) -> u64 {
        self.ticks_per_ms
    }

    /// Converts a tick delta to nanoseconds: `ticks * ns_per_tick / 2^32`,
    /// cut to 64 bits.
    pub fn ticks_to_ns(&self, ticks: u64) -> (r: u64)
        ensures
            r as int == (ticks * self.ns_per_tick() / fp_one()) % 0x1_0000_0000_0000_0000,
    {
        proof {
            vstd::arithmetic::mul::lemma_mul_upper_bound(
                ticks as int, u64::MAX as int, self.ns_per_tick_fp32 as int, u64::MAX as int);
        }
        let p: u128 = ticks as u128 * self.ns_per_tick_fp32 as u128;
        let s: u128 = p >> 32u128;
        proof {
            assert(s == p / 0x1_0000_0000u128) by (bit_vector)
                requires s == p >> 32u128;
            assert(s as u64 == s % 0x1_0000_0000_0000_0000u128) by (bit_vector);
        }
        s as u64
    }

    /// The counter value `ms` milliseconds after `start`.
    pub fn deadline_from_ms(&self, start: u64, ms: u64) -> (r: u64)
        requires
            start + ms * self.ticks_per_ms_spec() <= u64::MAX,
        ensures
            r == start + ms * self.ticks_per_ms_spec(),
    {
        proof {
            vstd::arithmetic::mul::lemma_mul_nonnegative(ms as int, self.ticks_per_ms as int);
        }
        start + ms * self.ticks_per_ms
    }

    /// Whether the counter value `now` has reached `deadline`.
    pub fn has_elapsed(&self, now: u64, deadline: u64) -> (r: bool)
        ensures
            r <==> now >= deadline,
    {
        now >= deadline
    }
}

} // verus!
