//! Forward-error-correction sizing: how many media packets one XOR parity packet should
//! cover, given the loss the client reports.
//!
//! Parity overhead is capped at **20 %** of the media rate, parity covers *every* packet
//! (keyframes included — they are the ones whose loss hurts most), and FEC switches off again
//! after a clean stretch.
//!
//! Ratios (loss, overhead, share) are in parts per billion.

pub mod laws;

use crate::math;
use vstd::prelude::*;

verus! {

/// One, in parts per billion.
pub const ONE: u32 = 1_000_000_000;

/// Overhead ceiling (parity bytes / media bytes): 20 %.
pub const MAX_OVERHEAD: u32 = 200_000_000;

/// Smallest group (= the 20 % ceiling) and the largest group worth sending.
pub const MIN_N: u8 = 5;

pub const MAX_N: u8 = 32;

/// Loss below which FEC is not worth its overhead: 0.5 %.
pub const OFF_BELOW: u32 = 5_000_000;

/// Clean windows before FEC switches off again.
pub const OFF_AFTER_CLEAN: u32 = 5;

/// The group size that parity at twice the loss rate asks for, within the limits: the nearest
/// whole number to `1 / (2·loss)`.
pub open spec fn wanted_group(loss: u32) -> int {
    math::clamped((ONE + loss) / (2 * loss), MIN_N as int, MAX_N as int)
}

/// How far a wanted size may be from the current one without changing it (±25 %).
pub open spec fn size_band(prev_n: u8) -> int {
    if prev_n / 4 < 1 {
        1
    } else {
        (prev_n / 4) as int
    }
}

/// Group size for the next parity packets: `0` = FEC off. `loss` is the client's measured
/// ratio for the last window, `prev_n` the size currently in use, `clean_windows` how many
/// consecutive windows sat under `OFF_BELOW`. Parity is sized at roughly **twice** the loss
/// rate (one parity per group repairs one loss, so 2× keeps the repair probability high),
/// clamped to the overhead ceiling, with a ±25 % hysteresis so the size does not chatter.
pub fn group_size(loss: u32, prev_n: u8, clean_windows: u32) -> (n: u8)
    ensures
        loss < OFF_BELOW && (prev_n == 0 || clean_windows >= OFF_AFTER_CLEAN) ==> n == 0,
        loss < OFF_BELOW && prev_n > 0 && clean_windows < OFF_AFTER_CLEAN ==> n == prev_n,
        loss >= OFF_BELOW && prev_n > 0 && -size_band(prev_n) <= wanted_group(loss) - prev_n
            <= size_band(prev_n) ==> n == prev_n,
        loss >= OFF_BELOW && !(prev_n > 0 && -size_band(prev_n) <= wanted_group(loss) - prev_n
            <= size_band(prev_n)) ==> n == wanted_group(loss),
        // Off below 0.5 % loss, with five clean windows.
        n == 0 <==> loss < 5_000_000 && (prev_n == 0 || clean_windows >= 5),
        loss < 5_000_000 && n > 0 ==> n == prev_n,
        // Else parity at twice the loss rate, unless the size in use is within a quarter of that.
        loss >= 5_000_000 ==> forall|want: int| #[trigger]
            laws::is_twice_the_loss(loss, want) ==> n == (if prev_n > 0 && laws::is_near(
                want,
                prev_n,
            ) {
                prev_n as int
            } else {
                want
            }),
        // From one size within the overhead ceiling to the next, the ceiling holds.
        prev_n == 0 || MIN_N <= prev_n <= MAX_N ==> n == 0 || MIN_N <= n <= MAX_N,
{
    proof {
        if loss >= OFF_BELOW {
            laws::law_one_size_is_twice_the_loss(loss);
        }
    }
    if loss < OFF_BELOW {
        return if prev_n == 0 || clean_windows >= OFF_AFTER_CLEAN {
            0
        } else {
            prev_n
        };
    }
    let fit: u64 = (ONE as u64 + loss as u64) / (2 * loss as u64);
    let want: u8 = if fit < 5 {
        MIN_N
    } else if fit > 32 {
        MAX_N
    } else {
        fit as u8
    };
    assert(want == wanted_group(loss));
    if prev_n > 0 {
        let band: u8 = if prev_n / 4 < 1 {
            1
        } else {
            prev_n / 4
        };
        let apart: u8 = if want > prev_n {
            want - prev_n
        } else {
            prev_n - want
        };
        if apart <= band {
            return prev_n;
        }
    }
    want
}

/// `num / den` to the nearest whole number, halves up.
pub open spec fn nearest(num: int, den: int) -> int {
    (2 * num + den) / (2 * den)
}

/// What share of the requested wire rate the *encoder* may use when parity of group size `n`
/// rides along (`n/(n+1)`); one when FEC is off.
pub fn encoder_share(n: u8) -> (share: u32)
    ensures
        share == (if n == 0 {
            ONE as int
        } else {
            nearest(n * ONE, n + 1)
        }),
        share <= ONE,
        // `n/(n+1)` to the nearest billionth.
        -(n + 1) <= 2 * (share * (n + 1) - n * 1_000_000_000) <= n + 1 || n == 0,
        n == 0 ==> share == 1_000_000_000,
{
    if n == 0 {
        ONE
    } else {
        let den: u64 = n as u64 + 1;
        let q: u64 = (2 * (n as u64) * 1_000_000_000 + den) / (2 * den);
        proof {
            let (ni, di) = (n as int, den as int);
            assert(2 * (ni * ONE) == 2 * ni * 1_000_000_000) by (nonlinear_arith)
                requires
                    ONE == 1_000_000_000,
            ;
            assert(0 <= q <= 1_000_000_000) by (nonlinear_arith)
                requires
                    q as int == (2 * ni * 1_000_000_000 + di) / (2 * di),
                    di == ni + 1,
                    1 <= ni <= 255,
            ;
            laws::lemma_nearest(ni * 1_000_000_000, di);
        }
        q as u32
    }
}

/// Encoder share for a parity *overhead ratio* (parity bytes / media bytes): `1/(1+r)`.
pub fn encoder_share_ratio(overhead: u32) -> (share: u32)
    ensures
        share == nearest(ONE * ONE, ONE + overhead),
        share <= ONE,
        // `1/(1+r)` to the nearest billionth.
        -(1_000_000_000 + overhead) <= 2 * (share * (1_000_000_000 + overhead)
            - 1_000_000_000_000_000_000) <= 1_000_000_000 + overhead,
{
    let den: u64 = ONE as u64 + overhead as u64;
    let q: u64 = (2_000_000_000_000_000_000 + den) / (2 * den);
    proof {
        assert(2 * (ONE * ONE) == 2_000_000_000_000_000_000) by (nonlinear_arith)
            requires
                ONE == 1_000_000_000,
        ;
        assert(0 <= q <= 1_000_000_000) by (nonlinear_arith)
            requires
                q as int == (2_000_000_000_000_000_000 + den as int) / (2 * den as int),
                den >= 1_000_000_000,
        ;
        laws::lemma_nearest(1_000_000_000_000_000_000, den as int);
    }
    q as u32
}

// ── Reed-Solomon parity ───────────────────────────────────────────────────────────────
//
// Per video frame the host appends `m = ceil(k × ratio)` parity packets to the frame's `k`
// packets; the client rebuilds ANY `≤ m` lost packets of that frame with zero round-trips.
// The ratio follows the measured loss so a clean path pays nothing and a bad one gets up to
// 30 %.

/// Lowest ratio once FEC is on (below this a single parity per frame is all it buys): 10 %.
pub const RS_MIN_RATIO: u32 = 100_000_000;

/// Ceiling — the overhead accepted on a very lossy path: 30 %.
pub const RS_MAX_RATIO: u32 = 300_000_000;

/// Ratio changes smaller than this are ignored (no chatter): 5 %.
pub const RS_HYSTERESIS: u32 = 50_000_000;

/// The ratio that ~2.5× the measured loss (+5 % base) asks for, within the limits.
pub open spec fn wanted_ratio(loss: u32) -> int {
    math::clamped(5 * loss / 2 + 50_000_000, RS_MIN_RATIO as int, RS_MAX_RATIO as int)
}

/// Parity ratio for the next frames: `0` = FEC off. Sized at ~2.5× the measured loss (+5 %
/// base) so a frame survives a burst, clamped to `[RS_MIN_RATIO, RS_MAX_RATIO]`; same on/off
/// hysteresis as [`group_size`].
pub fn parity_ratio(loss: u32, prev: u32, clean_windows: u32) -> (ratio: u32)
    ensures
        loss < OFF_BELOW && (prev == 0 || clean_windows >= OFF_AFTER_CLEAN) ==> ratio == 0,
        loss < OFF_BELOW && prev > 0 && clean_windows < OFF_AFTER_CLEAN ==> ratio == prev,
        loss >= OFF_BELOW && prev > 0 && -RS_HYSTERESIS < wanted_ratio(loss) - prev
            < RS_HYSTERESIS ==> ratio == prev,
        loss >= OFF_BELOW && !(prev > 0 && -RS_HYSTERESIS < wanted_ratio(loss) - prev
            < RS_HYSTERESIS) ==> ratio == wanted_ratio(loss),
        // Off below 0.5 % loss, with five clean windows.
        ratio == 0 <==> loss < 5_000_000 && (prev == 0 || clean_windows >= 5),
        loss < 5_000_000 && ratio > 0 ==> ratio == prev,
        // Else 2.5 times the loss and 5 %, from 10 % to 30 %, unless what is in use is within 5 %.
        loss >= 5_000_000 ==> forall|want: int| #[trigger]
            laws::is_two_and_a_half_times_the_loss(loss, want) ==> ratio == (if prev > 0
                && -50_000_000 < want - prev < 50_000_000 {
                prev as int
            } else {
                want
            }),
        // From one ratio within the limits to the next, the limits hold.
        prev == 0 || RS_MIN_RATIO <= prev <= RS_MAX_RATIO ==> ratio == 0 || RS_MIN_RATIO <= ratio
            <= RS_MAX_RATIO,
{
    if loss < OFF_BELOW {
        return if prev == 0 || clean_windows >= OFF_AFTER_CLEAN {
            0
        } else {
            prev
        };
    }
    let sized: u64 = 5 * loss as u64 / 2 + 50_000_000;
    let want: u32 = if sized < RS_MIN_RATIO as u64 {
        RS_MIN_RATIO
    } else if sized > RS_MAX_RATIO as u64 {
        RS_MAX_RATIO
    } else {
        sized as u32
    };
    if prev > 0 {
        let apart: u32 = if want > prev {
            want - prev
        } else {
            prev - want
        };
        if apart < RS_HYSTERESIS {
            return prev;
        }
    }
    want
}

// ── The parity that rides along ───────────────────────────────────────────────────────

/// The parity that takes its part of the wire rate.
#[derive(Clone, Copy, Debug, PartialEq, Eq, Structural)]
pub enum FecLoad {
    Off,
    /// One XOR parity packet per group of this many.
    Group(u8),
    /// Parity of this overhead ratio.
    Overhead(u32),
}

impl FecLoad {
    /// The encoder's share of the wire rate as a fraction.
    pub open spec fn share_num(self) -> int {
        match self {
            FecLoad::Off => 1,
            FecLoad::Group(n) => if n == 0 {
                1
            } else {
                n as int
            },
            FecLoad::Overhead(_) => ONE as int,
        }
    }

    pub open spec fn share_den(self) -> int {
        match self {
            FecLoad::Off => 1,
            FecLoad::Group(n) => if n == 0 {
                1
            } else {
                n + 1
            },
            FecLoad::Overhead(r) => ONE + r,
        }
    }

    /// The encoder's part of `kbps`, in whole kbit/s.
    pub open spec fn encoder_part_spec(self, kbps: u32) -> int {
        kbps * self.share_num() / self.share_den()
    }

    /// The encoder's part of a wire rate, rounded down.
    pub fn encoder_part(self, kbps: u32) -> (part: u32)
        ensures
            part == self.encoder_part_spec(kbps),
            part <= kbps,
            // Media and parity together stay within the wire rate.
            part * self.share_den() <= kbps * self.share_num(),
            match self {
                FecLoad::Off => part == kbps,
                FecLoad::Group(n) => if n == 0 {
                    part == kbps
                } else {
                    part * (n + 1) <= kbps * n < (part + 1) * (n + 1)
                },
                FecLoad::Overhead(r) => part * (1_000_000_000 + r) <= kbps * 1_000_000_000 < (part
                    + 1) * (1_000_000_000 + r),
            },
    {
        let (num, den): (u64, u64) = match self {
            FecLoad::Off => (1, 1),
            FecLoad::Group(n) => if n == 0 {
                (1, 1)
            } else {
                (n as u64, n as u64 + 1)
            },
            FecLoad::Overhead(r) => (ONE as u64, ONE as u64 + r as u64),
        };
        proof {
            let (k, a, b) = (kbps as int, num as int, den as int);
            assert(0 <= k * a <= 4_294_967_295 * 1_000_000_000) by (nonlinear_arith)
                requires
                    0 <= k <= 4_294_967_295,
                    0 <= a <= 1_000_000_000,
            ;
            assert(k * a <= k * b) by (nonlinear_arith)
                requires
                    0 <= k,
                    a <= b,
            ;
            assert(0 <= (k * a) / b <= k) by (nonlinear_arith)
                requires
                    0 <= k * a <= k * b,
                    b > 0,
            ;
            assert((k * a) / b * b <= k * a < ((k * a) / b + 1) * b) by (nonlinear_arith)
                requires
                    b > 0,
            ;
        }
        (kbps as u64 * num / den) as u32
    }
}

} // verus!
