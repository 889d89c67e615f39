//! Operating-point ladder: the resolution × fps points a session may run at, each with the
//! **minimum bitrate at which it still looks clean**. "Fewer clean pixels beat many broken
//! ones" — when the path's budget drops under a point's minimum, the controller steps down a
//! point instead of starving the encoder.

pub mod laws;

use crate::pipeline::VCodec;
use crate::text::push_decimal;
use vstd::prelude::*;
use vstd::string::StringExecFns;

verus! {

/// One rung of the ladder.
#[derive(Clone, Copy, Debug, PartialEq, Eq, Hash, Structural)]
pub struct Point {
    pub width: u32,
    pub height: u32,
    pub fps: u32,
    /// Below this bitrate (kbit/s) the point is considered too starved to be clean.
    pub min_kbps: u32,
}

impl Point {
    /// The point as people name it: `1080p60`.
    pub fn label(&self) -> (s: String)
        ensures
            s@ == crate::text::decimal(self.height as nat) + "p"@ + crate::text::decimal(
                self.fps as nat,
            ),
    {
        let mut s: String = String::new();
        push_decimal(&mut s, self.height);
        s.append("p");
        push_decimal(&mut s, self.fps);
        assert(s@ =~= crate::text::decimal(self.height as nat) + "p"@ + crate::text::decimal(
            self.fps as nat,
        ));
        s
    }

    /// Pixels per second.
    pub open spec fn pixel_rate(self) -> int {
        self.width * self.height * self.fps
    }

    /// This point ranks above another: it needs more bits, or as many for more pixels.
    pub open spec fn ranks_above(self, other: Point) -> bool {
        ||| self.min_kbps > other.min_kbps
        ||| self.min_kbps == other.min_kbps && self.pixel_rate() > other.pixel_rate()
    }
}

// ── Minimum bitrates ──────────────────────────────────────────────────────────────────

/// Reference minimums for H.264 at the canonical heights. Other heights/fps derive from the
/// same bits-per-pixel-per-second; HEVC/AV1 need ~30 % less.
pub open spec fn reference_min(h: u32, fps: u32) -> Option<u32> {
    if h == 1080 && fps == 60 {
        Some(8000)
    } else if h == 1080 && fps == 30 {
        Some(5000)
    } else if h == 720 && fps == 60 {
        Some(4000)
    } else if h == 720 && fps == 30 {
        Some(2500)
    } else if h == 540 && fps == 30 {
        Some(1200)
    } else if h == 360 && fps == 30 {
        Some(600)
    } else {
        None
    }
}

fn reference_for(h: u32, fps: u32) -> (r: Option<u32>)
    ensures
        r == reference_min(h, fps),
{
    if h == 1080 && fps == 60 {
        Some(8000)
    } else if h == 1080 && fps == 30 {
        Some(5000)
    } else if h == 720 && fps == 60 {
        Some(4000)
    } else if h == 720 && fps == 30 {
        Some(2500)
    } else if h == 540 && fps == 30 {
        Some(1200)
    } else if h == 360 && fps == 30 {
        Some(600)
    } else {
        None
    }
}

/// No point needs less than this (kbit/s).
pub const LEAST_MIN_KBPS: u32 = 200;

/// `x`, at least the least minimum and at most what 32 bits hold.
pub open spec fn as_min_kbps(x: int) -> int {
    if x < LEAST_MIN_KBPS {
        LEAST_MIN_KBPS as int
    } else if x > u32::MAX {
        u32::MAX as int
    } else {
        x
    }
}

/// Thousandths of a bit per pixel: 0.064 at 50 fps and more, 0.085 below.
pub open spec fn milli_bpp(fps: u32) -> int {
    if fps >= 50 {
        64
    } else {
        85
    }
}

/// Minimum bitrate for an arbitrary `w × h @ fps` (H.264 baseline) by bits/pixel/s, to the
/// nearest kbit/s.
pub open spec fn pixel_min(w: u32, h: u32, fps: u32) -> int {
    as_min_kbps((w * h * fps * milli_bpp(fps) + 500_000) / 1_000_000)
}

fn min_kbps_for(w: u32, h: u32, fps: u32) -> (k: u32)
    ensures
        k == pixel_min(w, h, fps),
{
    let mbpp: u128 = if fps >= 50 {
        64
    } else {
        85
    };
    proof {
        let (a, b, c, m) = (w as int, h as int, fps as int, mbpp as int);
        assert(0 <= a * b <= 0x1_0000_0000 * 0x1_0000_0000) by (nonlinear_arith)
            requires
                0 <= a < 0x1_0000_0000,
                0 <= b < 0x1_0000_0000,
        ;
        assert(0 <= a * b * c <= 0x1_0000_0000_0000_0000 * 0x1_0000_0000) by (nonlinear_arith)
            requires
                0 <= a * b <= 0x1_0000_0000_0000_0000,
                0 <= c < 0x1_0000_0000,
        ;
        assert(0 <= a * b * c * m <= 100 * (a * b * c)) by (nonlinear_arith)
            requires
                0 <= a * b * c,
                0 <= m <= 100,
        ;
    }
    let kbps: u128 = (w as u128 * h as u128 * fps as u128 * mbpp + 500_000) / 1_000_000;
    if kbps < 200 {
        LEAST_MIN_KBPS
    } else if kbps > u32::MAX as u128 {
        u32::MAX
    } else {
        kbps as u32
    }
}

/// Codec efficiency relative to H.264 in percent (lower = fewer bits for the same look).
pub open spec fn codec_percent(codec: VCodec) -> int {
    match codec {
        VCodec::H264 => 100,
        VCodec::H265 => 70,
        VCodec::Av1 => 65,
    }
}

fn codec_factor(codec: VCodec) -> (percent: u64)
    ensures
        percent == codec_percent(codec),
{
    match codec {
        VCodec::H264 => 100,
        VCodec::H265 => 70,
        VCodec::Av1 => 65,
    }
}

/// The minimum of a rung: the reference table where it applies (exact height + fps), else by
/// pixels; scaled to the codec, to the nearest kbit/s (a half counts for the codec).
pub open spec fn rung_min(codec: VCodec, w: u32, h: u32, fps: u32) -> int {
    let base = match reference_min(h, fps) {
        Some(k) => k as int,
        None => pixel_min(w, h, fps),
    };
    as_min_kbps((base * codec_percent(codec) + 49) / 100)
}

// ── Rungs ─────────────────────────────────────────────────────────────────────────────

/// The width at height `h` that keeps the aspect of `nw × nh`, rounded to a multiple of 16
/// (encoder-friendly), at least 160.
pub open spec fn scaled_width(nw: u32, nh: u32, h: u32) -> int {
    let w = (h * nw + 8 * nh) / (16 * nh) * 16;
    if w < 160 {
        160
    } else {
        w
    }
}

pub(crate) proof fn lemma_width_fits(nw: int, nh: int, h: int)
    requires
        0 <= nw < 0x1_0000_0000,
        0 < h < nh < 0x1_0000_0000,
        h <= 1080,
    ensures
        0 <= h * nw,
        h * nw + 8 * nh < 0x1_0000_0000_0000,
        0 <= (h * nw + 8 * nh) / (16 * nh) * 16 < 0x1_0000_0000,
{
    assert(0 <= h * nw <= 1080 * 0x1_0000_0000) by (nonlinear_arith)
        requires
            0 <= nw < 0x1_0000_0000,
            0 < h <= 1080,
    ;
    let top = h * nw + 8 * nh;
    let bot = 16 * nh;
    let q = top / bot;
    // q · 16 · nh ≤ h · nw + 8 · nh ≤ (1080/1081) · nh · 2^32 + 8 · nh.
    assert(1081 * h <= 1080 * nh) by {
        if nh <= 1081 {
            assert(1081 * h <= 1080 * nh) by (nonlinear_arith)
                requires
                    h + 1 <= nh <= 1081,
            ;
        }
    }
    assert(1081 * (h * nw) <= 1080 * nh * 0x1_0000_0000) by (nonlinear_arith)
        requires
            1081 * h <= 1080 * nh,
            0 <= nw <= 0x1_0000_0000,
            0 < nh,
    ;
    vstd::arithmetic::div_mod::lemma_fundamental_div_mod(top, bot);
    assert(bot * q <= top);
    assert(q >= 0) by (nonlinear_arith)
        requires
            top == bot * q + top % bot,
            top % bot < bot,
            top >= 0,
            bot > 0,
    ;
    assert(q * 16 < 0x1_0000_0000) by (nonlinear_arith)
        requires
            bot * q <= top,
            bot == 16 * nh,
            top == h * nw + 8 * nh,
            1081 * (h * nw) <= 1080 * nh * 0x1_0000_0000,
            nh > 0,
    ;
}

/// Width at height `h` for a native `nw × nh`.
fn even16(nw: u32, nh: u32, h: u32) -> (w: u32)
    requires
        0 < h < nh,
        h <= 1080,
    ensures
        w == scaled_width(nw, nh, h),
{
    proof {
        lemma_width_fits(nw as int, nh as int, h as int);
    }
    let w: u64 = (h as u64 * nw as u64 + 8 * nh as u64) / (16 * nh as u64) * 16;
    if w < 160 {
        160
    } else {
        w as u32
    }
}

/// The native capture, with 1920×1080@60 for what is unknown (0).
pub open spec fn or_default(x: u32, default: u32) -> u32 {
    if x == 0 {
        default
    } else {
        x
    }
}

/// The rung of a host with native capture `nw × nh` at height `h` and rate `fps`.
pub open spec fn rung(codec: VCodec, nw: u32, nh: u32, h: u32, fps: u32) -> Point {
    let w = if h == nh {
        nw
    } else {
        scaled_width(nw, nh, h) as u32
    };
    Point { width: w, height: h, fps, min_kbps: rung_min(codec, w, h, fps) as u32 }
}

/// The rungs at one height: the native rate and, from 50 fps on, 30 fps. At 540 lines and
/// below only the lower rate exists (motion is cheap at that size, spend the bits on pixels).
pub open spec fn rungs_at(codec: VCodec, nw: u32, nh: u32, nfps: u32, h: u32) -> Seq<Point> {
    if nfps < 50 {
        seq![rung(codec, nw, nh, h, nfps)]
    } else if h <= 540 {
        seq![rung(codec, nw, nh, h, 30)]
    } else {
        seq![rung(codec, nw, nh, h, nfps), rung(codec, nw, nh, h, 30)]
    }
}

/// The canonical heights.
pub open spec fn canonical_height(i: int) -> u32 {
    if i == 0 {
        1080
    } else if i == 1 {
        720
    } else if i == 2 {
        540
    } else {
        360
    }
}

/// The rungs at the first `k` canonical heights, without those at or above the native height.
pub open spec fn canonical_rungs(codec: VCodec, nw: u32, nh: u32, nfps: u32, k: nat) -> Seq<
    Point,
>
    decreases k,
{
    if k == 0 {
        Seq::empty()
    } else {
        let before = canonical_rungs(codec, nw, nh, nfps, (k - 1) as nat);
        let h = canonical_height(k - 1);
        if h < nh {
            before + rungs_at(codec, nw, nh, nfps, h)
        } else {
            before
        }
    }
}

/// All rungs of a host: at its native height, the native point first, and at the canonical
/// heights below.
pub open spec fn all_rungs(codec: VCodec, nw: u32, nh: u32, nfps: u32) -> Seq<Point> {
    rungs_at(codec, nw, nh, nfps, nh) + canonical_rungs(codec, nw, nh, nfps, 4)
}

/// The ladder of a host: the native point on top, then all other rungs by rank.
pub open spec fn ladder_of(codec: VCodec, nw: u32, nh: u32, nfps: u32) -> Seq<Point> {
    let top = rungs_at(codec, nw, nh, nfps, nh)[0];
    let rest = all_rungs(codec, nw, nh, nfps).skip(1);
    seq![top] + ranked(rest)
}

// ── Ranking ───────────────────────────────────────────────────────────────────────────

/// A ladder with one more rung, behind all that it does not rank above.
pub open spec fn ranked_in(ladder: Seq<Point>, p: Point) -> Seq<Point>
    decreases ladder.len(),
{
    if ladder.len() > 0 && p.ranks_above(ladder.last()) {
        ranked_in(ladder.drop_last(), p).push(ladder.last())
    } else {
        ladder.push(p)
    }
}

/// The rungs in order: highest rank first, equals in the order given.
pub open spec fn ranked(rungs: Seq<Point>) -> Seq<Point>
    decreases rungs.len(),
{
    if rungs.len() == 0 {
        Seq::empty()
    } else {
        ranked_in(ranked(rungs.drop_last()), rungs.last())
    }
}

/// No rung ranks above one that stands before it.
pub open spec fn is_ranked(ladder: Seq<Point>) -> bool {
    forall|i: int, j: int|
        0 <= i < j < ladder.len() ==> !(#[trigger] ladder[j]).ranks_above(#[trigger] ladder[i])
}

proof fn lemma_ranked_in_at(ladder: Seq<Point>, p: Point, k: int)
    requires
        0 <= k <= ladder.len(),
        forall|j: int| k <= j < ladder.len() ==> p.ranks_above(#[trigger] ladder[j]),
        k > 0 ==> !p.ranks_above(ladder[k - 1]),
    ensures
        ranked_in(ladder, p) == ladder.insert(k, p),
    decreases ladder.len(),
{
    if k == ladder.len() {
        assert(ladder.insert(k, p) =~= ladder.push(p));
    } else {
        let init = ladder.drop_last();
        assert(p.ranks_above(ladder[ladder.len() - 1]));
        assert forall|j: int| k <= j < init.len() implies p.ranks_above(#[trigger] init[j]) by {
            assert(init[j] == ladder[j]);
        }
        lemma_ranked_in_at(init, p, k);
        assert(init.insert(k, p).push(ladder.last()) =~= ladder.insert(k, p));
    }
}

fn ranks(a: &Point, b: &Point) -> (r: bool)
    ensures
        r == a.ranks_above(*b),
{
    proof {
        lemma_rate_fits(*a);
        lemma_rate_fits(*b);
    }
    let ra: u128 = a.width as u128 * a.height as u128 * a.fps as u128;
    let rb: u128 = b.width as u128 * b.height as u128 * b.fps as u128;
    a.min_kbps > b.min_kbps || (a.min_kbps == b.min_kbps && ra > rb)
}

proof fn lemma_rate_fits(p: Point)
    ensures
        0 <= p.width * p.height <= 0x1_0000_0000_0000_0000,
        0 <= p.pixel_rate() <= 0x1_0000_0000_0000_0000 * 0x1_0000_0000,
{
    let (a, b, c) = (p.width as int, p.height as int, p.fps as int);
    assert(0 <= a * b <= 0x1_0000_0000_0000_0000) by (nonlinear_arith)
        requires
            0 <= a < 0x1_0000_0000,
            0 <= b < 0x1_0000_0000,
    ;
    assert(0 <= a * b * c <= 0x1_0000_0000_0000_0000 * 0x1_0000_0000) by (nonlinear_arith)
        requires
            0 <= a * b <= 0x1_0000_0000_0000_0000,
            0 <= c < 0x1_0000_0000,
    ;
}

fn insert_ranked(ladder: &mut Vec<Point>, p: Point)
    ensures
        final(ladder)@ == ranked_in(old(ladder)@, p),
{
    let mut k: usize = ladder.len();
    while k > 0 && ranks(&p, &ladder[k - 1])
        invariant
            k <= ladder@.len(),
            forall|j: int| k <= j < ladder@.len() ==> p.ranks_above(#[trigger] ladder@[j]),
        ensures
            k <= ladder@.len(),
            forall|j: int| k <= j < ladder@.len() ==> p.ranks_above(#[trigger] ladder@[j]),
            k > 0 ==> !p.ranks_above(ladder@[k - 1]),
        decreases k,
    {
        k -= 1;
    }
    proof {
        lemma_ranked_in_at(ladder@, p, k as int);
    }
    ladder.insert(k, p);
}

/// The rung at height `h` and rate `fps`.
fn make_rung(codec: VCodec, nw: u32, nh: u32, h: u32, fps: u32) -> (p: Point)
    requires
        h == nh || (0 < h < nh && h <= 1080),
    ensures
        p == rung(codec, nw, nh, h, fps),
{
    let width: u32 = if h == nh {
        nw
    } else {
        even16(nw, nh, h)
    };
    // Prefer the reference table where it applies (exact height + fps).
    let base: u32 = match reference_for(h, fps) {
        Some(k) => k,
        None => min_kbps_for(width, h, fps),
    };
    let percent: u64 = codec_factor(codec);
    proof {
        let (b, c) = (base as int, percent as int);
        assert(0 <= b * c <= b * 100) by (nonlinear_arith)
            requires
                0 <= b,
                0 <= c <= 100,
        ;
    }
    let scaled: u64 = (base as u64 * percent + 49) / 100;
    assert(scaled == (base * codec_percent(codec) + 49) / 100);
    let min_kbps: u32 = if scaled < 200 {
        LEAST_MIN_KBPS
    } else {
        scaled as u32
    };
    Point { width, height: h, fps, min_kbps }
}

/// Rank the rungs at one height into the ladder.
fn add_rungs(ladder: &mut Vec<Point>, codec: VCodec, nw: u32, nh: u32, nfps: u32, h: u32)
    requires
        h == nh || (0 < h < nh && h <= 1080),
    ensures
        forall|rungs: Seq<Point>|
            old(ladder)@ == ranked(rungs) ==> final(ladder)@ == #[trigger] ranked(
                rungs + rungs_at(codec, nw, nh, nfps, h),
            ),
{
    let ghost start = ladder@;
    let ghost more = rungs_at(codec, nw, nh, nfps, h);
    if nfps < 50 {
        insert_ranked(ladder, make_rung(codec, nw, nh, h, nfps));
    } else if h <= 540 {
        insert_ranked(ladder, make_rung(codec, nw, nh, h, 30));
    } else {
        insert_ranked(ladder, make_rung(codec, nw, nh, h, nfps));
        insert_ranked(ladder, make_rung(codec, nw, nh, h, 30));
    }
    proof {
        assert forall|rungs: Seq<Point>| start == ranked(rungs) implies ladder@
            == #[trigger] ranked(rungs + more) by {
            let all = rungs + more;
            reveal_with_fuel(ranked, 3);
            if more.len() == 1 {
                assert(all.drop_last() =~= rungs);
                assert(all.last() == more[0]);
            } else {
                assert(all.drop_last().drop_last() =~= rungs);
                assert(all.drop_last().last() == more[0]);
                assert(all.last() == more[1]);
            }
        }
    }
}

/// Build the ladder for a host whose native capture is `native_w × native_h @ native_fps`
/// (0 = unknown → 1920×1080@60), highest quality first. Heights above the native one are
/// dropped; the native point is always the top rung; widths follow the native aspect ratio; fps
/// rungs are `native_fps` (if ≥ 50) and 30.
pub fn build(codec: VCodec, native_w: u32, native_h: u32, native_fps: u32) -> (ladder: Vec<Point>)
    ensures
        ladder@ == ladder_of(
            codec,
            or_default(native_w, 1920),
            or_default(native_h, 1080),
            or_default(native_fps, 60),
        ),
        laws::is_ladder_of(
            ladder@,
            codec,
            if native_w == 0 {
                1920
            } else {
                native_w
            },
            if native_h == 0 {
                1080
            } else {
                native_h
            },
            if native_fps == 0 {
                60
            } else {
                native_fps
            },
        ),
        ladder@.len() >= 1,
        is_ranked(ladder@.skip(1)),
        forall|i: int| 0 <= i < ladder@.len() ==> (#[trigger] ladder@[i]).min_kbps
            >= LEAST_MIN_KBPS,
{
    let nw: u32 = if native_w == 0 {
        1920
    } else {
        native_w
    };
    let nh: u32 = if native_h == 0 {
        1080
    } else {
        native_h
    };
    let nfps: u32 = if native_fps == 0 {
        60
    } else {
        native_fps
    };
    let ghost at_native = rungs_at(codec, nw, nh, nfps, nh);
    let ghost native_rest = at_native.skip(1);
    let mut ladder: Vec<Point> = Vec::new();
    assert(ladder@ =~= ranked(Seq::empty()));
    // The native point stands on top, so only the lower rate at its height is ranked.
    let top: Point = if nfps >= 50 && nh <= 540 {
        make_rung(codec, nw, nh, nh, 30)
    } else {
        make_rung(codec, nw, nh, nh, nfps)
    };
    assert(top == at_native[0]);
    if nfps >= 50 && nh > 540 {
        insert_ranked(&mut ladder, make_rung(codec, nw, nh, nh, 30));
        proof {
            reveal_with_fuel(ranked, 2);
            assert(native_rest =~= seq![at_native[1]]);
            assert(native_rest.drop_last() =~= Seq::empty());
        }
    } else {
        assert(native_rest =~= Seq::empty());
    }
    let mut k: usize = 0;
    assert(native_rest + canonical_rungs(codec, nw, nh, nfps, 0) =~= native_rest);
    while k < 4
        invariant
            k <= 4,
            nh > 0,
            ladder@ == ranked(native_rest + canonical_rungs(codec, nw, nh, nfps, k as nat)),
        decreases 4 - k,
    {
        let h: u32 = if k == 0 {
            1080
        } else if k == 1 {
            720
        } else if k == 2 {
            540
        } else {
            360
        };
        let ghost before = canonical_rungs(codec, nw, nh, nfps, k as nat);
        if h < nh {
            add_rungs(&mut ladder, codec, nw, nh, nfps, h);
            assert((native_rest + before) + rungs_at(codec, nw, nh, nfps, h) =~= native_rest + (
            before + rungs_at(codec, nw, nh, nfps, h)));
        }
        k += 1;
    }
    let ghost rest = all_rungs(codec, nw, nh, nfps).skip(1);
    assert(rest =~= native_rest + canonical_rungs(codec, nw, nh, nfps, 4));
    ladder.insert(0, top);
    proof {
        let all = all_rungs(codec, nw, nh, nfps);
        lemma_ranked(rest);
        lemma_least_min(codec, nw, nh, nfps);
        lemma_ranked_keeps(rest);
        laws::law_what_a_ladder_is(codec, nw, nh, nfps);
        assert(ladder@ =~= ladder_of(codec, nw, nh, nfps));
        assert(ladder@.skip(1) =~= ranked(rest));
        assert forall|i: int| 0 <= i < ladder@.len() implies (#[trigger] ladder@[i]).min_kbps
            >= LEAST_MIN_KBPS by {
            if i == 0 {
                assert(all[0] == top);
            } else {
                assert(rest.contains(ranked(rest)[i - 1]));
                let m = choose|m: int| 0 <= m < rest.len() && rest[m] == ladder@[i];
                assert(all[m + 1] == ladder@[i]);
            }
            assert(all.contains(ladder@[i]));
        }
    }
    ladder
}

proof fn lemma_ranked_in(ladder: Seq<Point>, p: Point)
    requires
        is_ranked(ladder),
    ensures
        is_ranked(ranked_in(ladder, p)),
        ranked_in(ladder, p).len() == ladder.len() + 1,
        ranked_in(ladder, p).to_multiset() == ladder.to_multiset().insert(p),
        forall|q: Point| #[trigger] ranked_in(ladder, p).contains(q) ==> q == p || ladder.contains(q),
    decreases ladder.len(),
{
    broadcast use vstd::seq_lib::group_to_multiset_ensures;

    let out = ranked_in(ladder, p);
    if ladder.len() > 0 && p.ranks_above(ladder.last()) {
        let init = ladder.drop_last();
        let last = ladder.last();
        assert(is_ranked(init)) by {
            assert forall|i: int, j: int| 0 <= i < j < init.len() implies !(
            #[trigger] init[j]).ranks_above(#[trigger] init[i]) by {
                assert(init[i] == ladder[i] && init[j] == ladder[j]);
            }
        }
        lemma_ranked_in(init, p);
        let head = ranked_in(init, p);
        assert forall|i: int, j: int| 0 <= i < j < out.len() implies !(
        #[trigger] out[j]).ranks_above(#[trigger] out[i]) by {
            if j == out.len() - 1 {
                assert(head.contains(head[i]));
                if head[i] != p {
                    let m = choose|m: int| 0 <= m < init.len() && init[m] == head[i];
                    assert(ladder[m] == head[i]);
                    assert(!ladder[ladder.len() - 1].ranks_above(ladder[m]));
                }
            }
        }
        assert(init.push(last) =~= ladder);
        assert forall|q: Point| #[trigger] out.contains(q) implies q == p || ladder.contains(q) by {
            let m = choose|m: int| 0 <= m < out.len() && out[m] == q;
            if m < head.len() {
                assert(head.contains(head[m]));
                if q != p {
                    let t = choose|t: int| 0 <= t < init.len() && init[t] == q;
                    assert(ladder[t] == q);
                }
            } else {
                assert(ladder[ladder.len() - 1] == q);
            }
        }
        assert(out.to_multiset() =~= ladder.to_multiset().insert(p));
    } else {
        assert forall|i: int, j: int| 0 <= i < j < out.len() implies !(
        #[trigger] out[j]).ranks_above(#[trigger] out[i]) by {
            if j == out.len() - 1 && ladder.len() > 0 {
                // p does not rank above the last rung, which ranks above none before it.
                assert(out[i] == ladder[i]);
                if i < ladder.len() - 1 {
                    assert(!ladder[ladder.len() - 1].ranks_above(ladder[i]));
                }
            } else {
                assert(out[i] == ladder[i] && out[j] == ladder[j]);
            }
        }
        assert forall|q: Point| #[trigger] out.contains(q) implies q == p || ladder.contains(q) by {
            let m = choose|m: int| 0 <= m < out.len() && out[m] == q;
            if m < ladder.len() {
                assert(ladder[m] == q);
            }
        }
    }
}

/// Ranking puts the rungs in order and neither loses nor adds one.
pub proof fn lemma_ranked(rungs: Seq<Point>)
    ensures
        is_ranked(ranked(rungs)),
        ranked(rungs).len() == rungs.len(),
        ranked(rungs).to_multiset() == rungs.to_multiset(),
    decreases rungs.len(),
{
    broadcast use vstd::seq_lib::group_to_multiset_ensures;

    if rungs.len() > 0 {
        let init = rungs.drop_last();
        lemma_ranked(init);
        lemma_ranked_in(ranked(init), rungs.last());
        assert(init.push(rungs.last()) =~= rungs);
    } else {
        assert(ranked(rungs) =~= rungs);
    }
}

/// Every ranked rung is one of the rungs.
pub proof fn lemma_ranked_keeps(rungs: Seq<Point>)
    ensures
        forall|i: int|
            0 <= i < ranked(rungs).len() ==> rungs.contains(#[trigger] ranked(rungs)[i]),
{
    broadcast use vstd::seq_lib::group_to_multiset_ensures;

    lemma_ranked(rungs);
    assert forall|i: int| 0 <= i < ranked(rungs).len() implies rungs.contains(
        #[trigger] ranked(rungs)[i],
    ) by {
        let p = ranked(rungs)[i];
        assert(ranked(rungs).contains(p));
        assert(ranked(rungs).to_multiset().contains(p));
        assert(rungs.to_multiset().contains(p));
    }
}

/// No rung needs less than the least minimum.
proof fn lemma_least_min(codec: VCodec, nw: u32, nh: u32, nfps: u32)
    ensures
        forall|p: Point| #[trigger]
            all_rungs(codec, nw, nh, nfps).contains(p) ==> p.min_kbps >= LEAST_MIN_KBPS,
{
    let top = rungs_at(codec, nw, nh, nfps, nh);
    let rest = canonical_rungs(codec, nw, nh, nfps, 4);
    lemma_least_min_below(codec, nw, nh, nfps, 4);
    assert forall|p: Point| #[trigger] all_rungs(codec, nw, nh, nfps).contains(p) implies p.min_kbps
        >= LEAST_MIN_KBPS by {
        let all = top + rest;
        let i = choose|i: int| 0 <= i < all.len() && all[i] == p;
        if i >= top.len() {
            assert(rest[i - top.len()] == p);
        }
    }
}

proof fn lemma_least_min_below(codec: VCodec, nw: u32, nh: u32, nfps: u32, k: nat)
    ensures
        forall|i: int|
            0 <= i < canonical_rungs(codec, nw, nh, nfps, k).len() ==> (
            #[trigger] canonical_rungs(codec, nw, nh, nfps, k)[i]).min_kbps >= LEAST_MIN_KBPS,
    decreases k,
{
    if k > 0 {
        lemma_least_min_below(codec, nw, nh, nfps, (k - 1) as nat);
        let before = canonical_rungs(codec, nw, nh, nfps, (k - 1) as nat);
        let all = canonical_rungs(codec, nw, nh, nfps, k);
        assert forall|i: int| 0 <= i < all.len() implies (#[trigger] all[i]).min_kbps
            >= LEAST_MIN_KBPS by {
            if i < before.len() {
                assert(all[i] == before[i]);
            } else {
                let h = canonical_height(k - 1);
                assert(all[i] == rungs_at(codec, nw, nh, nfps, h)[i - before.len()]);
            }
        }
    }
}

// ── Picking ───────────────────────────────────────────────────────────────────────────

/// A point's minimum fits `budget × num / den`.
pub open spec fn fits(p: Point, budget_kbps: u32, num: u32, den: u32) -> bool {
    p.min_kbps * den <= budget_kbps * num
}

/// The first point from `from` on whose minimum fits, else the last.
pub open spec fn first_fit(
    points: Seq<Point>,
    budget_kbps: u32,
    num: u32,
    den: u32,
    from: int,
) -> int
    decreases points.len() - from,
{
    if points.len() == 0 {
        0
    } else if from >= points.len() {
        points.len() - 1
    } else if fits(points[from], budget_kbps, num, den) {
        from
    } else {
        first_fit(points, budget_kbps, num, den, from + 1)
    }
}

/// Index of the highest point whose minimum fits `budget_kbps × num / den` (0.85 for the
/// working margin). Falls back to the lowest rung when nothing fits.
pub fn pick(points: &[Point], budget_kbps: u32, num: u32, den: u32) -> (i: usize)
    ensures
        i == first_fit(points@, budget_kbps, num, den, 0),
        points@.len() > 0 ==> i < points@.len(),
        // Nothing before it fits, and it fits unless it is the last.
        forall|k: int|
            0 <= k < i ==> (#[trigger] points@[k]).min_kbps * den > budget_kbps * num,
        i + 1 < points@.len() ==> points@[i as int].min_kbps * den <= budget_kbps * num,
{
    let mut i: usize = 0;
    proof {
        assert(0 <= budget_kbps * num <= u32::MAX * u32::MAX) by (nonlinear_arith)
            requires
                0 <= budget_kbps <= u32::MAX,
                0 <= num <= u32::MAX,
        ;
    }
    while i < points.len()
        invariant
            i <= points@.len(),
            forall|k: int|
                0 <= k < i ==> (#[trigger] points@[k]).min_kbps * den > budget_kbps * num,
            0 <= budget_kbps * num <= u32::MAX * u32::MAX,
            points@.len() > 0 ==> first_fit(points@, budget_kbps, num, den, 0) == first_fit(
                points@,
                budget_kbps,
                num,
                den,
                i as int,
            ),
        decreases points@.len() - i,
    {
        proof {
            let m = points@[i as int].min_kbps;
            assert(0 <= m * den <= u32::MAX * u32::MAX) by (nonlinear_arith)
                requires
                    0 <= m <= u32::MAX,
                    0 <= den <= u32::MAX,
            ;
        }
        if points[i].min_kbps as u64 * den as u64 <= budget_kbps as u64 * num as u64 {
            return i;
        }
        i += 1;
    }
    if points.len() == 0 {
        0
    } else {
        points.len() - 1
    }
}

} // verus!
