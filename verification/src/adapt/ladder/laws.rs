//! What the ladder promises as a whole.

use super::Point;
use crate::adapt::ladder;
use crate::pipeline::VCodec;
use vstd::prelude::*;

verus! {

proof fn lemma_first_fit(points: Seq<Point>, budget: u32, num: u32, den: u32, from: int)
    requires
        points.len() > 0,
        0 <= from <= points.len(),
    ensures
        ({
            let i = ladder::first_fit(points, budget, num, den, from);
            &&& 0 <= i < points.len()
            &&& from < points.len() ==> from <= i
            &&& forall|k: int|
                from <= k < i ==> !ladder::fits(#[trigger] points[k], budget, num, den)
            &&& ladder::fits(points[i], budget, num, den) || (i == points.len() - 1 && forall|k: int|
                from <= k < points.len() ==> !ladder::fits(#[trigger] points[k], budget, num, den))
        }),
    decreases points.len() - from,
{
    if from < points.len() && !ladder::fits(points[from], budget, num, den) {
        lemma_first_fit(points, budget, num, den, from + 1);
        let i = ladder::first_fit(points, budget, num, den, from);
        assert forall|k: int| from <= k < i implies !ladder::fits(
            #[trigger] points[k],
            budget,
            num,
            den,
        ) by {
            if k > from {
            }
        }
    } else if from == points.len() {
        // Nothing from here on: the last rung, whether it fits or not.
        assert(ladder::first_fit(points, budget, num, den, from) == points.len() - 1);
    }
}

/// The pick is the best that the budget buys: the native point if that fits; else, among the
/// others, one that fits if any does, and then none that fits needs more bits. When nothing fits
/// it is the lowest rung. Nothing above the pick fits.
pub proof fn law_pick_is_the_best_that_fits(
    points: Seq<Point>,
    budget: u32,
    num: u32,
    den: u32,
)
    requires
        points.len() > 0,
        ladder::is_ranked(points.skip(1)),
    ensures
        ({
            let i = ladder::first_fit(points, budget, num, den, 0);
            &&& 0 <= i < points.len()
            &&& forall|k: int|
                0 <= k < i ==> !ladder::fits(#[trigger] points[k], budget, num, den)
            &&& ladder::fits(points[0], budget, num, den) ==> i == 0
            &&& forall|k: int|
                0 <= k < points.len() && ladder::fits(#[trigger] points[k], budget, num, den)
                    ==> ladder::fits(points[i], budget, num, den) && (i == 0 || points[k].min_kbps
                    <= points[i].min_kbps)
            &&& (forall|k: int|
                0 <= k < points.len() ==> !ladder::fits(#[trigger] points[k], budget, num, den))
                ==> i == points.len() - 1
        }),
{
    lemma_first_fit(points, budget, num, den, 0);
    let i = ladder::first_fit(points, budget, num, den, 0);
    assert forall|k: int|
        0 <= k < points.len() && ladder::fits(#[trigger] points[k], budget, num, den) implies {
        &&& ladder::fits(points[i], budget, num, den)
        &&& i == 0 || points[k].min_kbps <= points[i].min_kbps
    } by {
        if k > i && i > 0 {
            let below = points.skip(1);
            assert(below[k - 1] == points[k] && below[i - 1] == points[i]);
            assert(!below[k - 1].ranks_above(below[i - 1]));
        }
    }
}

/// More budget never picks a lower rung.
pub proof fn law_pick_is_monotone(
    points: Seq<Point>,
    less: u32,
    more: u32,
    num: u32,
    den: u32,
)
    requires
        points.len() > 0,
        less <= more,
    ensures
        ladder::first_fit(points, more, num, den, 0) <= ladder::first_fit(points, less, num, den, 0),
{
    lemma_first_fit(points, less, num, den, 0);
    lemma_first_fit(points, more, num, den, 0);
    let i = ladder::first_fit(points, less, num, den, 0);
    if ladder::fits(points[i], less, num, den) {
        assert(less * num <= more * num) by (nonlinear_arith)
            requires
                0 <= less <= more,
                0 <= num,
        ;
        assert(ladder::fits(points[i], more, num, den));
    }
}

/// HEVC never needs more bits than H.264 for the same picture, nor AV1 more than HEVC.
pub proof fn law_newer_codecs_need_no_more(w: u32, h: u32, fps: u32)
    ensures
        ladder::rung_min(VCodec::Av1, w, h, fps) <= ladder::rung_min(VCodec::H265, w, h, fps),
        ladder::rung_min(VCodec::H265, w, h, fps) <= ladder::rung_min(VCodec::H264, w, h, fps),
{
}

/// A rung of the host: at its native height or at a canonical one below.
pub open spec fn is_rung_height(nh: u32, h: u32) -> bool {
    h == nh || (h < nh && (h == 1080 || h == 720 || h == 540 || h == 360))
}

proof fn lemma_canonical(codec: VCodec, nw: u32, nh: u32, nfps: u32, k: nat)
    requires
        k <= 4,
    ensures
        forall|i: int|
            0 <= i < ladder::canonical_rungs(codec, nw, nh, nfps, k).len() ==> {
                let p = #[trigger] ladder::canonical_rungs(codec, nw, nh, nfps, k)[i];
                &&& p == ladder::rung(codec, nw, nh, p.height, p.fps)
                &&& p.height < nh
                &&& exists|m: int| 0 <= m < k && p.height == #[trigger] ladder::canonical_height(m)
                &&& if nfps < 50 {
                    p.fps == nfps
                } else {
                    p.fps == 30 || (p.fps == nfps && p.height > 540)
                }
            },
        forall|i: int, j: int|
            #![trigger ladder::canonical_rungs(codec, nw, nh, nfps, k)[i], ladder::canonical_rungs(codec, nw, nh, nfps, k)[j]]
            0 <= i < j < ladder::canonical_rungs(codec, nw, nh, nfps, k).len() ==> {
                let p = ladder::canonical_rungs(codec, nw, nh, nfps, k)[i];
                let q = ladder::canonical_rungs(codec, nw, nh, nfps, k)[j];
                p.height != q.height || p.fps != q.fps
            },
    decreases k,
{
    if k > 0 {
        lemma_canonical(codec, nw, nh, nfps, (k - 1) as nat);
        let before = ladder::canonical_rungs(codec, nw, nh, nfps, (k - 1) as nat);
        let all = ladder::canonical_rungs(codec, nw, nh, nfps, k);
        let h = ladder::canonical_height(k - 1);
        let here = ladder::rungs_at(codec, nw, nh, nfps, h);
        assert forall|i: int| 0 <= i < all.len() implies {
            let p = #[trigger] all[i];
            &&& p == ladder::rung(codec, nw, nh, p.height, p.fps)
            &&& p.height < nh
            &&& exists|m: int| 0 <= m < k && p.height == #[trigger] ladder::canonical_height(m)
            &&& if nfps < 50 {
                p.fps == nfps
            } else {
                p.fps == 30 || (p.fps == nfps && p.height > 540)
            }
        } by {
            if i < before.len() {
                assert(all[i] == before[i]);
                let m = choose|m: int|
                    0 <= m < k - 1 && before[i].height == #[trigger] ladder::canonical_height(m);
                assert(0 <= m < k && all[i].height == ladder::canonical_height(m));
            } else {
                assert(all[i] == here[i - before.len()]);
                assert(all[i].height == ladder::canonical_height(k - 1));
            }
        }
        assert forall|i: int, j: int|
            #![trigger all[i], all[j]]
            0 <= i < j < all.len() implies all[i].height != all[j].height || all[i].fps
            != all[j].fps by {
            if j < before.len() {
                assert(all[i] == before[i] && all[j] == before[j]);
            } else if i < before.len() {
                assert(all[i] == before[i]);
                let m = choose|m: int|
                    0 <= m < k - 1 && before[i].height == #[trigger] ladder::canonical_height(m);
                assert(all[j].height == ladder::canonical_height(k - 1));
                assert(ladder::canonical_height(m) != ladder::canonical_height(k - 1));
            } else {
                assert(all[i] == here[i - before.len()]);
                assert(all[j] == here[j - before.len()]);
            }
        }
    }
}

/// Every rung keeps within the host's native capture: no height above the native one, no rate
/// but the native and 30 fps (only the lower at 540 lines and below), the width that keeps the
/// native aspect. The native height is always there, and no two rungs share height and rate.
pub proof fn law_rungs_stay_within_native(codec: VCodec, nw: u32, nh: u32, nfps: u32)
    ensures
        ({
            let all = ladder::all_rungs(codec, nw, nh, nfps);
            &&& all.len() >= 1
            &&& all[0].height == nh && all[0].width == nw
            &&& all[0].fps == (if nfps >= 50 && nh <= 540 {
                30
            } else {
                nfps
            })
            &&& forall|i: int|
                0 <= i < all.len() ==> {
                    let p = #[trigger] all[i];
                    &&& is_rung_height(nh, p.height)
                    &&& p.height <= nh
                    &&& p == ladder::rung(codec, nw, nh, p.height, p.fps)
                    &&& p.fps == nfps || (nfps >= 50 && p.fps == 30)
                    &&& nfps >= 50 && p.height <= 540 ==> p.fps == 30
                }
            &&& forall|i: int, j: int|
                #![trigger all[i], all[j]]
                0 <= i < j < all.len() ==> all[i].height != all[j].height || all[i].fps
                    != all[j].fps
        }),
{
    lemma_canonical(codec, nw, nh, nfps, 4);
    let all = ladder::all_rungs(codec, nw, nh, nfps);
    let top = ladder::rungs_at(codec, nw, nh, nfps, nh);
    let rest = ladder::canonical_rungs(codec, nw, nh, nfps, 4);
    assert forall|i: int| 0 <= i < all.len() implies {
        let p = #[trigger] all[i];
        &&& is_rung_height(nh, p.height)
        &&& p.height <= nh
        &&& p == ladder::rung(codec, nw, nh, p.height, p.fps)
        &&& p.fps == nfps || (nfps >= 50 && p.fps == 30)
        &&& nfps >= 50 && p.height <= 540 ==> p.fps == 30
    } by {
        if i < top.len() {
            assert(all[i] == top[i]);
        } else {
            assert(all[i] == rest[i - top.len()]);
            let m = choose|m: int|
                0 <= m < 4 && all[i].height == #[trigger] ladder::canonical_height(m);
        }
    }
    assert forall|i: int, j: int|
        #![trigger all[i], all[j]]
        0 <= i < j < all.len() implies all[i].height != all[j].height || all[i].fps
        != all[j].fps by {
        if j < top.len() {
            assert(all[i] == top[i] && all[j] == top[j]);
        } else {
            assert(all[j] == rest[j - top.len()]);
            if i < top.len() {
                assert(all[i] == top[i]);
            } else {
                assert(all[i] == rest[i - top.len()]);
            }
        }
    }
}

/// The native point is always the top rung: the native size, at the native rate (at 540 lines
/// and below a fast capture has only its 30 fps rung).
pub proof fn law_native_is_on_top(codec: VCodec, nw: u32, nh: u32, nfps: u32)
    ensures
        ({
            let ladder = ladder::ladder_of(codec, nw, nh, nfps);
            &&& ladder.len() >= 1
            &&& ladder[0].width == nw
            &&& ladder[0].height == nh
            &&& ladder[0].fps == (if nfps >= 50 && nh <= 540 {
                30
            } else {
                nfps
            })
            &&& ladder[0] == ladder::rung(codec, nw, nh, nh, ladder[0].fps)
        }),
{
}

/// Below the top the ladder is ranked.
pub(crate) proof fn lemma_ladder_is_ranked(codec: VCodec, nw: u32, nh: u32, nfps: u32)
    ensures
        ladder::is_ranked(ladder::ladder_of(codec, nw, nh, nfps).skip(1)),
        1 <= ladder::ladder_of(codec, nw, nh, nfps).len() <= 10,
{
    let rest = ladder::all_rungs(codec, nw, nh, nfps).skip(1);
    ladder::lemma_ranked(rest);
    assert(ladder::ladder_of(codec, nw, nh, nfps).skip(1) =~= ladder::ranked(rest));
    reveal_with_fuel(ladder::canonical_rungs, 5);
}

/// The ladder holds every rung of the host, each once, and below the top it is in order: no rung
/// needs more bits than one before it.
pub proof fn law_the_rest_is_ranked(codec: VCodec, nw: u32, nh: u32, nfps: u32)
    ensures
        ({
            let ladder = ladder::ladder_of(codec, nw, nh, nfps);
            let all = ladder::all_rungs(codec, nw, nh, nfps);
            &&& ladder.len() == all.len()
            &&& ladder.to_multiset() == all.to_multiset()
            &&& forall|i: int, j: int|
                #![trigger ladder[i], ladder[j]]
                1 <= i < j < ladder.len() ==> ladder[j].min_kbps <= ladder[i].min_kbps
        }),
{
    broadcast use vstd::seq_lib::group_to_multiset_ensures;

    let ladder = ladder::ladder_of(codec, nw, nh, nfps);
    let all = ladder::all_rungs(codec, nw, nh, nfps);
    let rest = all.skip(1);
    ladder::lemma_ranked(rest);
    let below = ladder::ranked(rest);
    vstd::seq_lib::lemma_multiset_commutative(seq![all[0]], below);
    vstd::seq_lib::lemma_multiset_commutative(seq![all[0]], rest);
    assert(all =~= seq![all[0]] + rest);
    assert forall|i: int, j: int|
        #![trigger ladder[i], ladder[j]]
        1 <= i < j < ladder.len() implies ladder[j].min_kbps <= ladder[i].min_kbps by {
        assert(ladder[i] == below[i - 1] && ladder[j] == below[j - 1]);
        assert(!below[j - 1].ranks_above(below[i - 1]));
    }
}

// ── What a ladder is, in numbers ──────────────────────────────────────────────────────

/// What H.264 needs for a clean picture (kbit/s): a table for the usual sizes, else 0.064 bits a
/// pixel at 50 fps and more, 0.085 below, to the nearest kbit/s and at least 200.
pub open spec fn is_h264_need(kbps: int, w: u32, h: u32, fps: u32) -> bool {
    if h == 1080 && fps == 60 {
        kbps == 8000
    } else if h == 1080 && fps == 30 {
        kbps == 5000
    } else if h == 720 && fps == 60 {
        kbps == 4000
    } else if h == 720 && fps == 30 {
        kbps == 2500
    } else if h == 540 && fps == 30 {
        kbps == 1200
    } else if h == 360 && fps == 30 {
        kbps == 600
    } else {
        let milli_bits = w * h * fps * (if fps >= 50 {
            64int
        } else {
            85
        });
        &&& 200 <= kbps <= u32::MAX
        &&& kbps > 200 ==> kbps * 1_000_000 <= milli_bits + 500_000
        &&& kbps < u32::MAX ==> milli_bits + 500_000 < (kbps + 1) * 1_000_000
    }
}

/// What a codec needs where H.264 needs `h264`: HEVC 70 % of it, AV1 65 %, to the nearest kbit/s
/// and at least 200.
pub open spec fn is_codec_need(kbps: int, codec: VCodec, h264: int) -> bool {
    let percent = match codec {
        VCodec::H264 => 100int,
        VCodec::H265 => 70,
        VCodec::Av1 => 65,
    };
    &&& 200 <= kbps
    &&& kbps > 200 ==> 100 * kbps <= h264 * percent + 49
    &&& h264 * percent + 49 < 100 * (kbps + 1)
}

/// A width that keeps the aspect of `nw × nh` at height `h`, to the nearest multiple of 16, at
/// least 160; at the native height it is the native one.
pub open spec fn is_width(w: u32, nw: u32, nh: u32, h: u32) -> bool {
    if h == nh {
        w == nw
    } else {
        &&& w % 16 == 0
        &&& w >= 160
        &&& w > 160 ==> w * nh <= h * nw + 8 * nh
        &&& h * nw + 8 * nh < (w + 16) * nh
    }
}

/// A height and a rate that a host with that capture has a rung at: its own height or a usual one
/// below, at its own rate, and from 50 fps on at 30 fps too (only that, at 540 lines and below).
pub open spec fn has_rung(nh: u32, nfps: u32, h: u32, fps: u32) -> bool {
    &&& h == nh || (h < nh && (h == 1080 || h == 720 || h == 540 || h == 360))
    &&& if nfps < 50 {
        fps == nfps
    } else if h <= 540 {
        fps == 30
    } else {
        fps == nfps || fps == 30
    }
}

/// The ladder of a host with native capture `nw × nh @ nfps`: a rung for each height and rate that
/// it has, once each, with the width that keeps the aspect and what the codec needs there; the
/// native height at its highest rate on top, the others by what they need, the most first (then
/// by pixels).
pub open spec fn is_ladder_of(
    ladder: Seq<Point>,
    codec: VCodec,
    nw: u32,
    nh: u32,
    nfps: u32,
) -> bool {
    &&& ladder.len() >= 1
    &&& ladder[0].height == nh
    &&& nfps < 50 || nh > 540 ==> ladder[0].fps == nfps
    &&& forall|i: int|
        0 <= i < ladder.len() ==> is_rung_of(#[trigger] ladder[i], codec, nw, nh, nfps)
    &&& forall|h: u32, fps: u32| #[trigger]
        has_rung(nh, nfps, h, fps) ==> exists|i: int|
            0 <= i < ladder.len() && (#[trigger] ladder[i]).height == h && ladder[i].fps == fps
    &&& forall|i: int, j: int|
        #![trigger ladder[i], ladder[j]]
        0 <= i < j < ladder.len() ==> ladder[i].height != ladder[j].height || ladder[i].fps
            != ladder[j].fps
    &&& forall|i: int, j: int|
        #![trigger ladder[i], ladder[j]]
        1 <= i < j < ladder.len() ==> ladder[j].min_kbps < ladder[i].min_kbps || (
        ladder[j].min_kbps == ladder[i].min_kbps && ladder[j].width * ladder[j].height
            * ladder[j].fps <= ladder[i].width * ladder[i].height * ladder[i].fps)
}

/// A rung of such a host.
pub open spec fn is_rung_of(p: Point, codec: VCodec, nw: u32, nh: u32, nfps: u32) -> bool {
    &&& has_rung(nh, nfps, p.height, p.fps)
    &&& is_width(p.width, nw, nh, p.height)
    &&& exists|need: int|
        #![trigger is_codec_need(p.min_kbps as int, codec, need)]
        is_h264_need(need, p.width, p.height, p.fps) && is_codec_need(
            p.min_kbps as int,
            codec,
            need,
        )
}

proof fn lemma_rung(codec: VCodec, nw: u32, nh: u32, nfps: u32, h: u32, fps: u32)
    requires
        has_rung(nh, nfps, h, fps),
    ensures
        is_rung_of(ladder::rung(codec, nw, nh, h, fps), codec, nw, nh, nfps),
{
    let p = ladder::rung(codec, nw, nh, h, fps);
    if h != nh {
        ladder::lemma_width_fits(nw as int, nh as int, h as int);
        let (top, bot) = (h * nw + 8 * nh, 16 * nh as int);
        let q = top / bot;
        vstd::arithmetic::div_mod::lemma_fundamental_div_mod(top, bot);
        assert(q * 16 * nh <= top < (q * 16 + 16) * nh) by (nonlinear_arith)
            requires
                top == bot * q + top % bot,
                0 <= top % bot < bot,
                bot == 16 * nh,
        ;
        if q * 16 < 160 {
            assert((q * 16 + 16) * nh <= 176 * nh) by (nonlinear_arith)
                requires
                    q * 16 < 160,
                    nh > 0,
            ;
        }
    }
    let w = p.width;
    let need = match ladder::reference_min(h, fps) {
        Some(k) => k as int,
        None => ladder::pixel_min(w, h, fps),
    };
    let bits = w * h * fps * ladder::milli_bpp(fps);
    assert(0 <= bits) by (nonlinear_arith)
        requires
            bits == w * h * fps * ladder::milli_bpp(fps),
            ladder::milli_bpp(fps) > 0,
            w >= 0,
            h >= 0,
            fps >= 0,
    ;
    assert(is_h264_need(need, w, h, fps));
    let c = ladder::codec_percent(codec);
    assert(0 <= need * c <= need * 100) by (nonlinear_arith)
        requires
            0 <= need,
            0 < c <= 100,
    ;
    assert(is_codec_need(p.min_kbps as int, codec, need));
}

proof fn lemma_canonical_is_there(codec: VCodec, nw: u32, nh: u32, nfps: u32, h: u32, fps: u32)
    requires
        has_rung(nh, nfps, h, fps),
    ensures
        ladder::all_rungs(codec, nw, nh, nfps).contains(ladder::rung(codec, nw, nh, h, fps)),
{
    let p = ladder::rung(codec, nw, nh, h, fps);
    let top = ladder::rungs_at(codec, nw, nh, nfps, nh);
    let c0 = ladder::canonical_rungs(codec, nw, nh, nfps, 0);
    let c1 = ladder::canonical_rungs(codec, nw, nh, nfps, 1);
    let c2 = ladder::canonical_rungs(codec, nw, nh, nfps, 2);
    let c3 = ladder::canonical_rungs(codec, nw, nh, nfps, 3);
    let c4 = ladder::canonical_rungs(codec, nw, nh, nfps, 4);
    let all = ladder::all_rungs(codec, nw, nh, nfps);
    let here = ladder::rungs_at(codec, nw, nh, nfps, h);
    let j: int = if here[0] == p {
        0
    } else {
        1
    };
    assert(here[j] == p);
    if h == nh {
        assert(all[j] == p);
    } else {
        let before = if h == 1080 {
            c0
        } else if h == 720 {
            c1
        } else if h == 540 {
            c2
        } else {
            c3
        };
        let k = before.len() + j;
        if h == 1080 {
            assert(c1 == c0 + here);
            assert(c1[k] == p);
        } else if h == 720 {
            assert(c2 == c1 + here);
            assert(c2[k] == p);
        } else if h == 540 {
            assert(c3 == c2 + here);
            assert(c3[k] == p);
        } else {
            assert(c4 == c3 + here);
        }
        if h == 1080 {
            assert(c2[k] == p);
        }
        if h >= 720 {
            assert(c3[k] == p);
        }
        assert(c4[k] == p);
        assert(all[top.len() + k] == p);
    }
}

/// What is built is such a ladder.
pub proof fn law_what_a_ladder_is(codec: VCodec, nw: u32, nh: u32, nfps: u32)
    ensures
        is_ladder_of(ladder::ladder_of(codec, nw, nh, nfps), codec, nw, nh, nfps),
{
    let ladder = ladder::ladder_of(codec, nw, nh, nfps);
    let all = ladder::all_rungs(codec, nw, nh, nfps);
    law_rungs_stay_within_native(codec, nw, nh, nfps);
    law_native_is_on_top(codec, nw, nh, nfps);
    law_the_rest_is_ranked(codec, nw, nh, nfps);
    lemma_ladder_is_ranked(codec, nw, nh, nfps);
    let below = ladder.skip(1);
    assert forall|i: int| 0 <= i < ladder.len() implies all.contains(#[trigger] ladder[i]) by {
        broadcast use vstd::seq_lib::group_to_multiset_ensures;

        assert(ladder.contains(ladder[i]));
        assert(ladder.to_multiset().contains(ladder[i]));
        assert(all.to_multiset().contains(ladder[i]));
    }
    assert forall|i: int| 0 <= i < ladder.len() implies is_rung_of(
        #[trigger] ladder[i],
        codec,
        nw,
        nh,
        nfps,
    ) by {
        let m = choose|m: int| 0 <= m < all.len() && all[m] == ladder[i];
        let p = all[m];
        lemma_rung(codec, nw, nh, nfps, p.height, p.fps);
    }
    assert forall|h: u32, fps: u32| #[trigger] has_rung(nh, nfps, h, fps) implies exists|i: int|
        0 <= i < ladder.len() && (#[trigger] ladder[i]).height == h && ladder[i].fps == fps by {
        broadcast use vstd::seq_lib::group_to_multiset_ensures;

        lemma_canonical_is_there(codec, nw, nh, nfps, h, fps);
        let p = ladder::rung(codec, nw, nh, h, fps);
        assert(all.to_multiset().contains(p));
        assert(ladder.to_multiset().contains(p));
        assert(ladder.contains(p));
        let i = choose|i: int| 0 <= i < ladder.len() && ladder[i] == p;
        assert(ladder[i].height == h && ladder[i].fps == fps);
    }
    lemma_no_two_share(ladder, all);
    assert forall|i: int, j: int|
        #![trigger ladder[i], ladder[j]]
        1 <= i < j < ladder.len() implies ladder[j].min_kbps < ladder[i].min_kbps || (
    ladder[j].min_kbps == ladder[i].min_kbps && ladder[j].width * ladder[j].height * ladder[j].fps
        <= ladder[i].width * ladder[i].height * ladder[i].fps) by {
        assert(below[i - 1] == ladder[i] && below[j - 1] == ladder[j]);
        assert(!below[j - 1].ranks_above(below[i - 1]));
    }
}

/// What is rearranged shares no more than before.
proof fn lemma_no_two_share(ladder: Seq<Point>, all: Seq<Point>)
    requires
        ladder.to_multiset() == all.to_multiset(),
        forall|i: int, j: int|
            #![trigger all[i], all[j]]
            0 <= i < j < all.len() ==> all[i].height != all[j].height || all[i].fps != all[j].fps,
    ensures
        forall|i: int, j: int|
            #![trigger ladder[i], ladder[j]]
            0 <= i < j < ladder.len() ==> ladder[i].height != ladder[j].height || ladder[i].fps
                != ladder[j].fps,
{
    broadcast use vstd::seq_lib::group_to_multiset_ensures;

    assert(all.no_duplicates());
    all.lemma_multiset_has_no_duplicates();
    assert forall|x: Point| ladder.to_multiset().contains(x) implies ladder.to_multiset().count(x)
        == 1 by {
        assert(all.to_multiset().contains(x));
    }
    ladder.lemma_multiset_has_no_duplicates_conv();
    assert forall|i: int, j: int|
        #![trigger ladder[i], ladder[j]]
        0 <= i < j < ladder.len() implies ladder[i].height != ladder[j].height || ladder[i].fps
        != ladder[j].fps by {
        let (p, q) = (ladder[i], ladder[j]);
        assert(ladder.contains(p) && ladder.contains(q));
        assert(all.to_multiset().contains(p) && all.to_multiset().contains(q));
        assert(all.contains(p) && all.contains(q));
        let a = choose|a: int| 0 <= a < all.len() && all[a] == p;
        let b = choose|b: int| 0 <= b < all.len() && all[b] == q;
        assert(p != q);
        if a < b {
            assert(all[a] == p && all[b] == q);
        } else {
            assert(all[b] == q && all[a] == p);
        }
    }
}

} // verus!
