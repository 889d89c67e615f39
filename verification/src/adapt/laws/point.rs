//! Where a window leaves the operating point and the encoder, told by the target that it comes to,
//! with every number written out.

use crate::adapt::fec_policy::FecLoad;
use crate::adapt::ladder;
use crate::adapt::ladder::Point;
use crate::adapt::laws;
use crate::adapt::laws::decision;
use crate::adapt::laws::window;
use crate::adapt::rules;
use crate::adapt::rules::{ControlView, SampleView};
use vstd::prelude::*;

verus! {

// ── The encoder's part ────────────────────────────────────────────────────────────────

/// What a parity load leaves of a wire rate, not under the floor: `n/(n+1)` with one parity packet
/// per `n`, `1/(1+r)` at an overhead of `r`.
pub open spec fn net_of(load: FecLoad, kbps: u32) -> int {
    let net = match load {
        FecLoad::Off => kbps as int,
        FecLoad::Group(n) => if n == 0 {
            kbps as int
        } else {
            kbps * n / (n + 1)
        },
        FecLoad::Overhead(r) => kbps * 1_000_000_000 / (1_000_000_000 + r),
    };
    if net >= 300 || kbps <= net {
        net
    } else if kbps < 300 {
        kbps as int
    } else {
        300
    }
}

pub(crate) proof fn lemma_net_of(load: FecLoad, kbps: u32)
    ensures
        rules::encoder_rate_of(load, kbps) == net_of(load, kbps),
        0 <= net_of(load, kbps) <= kbps,
{
    reveal(rules::encoder_rate_of);
    let (k, a, b) = (kbps as int, load.share_num(), load.share_den());
    assert(0 <= (k * a) / b <= k) by (nonlinear_arith)
        requires
            0 <= k,
            0 < a <= b,
    ;
    assert(k * 1 / 1 == k);
}

/// After every window the encoder has what the parity load leaves of the target, and is told so
/// exactly when that is not what it had.
pub proof fn law_the_encoder_gets_what_parity_leaves(v: ControlView, s: SampleView)
    requires
        laws::takes(v, s),
    ensures
        ({
            let (t, out) = v.ticked(s);
            &&& t.fec == v.fec
            &&& t.encoder_kbps == net_of(v.fec, t.target)
            &&& t.encoder_kbps == v.encoder_kbps ==> out.bitrate is None
            &&& t.encoder_kbps != v.encoder_kbps ==> out.bitrate == Some(t.encoder_kbps)
        }),
{
    laws::law_media_and_parity_fit_the_target(v, s);
    lemma_net_of(v.fec, v.ticked(s).0.target);
}

// ── The ladder ────────────────────────────────────────────────────────────────────────

/// The point's minimum fits 85 % of a rate.
pub open spec fn affords(kbps: u32, p: Point) -> bool {
    p.min_kbps * 100 <= kbps * 85
}

/// The rate is at least 1.2 times the point's minimum.
pub open spec fn has_headroom(kbps: u32, p: Point) -> bool {
    p.min_kbps * 120 <= kbps * 100
}

/// The ladder may move from the point: it is not pinned, and the last move is two windows back.
pub open spec fn may_move(v: ControlView) -> bool {
    !v.manual_point && v.point_age >= 1
}

/// A target under what the point needs leaves it for a lower one, as soon as the ladder may move
/// (at once when it is under 70 % of that): for the next one down, or further down past all that
/// 85 % of the target does not buy.
pub proof fn law_a_starved_point_is_left_for_one_that_fits(v: ControlView, s: SampleView)
    requires
        laws::takes(v, s),
        !v.manual_point,
        v.point_idx + 1 < v.points.len(),
        window::after(v, s).target < v.points[v.point_idx].min_kbps,
        may_move(v) || window::after(v, s).target * 10 < v.points[v.point_idx].min_kbps * 7,
    ensures
        ({
            let t = window::after(v, s);
            let i = t.point_idx;
            &&& v.point_idx < i < v.points.len()
            &&& i > v.point_idx + 1 ==> forall|k: int|
                0 <= k < i ==> !affords(t.target, #[trigger] v.points[k])
            &&& i < v.points.len() - 1 ==> exists|k: int|
                0 <= k <= i && affords(t.target, #[trigger] v.points[k])
            &&& v.ticked(s).1.point == Some(v.points[i])
            &&& t.points == v.points
            &&& t.point_age == 0
            &&& t.clean_at_point == 0
        }),
{
    laws::lemma_measured(v, s);
    let (m, out) = v.measured(s).recovering(s.total());
    laws::lemma_rules_leave_the_rest(m, s.total(), out);
    let (w, o) = m.applied(s.total(), out);
    laws::lemma_finish_leaves_the_rest(w, o);
    reveal(ControlView::finished);
    let t = window::after(v, s);
    ladder::laws::law_pick_is_the_best_that_fits(v.points, t.target, 85, 100);
    let a = ladder::first_fit(v.points, t.target, 85, 100, 0);
    assert forall|k: int| 0 <= k < a implies !affords(t.target, #[trigger] v.points[k]) by {
        assert(!ladder::fits(v.points[k], t.target, 85, 100));
    }
    if a < v.points.len() - 1 {
        if !affords(t.target, v.points[a]) {
            assert forall|k: int| 0 <= k < v.points.len() implies !ladder::fits(
                #[trigger] v.points[k],
                t.target,
                85,
                100,
            ) by {
                if ladder::fits(v.points[k], t.target, 85, 100) {
                    assert(ladder::fits(v.points[a], t.target, 85, 100));
                }
            }
        }
        assert(affords(t.target, v.points[a]));
    }
}

/// A clean stretch with headroom goes up: with the tenth clean window in a row at a point (the
/// second during startup), as soon as the ladder may move, to the best point that the target has
/// 1.2 times the minimum of, several rungs at once if need be.
pub proof fn law_a_clean_stretch_with_headroom_goes_up(v: ControlView, s: SampleView, k: int)
    requires
        laws::takes(v, s),
        decision::clean(v, s),
        may_move(v),
        0 <= k < v.point_idx,
        has_headroom(window::after(v, s).target, v.points[k]),
        v.clean_at_point >= 9 || (v.clean_at_point >= 1 && v.startup_left >= 2),
        v.point_idx == v.points.len() - 1 || window::after(v, s).target
            >= v.points[v.point_idx].min_kbps,
    ensures
        ({
            let t = window::after(v, s);
            let i = t.point_idx;
            &&& 0 <= i <= k
            &&& has_headroom(t.target, v.points[i])
            &&& forall|j: int| 0 <= j < i ==> !has_headroom(t.target, #[trigger] v.points[j])
            &&& v.ticked(s).1.point == Some(v.points[i])
            &&& t.points == v.points
            &&& t.point_age == 0
            &&& t.clean_at_point == 0
        }),
{
    decision::lemma_frame(v, s);
    decision::lemma_rule(v, s);
    laws::lemma_measured(v, s);
    let (m, out) = v.measured(s).recovering(s.total());
    laws::lemma_rules_leave_the_rest(m, s.total(), out);
    let (w, o) = m.applied(s.total(), out);
    laws::lemma_finish_leaves_the_rest(w, o);
    assert(w.clean_at_point == v.clean_at_point + 1 && w.startup_left == v.startup_left) by {
        reveal(ControlView::applied);
    }
    let t = window::after(v, s);
    ladder::laws::law_pick_is_the_best_that_fits(v.points, t.target, 100, 120);
    let a = ladder::first_fit(v.points, t.target, 100, 120, 0);
    assert(ladder::fits(v.points[k], t.target, 100, 120));
    assert forall|j: int| 0 <= j < a implies !has_headroom(t.target, #[trigger] v.points[j]) by {
        assert(!ladder::fits(v.points[j], t.target, 100, 120));
    }
    if a > k {
        assert(!ladder::fits(v.points[k], t.target, 100, 120));
    }
    assert(ladder::fits(v.points[a], t.target, 100, 120));
    reveal(ControlView::finished);
}

/// Otherwise the point stays: while it is pinned; while the last move is not two windows back
/// (unless the target is under 70 % of what the point needs); and with a target that the point can
/// live on, until a clean stretch with headroom. A point that stays is told to nobody, ages, and
/// counts a clean window.
pub proof fn law_else_the_point_stays(v: ControlView, s: SampleView)
    requires
        laws::takes(v, s),
        ({
            let t = window::after(v, s);
            let starved = t.target < v.points[v.point_idx].min_kbps && v.point_idx + 1
                < v.points.len();
            let stretch = decision::clean(v, s) && (v.clean_at_point >= 9 || (v.clean_at_point >= 1
                && v.startup_left >= 2));
            ||| v.manual_point
            ||| starved && v.point_age < 1 && t.target * 10 >= v.points[v.point_idx].min_kbps * 7
            ||| !starved && (v.point_age < 1 || !stretch || forall|k: int|
                0 <= k < v.point_idx ==> !has_headroom(t.target, #[trigger] v.points[k]))
        }),
    ensures
        ({
            let t = window::after(v, s);
            &&& t.point_idx == v.point_idx
            &&& t.points == v.points
            &&& v.ticked(s).1.point is None
            &&& t.point_age == v.point_age + 1 || t.point_age == u32::MAX
            &&& t.clean_at_point == (if decision::clean(v, s) {
                v.clean_at_point + 1
            } else {
                0
            })
        }),
{
    decision::lemma_frame(v, s);
    decision::lemma_rule(v, s);
    laws::lemma_measured(v, s);
    assert(v.measured(s).point_age == v.point_age.saturating_add(1)) by {
        reveal(ControlView::measured);
    }
    let (m, out) = v.measured(s).recovering(s.total());
    laws::lemma_rules_leave_the_rest(m, s.total(), out);
    let (w, o) = m.applied(s.total(), out);
    laws::lemma_finish_leaves_the_rest(w, o);
    assert(w.clean_at_point == (if decision::clean(v, s) {
        v.clean_at_point + 1
    } else {
        0
    }) && w.startup_left <= v.startup_left) by {
        reveal(ControlView::applied);
    }
    let t = window::after(v, s);
    ladder::laws::law_pick_is_the_best_that_fits(v.points, t.target, 100, 120);
    let a = ladder::first_fit(v.points, t.target, 100, 120, 0);
    assert(ladder::fits(v.points[a], t.target, 100, 120) == has_headroom(t.target, v.points[a]));
    if a < v.point_idx && !has_headroom(t.target, v.points[a]) {
        assert forall|k: int| 0 <= k < v.points.len() implies !ladder::fits(
            #[trigger] v.points[k],
            t.target,
            100,
            120,
        ) by {
            if ladder::fits(v.points[k], t.target, 100, 120) {
                assert(ladder::fits(v.points[a], t.target, 100, 120));
            }
        }
    }
    reveal(ControlView::finished);
}

} // verus!
