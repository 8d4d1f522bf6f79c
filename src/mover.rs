//! Smooth motion of a card's pose toward its target.
use vstd::prelude::*;

use crate::geometry::{abs, div_toward_zero, div_trunc, Pose, COORD_MAX};

verus! {

/// Fixed-point unit of the smoothing factor: a factor of `SMOOTH_ONE` closes
/// the whole residual in one frame, zero closes none of it.
pub const SMOOTH_ONE: i64 = 1000;

/// One component moved toward its target by the fraction
/// `alpha / SMOOTH_ONE` of what is left, rounded toward the current value.
pub open spec fn step_toward(cur: int, tgt: int, alpha: int) -> int {
    cur + div_trunc((tgt - cur) * alpha, SMOOTH_ONE as int)
}

/// Whether every component of `cur` is within `settle` of `tgt`.
pub open spec fn settled(cur: Pose, tgt: Pose, settle: int) -> bool {
    &&& abs(tgt.x - cur.x) < settle
    &&& abs(tgt.y - cur.y) < settle
    &&& abs(tgt.z - cur.z) < settle
    &&& abs(tgt.cos - cur.cos) < settle
    &&& abs(tgt.sin - cur.sin) < settle
}

/// The pose after one frame: the target itself once every component is
/// within `settle` of it, else each component stepped toward it.
pub open spec fn mover_step(cur: Pose, tgt: Pose, alpha: int, settle: int) -> Pose {
    if settled(cur, tgt, settle) {
        tgt
    } else {
        Pose {
            x: step_toward(cur.x as int, tgt.x as int, alpha) as i64,
            y: step_toward(cur.y as int, tgt.y as int, alpha) as i64,
            z: step_toward(cur.z as int, tgt.z as int, alpha) as i64,
            cos: step_toward(cur.cos as int, tgt.cos as int, alpha) as i64,
            sin: step_toward(cur.sin as int, tgt.sin as int, alpha) as i64,
        }
    }
}

/// Sum over the components of the distance between two poses.
pub open spec fn residual(cur: Pose, tgt: Pose) -> int {
    abs(tgt.x - cur.x) + abs(tgt.y - cur.y) + abs(tgt.z - cur.z) + abs(tgt.cos - cur.cos) + abs(
        tgt.sin - cur.sin,
    )
}

proof fn lemma_step_toward(cur: int, tgt: int, alpha: int)
    requires
        0 <= alpha <= SMOOTH_ONE,
    ensures
        abs(tgt - step_toward(cur, tgt, alpha)) <= abs(tgt - cur),
        cur <= tgt ==> cur <= step_toward(cur, tgt, alpha) <= tgt,
        tgt <= cur ==> tgt <= step_toward(cur, tgt, alpha) <= cur,
{
    let d = tgt - cur;
    let v = d * alpha;
    if d >= 0 {
        assert(0 <= v <= d * 1000) by (nonlinear_arith)
            requires
                d >= 0,
                0 <= alpha <= 1000,
                v == d * alpha,
        {}
        assert(0 <= v / 1000 <= d) by (nonlinear_arith)
            requires
                0 <= v <= d * 1000,
        {}
    } else {
        let e = -d;
        assert(0 <= -v <= e * 1000) by (nonlinear_arith)
            requires
                e > 0,
                0 <= alpha <= 1000,
                v == -e * alpha,
        {}
        assert(0 <= (-v) / 1000 <= e) by (nonlinear_arith)
            requires
                0 <= -v <= e * 1000,
        {}
    }
}

/// Between two frames with the same target the mover never moves a pose
/// away from it: no component's distance to the target grows, and so
/// neither does their sum.
pub proof fn lemma_mover_never_recedes(cur: Pose, tgt: Pose, alpha: int, settle: int)
    requires
        cur.bounded(),
        tgt.bounded(),
        0 <= alpha <= SMOOTH_ONE,
    ensures
        abs(tgt.x - mover_step(cur, tgt, alpha, settle).x) <= abs(tgt.x - cur.x),
        abs(tgt.y - mover_step(cur, tgt, alpha, settle).y) <= abs(tgt.y - cur.y),
        abs(tgt.z - mover_step(cur, tgt, alpha, settle).z) <= abs(tgt.z - cur.z),
        abs(tgt.cos - mover_step(cur, tgt, alpha, settle).cos) <= abs(tgt.cos - cur.cos),
        abs(tgt.sin - mover_step(cur, tgt, alpha, settle).sin) <= abs(tgt.sin - cur.sin),
        residual(mover_step(cur, tgt, alpha, settle), tgt) <= residual(cur, tgt),
{
    lemma_step_toward(cur.x as int, tgt.x as int, alpha);
    lemma_step_toward(cur.y as int, tgt.y as int, alpha);
    lemma_step_toward(cur.z as int, tgt.z as int, alpha);
    lemma_step_toward(cur.cos as int, tgt.cos as int, alpha);
    lemma_step_toward(cur.sin as int, tgt.sin as int, alpha);
}

/// One component moved toward its target.
pub fn step_component(cur: i64, tgt: i64, alpha: i64) -> (r: i64)
    requires
        abs(cur as int) <= 8 * COORD_MAX,
        abs(tgt as int) <= 8 * COORD_MAX,
        0 <= alpha <= SMOOTH_ONE,
    ensures
        r == step_toward(cur as int, tgt as int, alpha as int),
        abs(r as int) <= 8 * COORD_MAX,
{
    proof {
        lemma_step_toward(cur as int, tgt as int, alpha as int);
        let d = tgt - cur;
        assert(-16_000_000_000_000 <= d * alpha <= 16_000_000_000_000) by (nonlinear_arith)
            requires
                -16_000_000_000 <= d <= 16_000_000_000,
                0 <= alpha <= 1000,
        {}
    }
    let d: i64 = tgt - cur;
    cur + div_toward_zero(d * alpha, SMOOTH_ONE)
}

/// Advances `cur` by one frame toward `tgt`. Returns the new pose and
/// whether it has settled on the target.
pub fn step_pose(cur: Pose, tgt: Pose, alpha: i64, settle: i64) -> (r: (Pose, bool))
    requires
        cur.bounded(),
        tgt.bounded(),
        0 <= alpha <= SMOOTH_ONE,
    ensures
        r.0 == mover_step(cur, tgt, alpha as int, settle as int),
        r.1 == settled(cur, tgt, settle as int),
        r.1 ==> r.0 == tgt,
        r.0.bounded(),
{
    let dx: i64 = tgt.x - cur.x;
    let dy: i64 = tgt.y - cur.y;
    let dz: i64 = tgt.z - cur.z;
    let dc: i64 = tgt.cos - cur.cos;
    let ds: i64 = tgt.sin - cur.sin;
    if (if dx >= 0 {
        dx
    } else {
        -dx
    }) < settle && (if dy >= 0 {
        dy
    } else {
        -dy
    }) < settle && (if dz >= 0 {
        dz
    } else {
        -dz
    }) < settle && (if dc >= 0 {
        dc
    } else {
        -dc
    }) < settle && (if ds >= 0 {
        ds
    } else {
        -ds
    }) < settle {
        return (tgt, true);
    }
    proof {
        lemma_step_toward(cur.cos as int, tgt.cos as int, alpha as int);
        lemma_step_toward(cur.sin as int, tgt.sin as int, alpha as int);
    }
    let p = Pose {
        x: step_component(cur.x, tgt.x, alpha),
        y: step_component(cur.y, tgt.y, alpha),
        z: step_component(cur.z, tgt.z, alpha),
        cos: step_component(cur.cos, tgt.cos, alpha),
        sin: step_component(cur.sin, tgt.sin, alpha),
    };
    (p, false)
}

} // verus!
