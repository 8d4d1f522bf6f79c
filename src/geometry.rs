//! Integer plane geometry: poses, fixed-point rotations and frame changes.
use vstd::prelude::*;

verus! {

/// Fixed-point unit of a rotation component: a rotation by angle `a` is
/// stored as `(cos a, sin a)` multiplied by this value.
pub const ROT_ONE: i64 = 1024;

/// Largest magnitude of a coordinate that a pose may hold.
pub const COORD_MAX: i64 = 1_000_000_000;

/// Largest spacing or height that a line may be configured with.
pub const LENGTH_MAX: i64 = 1_000_000;

/// A placement in the plane: translation, drawing depth and a rotation about
/// the Z axis given as a fixed-point direction `(cos, sin)`.
#[derive(Clone, Copy, Debug, PartialEq, Eq, Structural)]
pub struct Pose {
    pub x: i64,
    pub y: i64,
    pub z: i64,
    pub cos: i64,
    pub sin: i64,
}

impl Pose {
    /// Every component lies within the limits that keep arithmetic exact.
    pub open spec fn wf(&self) -> bool {
        -COORD_MAX <= self.x <= COORD_MAX && -COORD_MAX <= self.y <= COORD_MAX && -COORD_MAX
            <= self.z <= COORD_MAX && -ROT_ONE <= self.cos <= ROT_ONE && -ROT_ONE <= self.sin
            <= ROT_ONE
    }

    /// Every component lies within the looser limits of a computed target.
    pub open spec fn bounded(&self) -> bool {
        abs(self.x as int) <= 8 * COORD_MAX && abs(self.y as int) <= 8 * COORD_MAX && abs(
            self.z as int,
        ) <= 8 * COORD_MAX && -ROT_ONE <= self.cos <= ROT_ONE && -ROT_ONE <= self.sin <= ROT_ONE
    }

    /// The pose at the world origin with no rotation.
    pub fn identity() -> (r: Pose)
        ensures
            r == (Pose { x: 0, y: 0, z: 0, cos: ROT_ONE, sin: 0 }),
            r.wf(),
    {
        Pose { x: 0, y: 0, z: 0, cos: ROT_ONE, sin: 0 }
    }
}

/// Division rounding toward zero, for a positive divisor.
pub open spec fn div_trunc(v: int, d: int) -> int {
    if v >= 0 {
        v / d
    } else {
        -((-v) / d)
    }
}

pub open spec fn abs(v: int) -> int {
    if v >= 0 {
        v
    } else {
        -v
    }
}

proof fn lemma_div_trunc_bound(v: int, d: int)
    requires
        d > 0,
    ensures
        abs(div_trunc(v, d)) <= abs(v),
        abs(div_trunc(v, d)) * d <= abs(v),
{
    if v >= 0 {
        assert((v / d) * d <= v) by (nonlinear_arith)
            requires
                d > 0,
                v >= 0,
        {
            vstd::arithmetic::div_mod::lemma_fundamental_div_mod(v, d);
        }
        assert(v / d >= 0) by (nonlinear_arith)
            requires
                d > 0,
                v >= 0,
        {}
        assert(v / d <= v) by (nonlinear_arith)
            requires
                d > 0,
                v >= 0,
                (v / d) * d <= v,
        {}
    } else {
        let w = -v;
        assert((w / d) * d <= w) by (nonlinear_arith)
            requires
                d > 0,
                w >= 0,
        {
            vstd::arithmetic::div_mod::lemma_fundamental_div_mod(w, d);
        }
        assert(w / d >= 0) by (nonlinear_arith)
            requires
                d > 0,
                w >= 0,
        {}
        assert(w / d <= w) by (nonlinear_arith)
            requires
                d > 0,
                w >= 0,
                (w / d) * d <= w,
        {}
    }
}

/// `v / d`, rounded toward zero.
pub fn div_toward_zero(v: i64, d: i64) -> (r: i64)
    requires
        d > 0,
        v > i64::MIN,
    ensures
        r == div_trunc(v as int, d as int),
{
    proof {
        lemma_div_trunc_bound(v as int, d as int);
    }
    if v >= 0 {
        v / d
    } else {
        let w: i64 = -v;
        -(w / d)
    }
}

/// The offset `(lx, ly)` turned by the rotation `(cos, sin)`.
pub open spec fn rotate_x(cos: int, sin: int, lx: int, ly: int) -> int {
    div_trunc(cos * lx - sin * ly, ROT_ONE as int)
}

pub open spec fn rotate_y(cos: int, sin: int, lx: int, ly: int) -> int {
    div_trunc(sin * lx + cos * ly, ROT_ONE as int)
}

/// The offset `(dx, dy)` turned back by the rotation `(cos, sin)`.
pub open spec fn unrotate_x(cos: int, sin: int, dx: int, dy: int) -> int {
    div_trunc(cos * dx + sin * dy, ROT_ONE as int)
}

pub open spec fn unrotate_y(cos: int, sin: int, dx: int, dy: int) -> int {
    div_trunc(cos * dy - sin * dx, ROT_ONE as int)
}

proof fn lemma_products(c: int, s: int, a: int, b: int, m: int)
    requires
        -ROT_ONE <= c <= ROT_ONE,
        -ROT_ONE <= s <= ROT_ONE,
        -m <= a <= m,
        -m <= b <= m,
        m >= 0,
    ensures
        -1024 * m <= c * a <= 1024 * m,
        -1024 * m <= s * b <= 1024 * m,
        -1024 * m <= c * b <= 1024 * m,
        -1024 * m <= s * a <= 1024 * m,
{
    assert(-1024 * m <= c * a <= 1024 * m) by (nonlinear_arith)
        requires
            -1024 <= c <= 1024,
            -m <= a <= m,
            m >= 0,
    {}
    assert(-1024 * m <= s * b <= 1024 * m) by (nonlinear_arith)
        requires
            -1024 <= s <= 1024,
            -m <= b <= m,
            m >= 0,
    {}
    assert(-1024 * m <= c * b <= 1024 * m) by (nonlinear_arith)
        requires
            -1024 <= c <= 1024,
            -m <= b <= m,
            m >= 0,
    {}
    assert(-1024 * m <= s * a <= 1024 * m) by (nonlinear_arith)
        requires
            -1024 <= s <= 1024,
            -m <= a <= m,
            m >= 0,
    {}
}

/// Turns the offset `(lx, ly)` by the rotation `(cos, sin)`.
pub fn rotate(cos: i64, sin: i64, lx: i64, ly: i64) -> (r: (i64, i64))
    requires
        -ROT_ONE <= cos <= ROT_ONE,
        -ROT_ONE <= sin <= ROT_ONE,
        -2 * COORD_MAX <= lx <= 2 * COORD_MAX,
        -2 * COORD_MAX <= ly <= 2 * COORD_MAX,
    ensures
        r.0 == rotate_x(cos as int, sin as int, lx as int, ly as int),
        r.1 == rotate_y(cos as int, sin as int, lx as int, ly as int),
        abs(r.0 as int) <= 4 * COORD_MAX,
        abs(r.1 as int) <= 4 * COORD_MAX,
{
    proof {
        lemma_products(cos as int, sin as int, lx as int, ly as int, 2_000_000_000);
        lemma_div_trunc_bound(cos * lx - sin * ly, ROT_ONE as int);
        lemma_div_trunc_bound(sin * lx + cos * ly, ROT_ONE as int);
    }
    let a: i64 = cos * lx - sin * ly;
    let b: i64 = sin * lx + cos * ly;
    (div_toward_zero(a, ROT_ONE), div_toward_zero(b, ROT_ONE))
}

/// Turns the offset `(dx, dy)` back by the rotation `(cos, sin)`: the
/// offset as seen in a frame with that rotation.
pub fn unrotate(cos: i64, sin: i64, dx: i64, dy: i64) -> (r: (i64, i64))
    requires
        -ROT_ONE <= cos <= ROT_ONE,
        -ROT_ONE <= sin <= ROT_ONE,
        -2 * COORD_MAX <= dx <= 2 * COORD_MAX,
        -2 * COORD_MAX <= dy <= 2 * COORD_MAX,
    ensures
        r.0 == unrotate_x(cos as int, sin as int, dx as int, dy as int),
        r.1 == unrotate_y(cos as int, sin as int, dx as int, dy as int),
        abs(r.0 as int) <= 4 * COORD_MAX,
        abs(r.1 as int) <= 4 * COORD_MAX,
{
    proof {
        lemma_products(cos as int, sin as int, dx as int, dy as int, 2 * COORD_MAX);
        lemma_products(cos as int, sin as int, dy as int, dx as int, 2_000_000_000);
        lemma_div_trunc_bound(cos * dx + sin * dy, ROT_ONE as int);
        lemma_div_trunc_bound(cos * dy - sin * dx, ROT_ONE as int);
    }
    let a: i64 = cos * dx + sin * dy;
    let b: i64 = cos * dy - sin * dx;
    (div_toward_zero(a, ROT_ONE), div_toward_zero(b, ROT_ONE))
}

} // verus!
