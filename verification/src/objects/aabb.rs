use vstd::prelude::*;

use crate::basic::Ray;
use crate::fixed::{EPS_FX, SCALE, T_MAX, iabs, lemma_mul_bound, lemma_rat_le_trans, rat_le, tdiv};
use crate::lin_alg::{Vec3, Vec3M};

verus! {

/// The coordinate used by the empty box: strictly beyond any world
/// coordinate, so that the empty box contains nothing and unions ignore
/// it.
pub const AABB_INF: i64 = 1_000_000_000;

/// Represents an axis-aligned bounding box, as its two extreme corners.
#[derive(Clone, Copy, Debug, PartialEq, Eq, Structural)]
pub struct Aabb {
    /// The corner with the smallest coordinates.
    pub vmin: Vec3,
    /// The corner with the greatest coordinates.
    pub vmax: Vec3,
}

/// Every corner coordinate stays within the sentinel range.
pub open spec fn box_wf(b: Aabb) -> bool {
    &&& -AABB_INF <= b.vmin.x <= AABB_INF
    &&& -AABB_INF <= b.vmin.y <= AABB_INF
    &&& -AABB_INF <= b.vmin.z <= AABB_INF
    &&& -AABB_INF <= b.vmax.x <= AABB_INF
    &&& -AABB_INF <= b.vmax.y <= AABB_INF
    &&& -AABB_INF <= b.vmax.z <= AABB_INF
}

/// The empty box: lower corner above, upper corner below everything.
pub open spec fn box_empty() -> Aabb {
    Aabb {
        vmin: Vec3M { x: AABB_INF, y: AABB_INF, z: AABB_INF },
        vmax: Vec3M { x: (-AABB_INF) as i64, y: (-AABB_INF) as i64, z: (-AABB_INF) as i64 },
    }
}

/// `a` contains `b`: every point of `b` is a point of `a` (the empty box
/// is contained in everything).
pub open spec fn box_contains(a: Aabb, b: Aabb) -> bool {
    &&& a.vmin.x <= b.vmin.x || b.vmin.x > b.vmax.x
    &&& a.vmin.y <= b.vmin.y || b.vmin.y > b.vmax.y
    &&& a.vmin.z <= b.vmin.z || b.vmin.z > b.vmax.z
    &&& b.vmax.x <= a.vmax.x || b.vmin.x > b.vmax.x
    &&& b.vmax.y <= a.vmax.y || b.vmin.y > b.vmax.y
    &&& b.vmax.z <= a.vmax.z || b.vmin.z > b.vmax.z
}

/// The corner-wise union: the tightest box around both.
pub open spec fn box_union(a: Aabb, b: Aabb) -> Aabb {
    Aabb {
        vmin: Vec3M {
            x: if a.vmin.x <= b.vmin.x {
                a.vmin.x
            } else {
                b.vmin.x
            },
            y: if a.vmin.y <= b.vmin.y {
                a.vmin.y
            } else {
                b.vmin.y
            },
            z: if a.vmin.z <= b.vmin.z {
                a.vmin.z
            } else {
                b.vmin.z
            },
        },
        vmax: Vec3M {
            x: if a.vmax.x >= b.vmax.x {
                a.vmax.x
            } else {
                b.vmax.x
            },
            y: if a.vmax.y >= b.vmax.y {
                a.vmax.y
            } else {
                b.vmax.y
            },
            z: if a.vmax.z >= b.vmax.z {
                a.vmax.z
            } else {
                b.vmax.z
            },
        },
    }
}

/// The union over a sequence of boxes, starting from the empty box.
pub open spec fn box_union_all(s: Seq<Aabb>) -> Aabb
    decreases s.len(),
{
    if s.len() == 0 {
        box_empty()
    } else {
        box_union(box_union_all(s.drop_last()), s.last())
    }
}

// --- The slab test -------------------------------------------------------
//
// A ray passes through a box within the window `(EPS, t1]` exactly when
// the per-axis slab intervals and the window have a common point.  With
// the hit window bound given as a rational `t1n / t1d` the whole test is
// decided by exact cross-multiplied comparisons.  For the axis `c` of
// travel direction `d` and origin `o`, the slab `[bmin, bmax]` bounds the
// fixed-point distance `t` by the rational interval
// `[axis_lo(..) / axis_den(d), axis_hi(..) / axis_den(d)]`; an axis with
// `d == 0` gives no bound and instead requires `o` to lie in the slab.

pub open spec fn axis_den(d: int) -> int {
    iabs(d)
}

pub open spec fn axis_lo(o: int, d: int, bmin: int, bmax: int) -> int {
    if d > 0 {
        SCALE * (bmin - o)
    } else {
        -SCALE * (bmax - o)
    }
}

pub open spec fn axis_hi(o: int, d: int, bmin: int, bmax: int) -> int {
    if d > 0 {
        SCALE * (bmax - o)
    } else {
        -SCALE * (bmin - o)
    }
}

/// The slab constraint of an axis the ray does not travel along.
pub open spec fn axis_flat_ok(o: int, d: int, bmin: int, bmax: int) -> bool {
    d != 0 || (bmin <= o && o <= bmax)
}

/// `lo_i / den_i <= hi_j / den_j` for two (bounded) axes.
pub open spec fn axes_cross_le(o_i: int, d_i: int, min_i: int, max_i: int, o_j: int, d_j: int,
    min_j: int, max_j: int) -> bool {
    d_i == 0 || d_j == 0 || rat_le(
        axis_lo(o_i, d_i, min_i, max_i),
        axis_den(d_i),
        axis_hi(o_j, d_j, min_j, max_j),
        axis_den(d_j),
    )
}

/// The whole slab test, with the window `(EPS, t1n / t1d]`.
pub open spec fn box_passes(b: Aabb, o: Vec3M, d: Vec3M, t1n: int, t1d: int) -> bool {
    &&& axis_flat_ok(o.x as int, d.x as int, b.vmin.x as int, b.vmax.x as int)
    &&& axis_flat_ok(o.y as int, d.y as int, b.vmin.y as int, b.vmax.y as int)
    &&& axis_flat_ok(o.z as int, d.z as int, b.vmin.z as int, b.vmax.z as int)
    &&& axes_cross_le(o.x as int, d.x as int, b.vmin.x as int, b.vmax.x as int, o.x as int,
        d.x as int, b.vmin.x as int, b.vmax.x as int)
    &&& axes_cross_le(o.x as int, d.x as int, b.vmin.x as int, b.vmax.x as int, o.y as int,
        d.y as int, b.vmin.y as int, b.vmax.y as int)
    &&& axes_cross_le(o.x as int, d.x as int, b.vmin.x as int, b.vmax.x as int, o.z as int,
        d.z as int, b.vmin.z as int, b.vmax.z as int)
    &&& axes_cross_le(o.y as int, d.y as int, b.vmin.y as int, b.vmax.y as int, o.x as int,
        d.x as int, b.vmin.x as int, b.vmax.x as int)
    &&& axes_cross_le(o.y as int, d.y as int, b.vmin.y as int, b.vmax.y as int, o.y as int,
        d.y as int, b.vmin.y as int, b.vmax.y as int)
    &&& axes_cross_le(o.y as int, d.y as int, b.vmin.y as int, b.vmax.y as int, o.z as int,
        d.z as int, b.vmin.z as int, b.vmax.z as int)
    &&& axes_cross_le(o.z as int, d.z as int, b.vmin.z as int, b.vmax.z as int, o.x as int,
        d.x as int, b.vmin.x as int, b.vmax.x as int)
    &&& axes_cross_le(o.z as int, d.z as int, b.vmin.z as int, b.vmax.z as int, o.y as int,
        d.y as int, b.vmin.y as int, b.vmax.y as int)
    &&& axes_cross_le(o.z as int, d.z as int, b.vmin.z as int, b.vmax.z as int, o.z as int,
        d.z as int, b.vmin.z as int, b.vmax.z as int)
    &&& (d.x == 0 || rat_le(
        axis_lo(o.x as int, d.x as int, b.vmin.x as int, b.vmax.x as int),
        axis_den(d.x as int),
        t1n,
        t1d,
    ))
    &&& (d.y == 0 || rat_le(
        axis_lo(o.y as int, d.y as int, b.vmin.y as int, b.vmax.y as int),
        axis_den(d.y as int),
        t1n,
        t1d,
    ))
    &&& (d.z == 0 || rat_le(
        axis_lo(o.z as int, d.z as int, b.vmin.z as int, b.vmax.z as int),
        axis_den(d.z as int),
        t1n,
        t1d,
    ))
    &&& (d.x == 0 || axis_hi(o.x as int, d.x as int, b.vmin.x as int, b.vmax.x as int) > EPS_FX
        * axis_den(d.x as int))
    &&& (d.y == 0 || axis_hi(o.y as int, d.y as int, b.vmin.y as int, b.vmax.y as int) > EPS_FX
        * axis_den(d.y as int))
    &&& (d.z == 0 || axis_hi(o.z as int, d.z as int, b.vmin.z as int, b.vmax.z as int) > EPS_FX
        * axis_den(d.z as int))
    &&& t1n > EPS_FX * t1d
}

/// Magnitude bounds under which the slab comparisons stay inside `i128`.
pub open spec fn slab_args_ok(b: Aabb, o: Vec3M, d: Vec3M, t1n: int, t1d: int) -> bool {
    &&& box_wf(b)
    &&& iabs(o.x as int) <= 8 * crate::fixed::COORD_MAX
    &&& iabs(o.y as int) <= 8 * crate::fixed::COORD_MAX
    &&& iabs(o.z as int) <= 8 * crate::fixed::COORD_MAX
    &&& iabs(d.x as int) <= 2 * SCALE
    &&& iabs(d.y as int) <= 2 * SCALE
    &&& iabs(d.z as int) <= 2 * SCALE
    &&& 1 <= t1d <= 10_000_000_000_000_000_000_000i128 as int
    &&& iabs(t1n) <= 10_000_000_000_000_000_000_000_000_000_000i128 as int
}

/// One bounded-axis record computed by the exec slab test.
struct AxisBound {
    bounded: bool,
    lo: i128,
    hi: i128,
    den: i128,
}

/// Computes the slab bounds of one axis.
fn axis_bounds(o: i64, d: i64, bmin: i64, bmax: i64) -> (r: AxisBound)
    requires
        iabs(o as int) <= 8 * crate::fixed::COORD_MAX,
        iabs(d as int) <= 2 * SCALE,
        iabs(bmin as int) <= AABB_INF,
        iabs(bmax as int) <= AABB_INF,
    ensures
        r.bounded == (d != 0),
        d != 0 ==> r.lo == axis_lo(o as int, d as int, bmin as int, bmax as int),
        d != 0 ==> r.hi == axis_hi(o as int, d as int, bmin as int, bmax as int),
        d != 0 ==> r.den == axis_den(d as int),
        1 <= r.den <= 2 * SCALE,
        iabs(r.lo as int) <= 18 * SCALE * crate::fixed::COORD_MAX,
        iabs(r.hi as int) <= 18 * SCALE * crate::fixed::COORD_MAX,
{
    proof {
        lemma_mul_bound(
            SCALE as int,
            bmin - o,
            SCALE as int,
            AABB_INF + 8 * crate::fixed::COORD_MAX,
        );
        lemma_mul_bound(
            SCALE as int,
            bmax - o,
            SCALE as int,
            AABB_INF + 8 * crate::fixed::COORD_MAX,
        );
    }
    if d > 0 {
        AxisBound {
            bounded: true,
            lo: (SCALE as i128) * ((bmin as i128) - (o as i128)),
            hi: (SCALE as i128) * ((bmax as i128) - (o as i128)),
            den: d as i128,
        }
    } else if d < 0 {
        AxisBound {
            bounded: true,
            lo: -(SCALE as i128) * ((bmax as i128) - (o as i128)),
            hi: -(SCALE as i128) * ((bmin as i128) - (o as i128)),
            den: -(d as i128),
        }
    } else {
        AxisBound { bounded: false, lo: 0, hi: 0, den: 1 }
    }
}

/// `x.lo / x.den <= y.hi / y.den`, unbounded axes giving no constraint.
fn cross_le(x: &AxisBound, y: &AxisBound) -> (r: bool)
    requires
        1 <= x.den <= 2 * SCALE,
        1 <= y.den <= 2 * SCALE,
        iabs(x.lo as int) <= 18 * SCALE * crate::fixed::COORD_MAX,
        iabs(y.hi as int) <= 18 * SCALE * crate::fixed::COORD_MAX,
    ensures
        r == (!x.bounded || !y.bounded || rat_le(x.lo as int, x.den as int, y.hi as int,
            y.den as int)),
{
    proof {
        lemma_mul_bound(x.lo as int, y.den as int, 18 * SCALE * crate::fixed::COORD_MAX, 2 * SCALE);
        lemma_mul_bound(y.hi as int, x.den as int, 18 * SCALE * crate::fixed::COORD_MAX, 2 * SCALE);
        assert(18 * SCALE * crate::fixed::COORD_MAX * (2 * SCALE) < i128::MAX) by (nonlinear_arith);
    }
    !x.bounded || !y.bounded || x.lo * y.den <= y.hi * x.den
}

/// The exec slab test against a rational window bound.
pub(crate) fn slab_test(b: &Aabb, o: Vec3, d: Vec3, t1n: i128, t1d: i128) -> (r: bool)
    requires
        slab_args_ok(*b, o, d, t1n as int, t1d as int),
    ensures
        r == box_passes(*b, o, d, t1n as int, t1d as int),
{
    let ax: AxisBound = axis_bounds(o.x, d.x, b.vmin.x, b.vmax.x);
    let ay: AxisBound = axis_bounds(o.y, d.y, b.vmin.y, b.vmax.y);
    let az: AxisBound = axis_bounds(o.z, d.z, b.vmin.z, b.vmax.z);
    let flat_ok: bool = (ax.bounded || (b.vmin.x <= o.x && o.x <= b.vmax.x)) && (ay.bounded || (
    b.vmin.y <= o.y && o.y <= b.vmax.y)) && (az.bounded || (b.vmin.z <= o.z && o.z <= b.vmax.z));
    if !flat_ok {
        return false;
    }
    let pairs_ok: bool = cross_le(&ax, &ax) && cross_le(&ax, &ay) && cross_le(&ax, &az) && cross_le(
        &ay, &ax) && cross_le(&ay, &ay) && cross_le(&ay, &az) && cross_le(&az, &ax) && cross_le(
        &az, &ay) && cross_le(&az, &az);
    if !pairs_ok {
        return false;
    }
    proof {
        lemma_slab_window_bounds(ax.lo as int, ax.den as int, t1n as int, t1d as int);
        lemma_slab_window_bounds(ay.lo as int, ay.den as int, t1n as int, t1d as int);
        lemma_slab_window_bounds(az.lo as int, az.den as int, t1n as int, t1d as int);
    }
    let lo_ok: bool = (!ax.bounded || ax.lo * t1d <= t1n * ax.den) && (!ay.bounded || ay.lo * t1d
        <= t1n * ay.den) && (!az.bounded || az.lo * t1d <= t1n * az.den);
    if !lo_ok {
        return false;
    }
    let hi_ok: bool = (!ax.bounded || ax.hi > EPS_FX as i128 * ax.den) && (!ay.bounded || ay.hi
        > EPS_FX as i128 * ay.den) && (!az.bounded || az.hi > EPS_FX as i128 * az.den);
    hi_ok && t1n > EPS_FX as i128 * t1d
}

/// The window products of the slab test stay inside `i128`.
proof fn lemma_slab_window_bounds(lo: int, den: int, t1n: int, t1d: int)
    requires
        iabs(lo) <= 18 * SCALE * crate::fixed::COORD_MAX,
        1 <= den <= 2 * SCALE,
        1 <= t1d <= 10_000_000_000_000_000_000_000i128 as int,
        iabs(t1n) <= 10_000_000_000_000_000_000_000_000_000_000i128 as int,
    ensures
        iabs(lo * t1d) < i128::MAX,
        iabs(t1n * den) < i128::MAX,
{
    lemma_mul_bound(lo, t1d, 18 * SCALE * crate::fixed::COORD_MAX, 10_000_000_000_000_000_000_000i128
        as int);
    lemma_mul_bound(
        t1n,
        den,
        10_000_000_000_000_000_000_000_000_000_000i128 as int,
        2 * SCALE,
    );
    assert(18 * SCALE * crate::fixed::COORD_MAX * 10_000_000_000_000_000_000_000i128 < i128::MAX)
        by (nonlinear_arith);
    assert(10_000_000_000_000_000_000_000_000_000_000i128 * (2 * SCALE) < i128::MAX) by (nonlinear_arith);
}

// --- Monotonicity of the slab test ---------------------------------------

/// A larger box passes wherever a smaller one does.
pub proof fn lemma_passes_wider_box(b1: Aabb, b2: Aabb, o: Vec3M, d: Vec3M, t1n: int, t1d: int)
    requires
        box_contains(b2, b1),
        box_passes(b1, o, d, t1n, t1d),
        b1.vmin.x <= b1.vmax.x,
        b1.vmin.y <= b1.vmax.y,
        b1.vmin.z <= b1.vmax.z,
        t1d >= 1,
    ensures
        box_passes(b2, o, d, t1n, t1d),
{
    lemma_axis_wider(o.x as int, d.x as int, b1.vmin.x as int, b1.vmax.x as int, b2.vmin.x as int,
        b2.vmax.x as int);
    lemma_axis_wider(o.y as int, d.y as int, b1.vmin.y as int, b1.vmax.y as int, b2.vmin.y as int,
        b2.vmax.y as int);
    lemma_axis_wider(o.z as int, d.z as int, b1.vmin.z as int, b1.vmax.z as int, b2.vmin.z as int,
        b2.vmax.z as int);
}

/// Widening one axis slab moves its lower bound down and its upper bound
/// up (stated over the cross products used by the slab test).
proof fn lemma_axis_wider(o: int, d: int, min1: int, max1: int, min2: int, max2: int)
    requires
        min2 <= min1,
        max1 <= max2,
    ensures
        axis_lo(o, d, min2, max2) <= axis_lo(o, d, min1, max1),
        axis_hi(o, d, min1, max1) <= axis_hi(o, d, min2, max2),
        forall|q: int|
            q >= 0 ==> #[trigger] (axis_lo(o, d, min2, max2) * q) <= axis_lo(o, d, min1, max1) * q,
        forall|q: int|
            q >= 0 ==> #[trigger] (axis_hi(o, d, min1, max1) * q) <= axis_hi(o, d, min2, max2) * q,
{
    assert(axis_lo(o, d, min2, max2) <= axis_lo(o, d, min1, max1)) by (nonlinear_arith)
        requires
            min2 <= min1,
            max1 <= max2,
    ;
    assert(axis_hi(o, d, min1, max1) <= axis_hi(o, d, min2, max2)) by (nonlinear_arith)
        requires
            min2 <= min1,
            max1 <= max2,
    ;
    assert forall|q: int| q >= 0 implies #[trigger] (axis_lo(o, d, min2, max2) * q) <= axis_lo(
        o,
        d,
        min1,
        max1,
    ) * q by {
        assert(axis_lo(o, d, min2, max2) <= axis_lo(o, d, min1, max1)) by (nonlinear_arith)
            requires
                min2 <= min1,
                max1 <= max2,
        ;
        lemma_mul_mono_left(axis_lo(o, d, min2, max2), axis_lo(o, d, min1, max1), q);
    }
    assert forall|q: int| q >= 0 implies #[trigger] (axis_hi(o, d, min1, max1) * q) <= axis_hi(
        o,
        d,
        min2,
        max2,
    ) * q by {
        assert(axis_hi(o, d, min1, max1) <= axis_hi(o, d, min2, max2)) by (nonlinear_arith)
            requires
                min2 <= min1,
                max1 <= max2,
        ;
        lemma_mul_mono_left(axis_hi(o, d, min1, max1), axis_hi(o, d, min2, max2), q);
    }
}

/// Multiplying both sides of an inequality by a nonnegative factor.
pub proof fn lemma_mul_mono_left(a: int, b: int, q: int)
    requires
        a <= b,
        q >= 0,
    ensures
        a * q <= b * q,
{
    assert(a * q <= b * q) by (nonlinear_arith)
        requires
            a <= b,
            q >= 0,
    ;
}

/// A wider window bound keeps the slab test passing.
pub proof fn lemma_passes_wider_window(b: Aabb, o: Vec3M, d: Vec3M, t1n: int, t1d: int, t2n: int,
    t2d: int)
    requires
        box_passes(b, o, d, t1n, t1d),
        t1d >= 1,
        t2d >= 1,
        rat_le(t1n, t1d, t2n, t2d),
    ensures
        box_passes(b, o, d, t2n, t2d),
{
    if d.x != 0 {
        lemma_rat_le_trans(
            axis_lo(o.x as int, d.x as int, b.vmin.x as int, b.vmax.x as int),
            axis_den(d.x as int),
            t1n,
            t1d,
            t2n,
            t2d,
        );
    }
    if d.y != 0 {
        lemma_rat_le_trans(
            axis_lo(o.y as int, d.y as int, b.vmin.y as int, b.vmax.y as int),
            axis_den(d.y as int),
            t1n,
            t1d,
            t2n,
            t2d,
        );
    }
    if d.z != 0 {
        lemma_rat_le_trans(
            axis_lo(o.z as int, d.z as int, b.vmin.z as int, b.vmax.z as int),
            axis_den(d.z as int),
            t1n,
            t1d,
            t2n,
            t2d,
        );
    }
    assert(t2n > EPS_FX * t2d) by (nonlinear_arith)
        requires
            t1n > EPS_FX * t1d,
            t1n * t2d <= t2n * t1d,
            t1d >= 1,
            t2d >= 1,
            EPS_FX == 1,
    ;
}

} // verus!

verus! {

// --- The traversal window ------------------------------------------------
//
// `distance` and `intersect` both narrow the per-axis slab intervals to
// one rational window `[lon/lod, hin/hid]`, remembering which axis set
// each end.  The fold starts from a sentinel window wider than any slab
// bound.

/// The sentinel half-width: strictly larger than any slab bound.
pub const WIN_HUGE: i64 = 400_000_000_000_000_000;

/// The narrowing state, for specifications.
pub struct WinS {
    pub lon: int,
    pub lod: int,
    pub hin: int,
    pub hid: int,
    pub amin: int,
    pub amax: int,
}

pub open spec fn win_init() -> WinS {
    WinS { lon: -(WIN_HUGE as int), lod: 1, hin: WIN_HUGE as int, hid: 1, amin: 0, amax: 0 }
}

/// Narrows the window by one bounded axis.
pub open spec fn win_step(acc: WinS, bounded: bool, lo: int, hi: int, den: int, axis: int) -> WinS {
    if !bounded {
        acc
    } else {
        let a1 = if lo * acc.lod > acc.lon * den {
            WinS { lon: lo, lod: den, amin: axis, ..acc }
        } else {
            acc
        };
        if hi * a1.hid < a1.hin * den {
            WinS { hin: hi, hid: den, amax: axis, ..a1 }
        } else {
            a1
        }
    }
}

pub open spec fn win_of(b: Aabb, o: Vec3M, d: Vec3M) -> WinS {
    let wx = win_step(
        win_init(),
        d.x != 0,
        axis_lo(o.x as int, d.x as int, b.vmin.x as int, b.vmax.x as int),
        axis_hi(o.x as int, d.x as int, b.vmin.x as int, b.vmax.x as int),
        axis_den(d.x as int),
        0,
    );
    let wy = win_step(
        wx,
        d.y != 0,
        axis_lo(o.y as int, d.y as int, b.vmin.y as int, b.vmax.y as int),
        axis_hi(o.y as int, d.y as int, b.vmin.y as int, b.vmax.y as int),
        axis_den(d.y as int),
        1,
    );
    win_step(
        wy,
        d.z != 0,
        axis_lo(o.z as int, d.z as int, b.vmin.z as int, b.vmax.z as int),
        axis_hi(o.z as int, d.z as int, b.vmin.z as int, b.vmax.z as int),
        axis_den(d.z as int),
        2,
    )
}

/// The flat-axis test shared by all the slab entry points.
pub open spec fn box_flat_ok(b: Aabb, o: Vec3M, d: Vec3M) -> bool {
    &&& axis_flat_ok(o.x as int, d.x as int, b.vmin.x as int, b.vmax.x as int)
    &&& axis_flat_ok(o.y as int, d.y as int, b.vmin.y as int, b.vmax.y as int)
    &&& axis_flat_ok(o.z as int, d.z as int, b.vmin.z as int, b.vmax.z as int)
}

/// What `distance` returns: the nearest window end inside `(EPS, t1)`,
/// zero if the window covers the whole span, `T_MAX` on a miss.
pub open spec fn distance_spec(b: Aabb, o: Vec3M, d: Vec3M, t1: int) -> int {
    let w = win_of(b, o, d);
    if !box_flat_ok(b, o, d) {
        T_MAX as int
    } else if w.hin * w.lod < w.lon * w.hid {
        T_MAX as int
    } else if w.lon < w.lod && w.hin > t1 * w.hid {
        0
    } else if w.lod < w.lon && w.lon < t1 * w.lod {
        tdiv(w.lon, w.lod)
    } else if w.hid < w.hin && w.hin < t1 * w.hid {
        tdiv(w.hin, w.hid)
    } else {
        T_MAX as int
    }
}

/// The candidate hit of a ray on the box boundary: the window entry if
/// it lies beyond `EPS`, else the window exit if that does (the ray
/// starts inside the box), with the axis that set the chosen end.
pub open spec fn box_tau(b: Aabb, o: Vec3M, d: Vec3M) -> Option<(int, int, int)> {
    let w = win_of(b, o, d);
    if !box_flat_ok(b, o, d) {
        None
    } else if w.hin * w.lod < w.lon * w.hid {
        None
    } else if w.lon > w.lod {
        Some((w.lon, w.lod, w.amin))
    } else if w.hin > w.hid {
        Some((w.hin, w.hid, w.amax))
    } else {
        None
    }
}

/// What the debug-box `intersect` returns: the candidate boundary hit,
/// accepted when it lies within the bound.
pub open spec fn box_intersect_spec(b: Aabb, o: Vec3M, d: Vec3M, t1: int) -> Option<(int, int)> {
    match box_tau(b, o, d) {
        None => None,
        Some((n, dn, axis)) => if n <= t1 * dn {
            Some((tdiv(n, dn), axis))
        } else {
            None
        },
    }
}

/// The exec narrowing state.
struct Window {
    lon: i128,
    lod: i128,
    hin: i128,
    hid: i128,
    amin: usize,
    amax: usize,
}

/// The bounds kept by the narrowing fold.
spec fn win_bounds(w: Window) -> bool {
    &&& iabs(w.lon as int) <= WIN_HUGE
    &&& iabs(w.hin as int) <= WIN_HUGE
    &&& 1 <= w.lod <= 2 * SCALE
    &&& 1 <= w.hid <= 2 * SCALE
    &&& w.amin < 3
    &&& w.amax < 3
}

spec fn to_wins(w: Window) -> WinS {
    WinS {
        lon: w.lon as int,
        lod: w.lod as int,
        hin: w.hin as int,
        hid: w.hid as int,
        amin: w.amin as int,
        amax: w.amax as int,
    }
}

/// One exec narrowing step: folds one axis into the window.
fn win_axis_exec(acc: Window, o: i64, d: i64, bmin: i64, bmax: i64, axis: usize) -> (r: Window)
    requires
        win_bounds(acc),
        axis < 3,
        iabs(o as int) <= 8 * crate::fixed::COORD_MAX,
        iabs(d as int) <= 2 * SCALE,
        iabs(bmin as int) <= AABB_INF,
        iabs(bmax as int) <= AABB_INF,
    ensures
        win_bounds(r),
        to_wins(r) == win_step(
            to_wins(acc),
            d != 0,
            axis_lo(o as int, d as int, bmin as int, bmax as int),
            axis_hi(o as int, d as int, bmin as int, bmax as int),
            axis_den(d as int),
            axis as int,
        ),
{
    let ax: AxisBound = axis_bounds(o, d, bmin, bmax);
    proof {
        lemma_win_products(&acc, &ax);
    }
    if !ax.bounded {
        acc
    } else {
        let a1: Window = if ax.lo * acc.lod > acc.lon * ax.den {
            Window { lon: ax.lo, lod: ax.den, amin: axis, ..acc }
        } else {
            acc
        };
        proof {
            lemma_win_products(&a1, &ax);
        }
        if ax.hi * a1.hid < a1.hin * ax.den {
            Window { hin: ax.hi, hid: ax.den, amax: axis, ..a1 }
        } else {
            a1
        }
    }
}

/// The products of a narrowing step stay inside `i128`.
proof fn lemma_win_products(acc: &Window, ax: &AxisBound)
    requires
        win_bounds(*acc),
        1 <= ax.den <= 2 * SCALE,
        iabs(ax.lo as int) <= 18 * SCALE * crate::fixed::COORD_MAX,
        iabs(ax.hi as int) <= 18 * SCALE * crate::fixed::COORD_MAX,
    ensures
        iabs(ax.lo as int * acc.lod as int) < i128::MAX,
        iabs(acc.lon as int * ax.den as int) < i128::MAX,
        iabs(ax.hi as int * acc.hid as int) < i128::MAX,
        iabs(acc.hin as int * ax.den as int) < i128::MAX,
{
    lemma_mul_bound(ax.lo as int, acc.lod as int, 18 * SCALE * crate::fixed::COORD_MAX, 2 * SCALE);
    lemma_mul_bound(acc.lon as int, ax.den as int, WIN_HUGE as int, 2 * SCALE);
    lemma_mul_bound(ax.hi as int, acc.hid as int, 18 * SCALE * crate::fixed::COORD_MAX, 2 * SCALE);
    lemma_mul_bound(acc.hin as int, ax.den as int, WIN_HUGE as int, 2 * SCALE);
    assert(18 * SCALE * crate::fixed::COORD_MAX * (2 * SCALE) < i128::MAX) by (nonlinear_arith);
    assert(WIN_HUGE * (2 * SCALE) < i128::MAX) by (nonlinear_arith);
}

/// Computes the narrowed window of a ray against a box.
fn win_exec(b: &Aabb, o: Vec3, d: Vec3) -> (r: Window)
    requires
        box_wf(*b),
        iabs(o.x as int) <= 8 * crate::fixed::COORD_MAX,
        iabs(o.y as int) <= 8 * crate::fixed::COORD_MAX,
        iabs(o.z as int) <= 8 * crate::fixed::COORD_MAX,
        iabs(d.x as int) <= 2 * SCALE,
        iabs(d.y as int) <= 2 * SCALE,
        iabs(d.z as int) <= 2 * SCALE,
    ensures
        win_bounds(r),
        to_wins(r) == win_of(*b, o, d),
{
    let w0: Window = Window {
        lon: -(WIN_HUGE as i128),
        lod: 1,
        hin: WIN_HUGE as i128,
        hid: 1,
        amin: 0,
        amax: 0,
    };
    proof {
        assert(to_wins(w0) == win_init());
    }
    let w1: Window = win_axis_exec(w0, o.x, d.x, b.vmin.x, b.vmax.x, 0);
    let w2: Window = win_axis_exec(w1, o.y, d.y, b.vmin.y, b.vmax.y, 1);
    win_axis_exec(w2, o.z, d.z, b.vmin.z, b.vmax.z, 2)
}

fn flat_ok_exec(b: &Aabb, o: Vec3, d: Vec3) -> (r: bool)
    ensures
        r == box_flat_ok(*b, o, d),
{
    (d.x != 0 || (b.vmin.x <= o.x && o.x <= b.vmax.x)) && (d.y != 0 || (b.vmin.y <= o.y && o.y
        <= b.vmax.y)) && (d.z != 0 || (b.vmin.z <= o.z && o.z <= b.vmax.z))
}

} // verus!

verus! {

/// The box spanned by two opposite corners.
pub open spec fn box_new(v: Vec3M, w: Vec3M) -> Aabb {
    Aabb {
        vmin: Vec3M {
            x: if v.x <= w.x {
                v.x
            } else {
                w.x
            },
            y: if v.y <= w.y {
                v.y
            } else {
                w.y
            },
            z: if v.z <= w.z {
                v.z
            } else {
                w.z
            },
        },
        vmax: Vec3M {
            x: if v.x >= w.x {
                v.x
            } else {
                w.x
            },
            y: if v.y >= w.y {
                v.y
            } else {
                w.y
            },
            z: if v.z >= w.z {
                v.z
            } else {
                w.z
            },
        },
    }
}

/// The material used when drawing bounding boxes for debugging purposes.
fn bounding_box_material() -> (m: crate::material::Material)
    ensures
        crate::material::material_ok(m),
{
    crate::material::Material {
        color: crate::color::Color::new(SCALE, SCALE / 5, SCALE / 5),
        ambient: SCALE / 40,
        diffuse: SCALE / 40,
        specular: 0,
        shininess: 1,
        reflectance: 0,
        refractivity: 95 * SCALE / 100,
        refraction_index: SCALE,
    }
}

impl Aabb {
    /// Creates an axis-aligned bounding box, given any two opposite
    /// vertices.
    pub fn new(v: Vec3, w: Vec3) -> (r: Aabb)
        ensures
            r == box_new(v, w),
    {
        Aabb { vmin: v.min(w), vmax: v.max(w) }
    }

    /// Creates an empty axis-aligned bounding box: the neutral element
    /// of `Aabb::union`.
    pub fn empty() -> (r: Aabb)
        ensures
            r == box_empty(),
    {
        Aabb {
            vmin: Vec3M { x: AABB_INF, y: AABB_INF, z: AABB_INF },
            vmax: Vec3M { x: -AABB_INF, y: -AABB_INF, z: -AABB_INF },
        }
    }

    /// Returns the vertex with smallest coordinates.
    pub fn min(&self) -> (r: Vec3)
        ensures
            r == self.vmin,
    {
        self.vmin
    }

    /// Returns the vertex with greatest coordinates.
    pub fn max(&self) -> (r: Vec3)
        ensures
            r == self.vmax,
    {
        self.vmax
    }

    /// Returns whether `self` contains the other bounding box.
    pub fn contains(&self, b: &Aabb) -> (r: bool)
        ensures
            r == box_contains(*self, *b),
    {
        (self.vmin.x <= b.vmin.x || b.vmin.x > b.vmax.x) && (self.vmin.y <= b.vmin.y || b.vmin.y
            > b.vmax.y) && (self.vmin.z <= b.vmin.z || b.vmin.z > b.vmax.z) && (b.vmax.x
            <= self.vmax.x || b.vmin.x > b.vmax.x) && (b.vmax.y <= self.vmax.y || b.vmin.y
            > b.vmax.y) && (b.vmax.z <= self.vmax.z || b.vmin.z > b.vmax.z)
    }

    /// Returns whether `self` is contained in the other bounding box.
    pub fn is_contained(&self, b: &Aabb) -> (r: bool)
        ensures
            r == box_contains(*b, *self),
    {
        b.contains(self)
    }

    /// Returns the tightest bounding box around the union of the two
    /// given ones.
    pub fn union(&self, b: &Aabb) -> (r: Aabb)
        ensures
            r == box_union(*self, *b),
    {
        Aabb { vmin: self.vmin.min(b.vmin), vmax: self.vmax.max(b.vmax) }
    }

    /// Given a list of bounding boxes, returns the tightest box around
    /// their union.
    pub fn union_all(boxes: &Vec<Aabb>) -> (r: Aabb)
        ensures
            r == box_union_all(boxes@),
    {
        let mut acc: Aabb = Aabb::empty();
        let mut i: usize = 0;
        proof {
            assert(boxes@.take(0int) =~= Seq::<Aabb>::empty());
        }
        while i < boxes.len()
            invariant
                i <= boxes.len(),
                acc == box_union_all(boxes@.take(i as int)),
            decreases boxes.len() - i,
        {
            acc = acc.union(&boxes[i]);
            proof {
                assert(boxes@.take(i + 1int).drop_last() =~= boxes@.take(i as int));
                assert(boxes@.take(i + 1int).last() == boxes@[i as int]);
            }
            i = i + 1;
        }
        proof {
            assert(boxes@.take(boxes@.len() as int) =~= boxes@);
        }
        acc
    }

    /// Returns the vector from the smallest vertex to the largest vertex.
    pub fn diagonal(&self) -> (r: Vec3)
        requires
            box_wf(*self),
        ensures
            r.x == self.vmax.x - self.vmin.x,
            r.y == self.vmax.y - self.vmin.y,
            r.z == self.vmax.z - self.vmin.z,
    {
        self.vmax.sub(self.vmin)
    }

    /// Returns the direction of the longest side (`0` for x, `1` for y,
    /// `2` for z) and its length.
    pub fn longest_side(&self) -> (r: (usize, i64))
        requires
            box_wf(*self),
        ensures
            r.1 == if r.0 == 0 {
                self.vmax.x - self.vmin.x
            } else if r.0 == 1 {
                self.vmax.y - self.vmin.y
            } else {
                self.vmax.z - self.vmin.z
            },
            r.0 < 3,
            r.1 >= self.vmax.x - self.vmin.x,
            r.1 >= self.vmax.y - self.vmin.y,
            r.1 >= self.vmax.z - self.vmin.z,
    {
        let dim: Vec3 = self.diagonal();
        let mut axis: usize = 0;
        let mut len: i64 = dim.x;
        if dim.y > len {
            axis = 1;
            len = dim.y;
        }
        if dim.z > len {
            axis = 2;
            len = dim.z;
        }
        (axis, len)
    }

    /// Checks whether the part of the ray between `EPS` and `t1` meets
    /// the box.  In contrast to an intersection test, this also returns
    /// true if that part of the ray lies completely inside the box.
    pub fn passes_through(&self, r: Ray, t1: i64) -> (res: bool)
        requires
            box_wf(*self),
            crate::basic::ray_ok(r),
            0 <= t1 <= T_MAX,
        ensures
            res == box_passes(*self, r.origin, r.dir.vec(), t1 as int, 1),
    {
        proof {
            use_type_invariant(r.dir);
        }
        slab_test(self, r.origin, r.dir.to(), t1 as i128, 1)
    }

    /// Computes the distance to the nearest box boundary inside the
    /// window `(EPS, t1)`, `0` if that whole window lies inside the box,
    /// and `T_MAX` on a miss.  It serves as a traversal-order heuristic.
    pub fn distance(&self, r: Ray, t1: i64) -> (res: i64)
        requires
            box_wf(*self),
            crate::basic::ray_ok(r),
            0 <= t1 <= T_MAX,
        ensures
            res == distance_spec(*self, r.origin, r.dir.vec(), t1 as int),
    {
        proof {
            use_type_invariant(r.dir);
        }
        let o: Vec3 = r.origin;
        let d: Vec3 = r.dir.to();
        if !flat_ok_exec(self, o, d) {
            return T_MAX;
        }
        let w: Window = win_exec(self, o, d);
        proof {
            lemma_win_use(&w, t1 as int);
        }
        if w.hin * w.lod < w.lon * w.hid {
            T_MAX
        } else if w.lon < w.lod && w.hin > (t1 as i128) * w.hid {
            0
        } else if w.lod < w.lon && w.lon < (t1 as i128) * w.lod {
            crate::fixed::tdiv128(w.lon, w.lod) as i64
        } else if w.hid < w.hin && w.hin < (t1 as i128) * w.hid {
            crate::fixed::tdiv128(w.hin, w.hid) as i64
        } else {
            T_MAX
        }
    }

    /// Computes the intersection with this bounding box.  This is meant
    /// for making boxes visible while debugging a scene.
    pub fn intersect(&self, r: Ray, t1: i64) -> (res: Option<crate::basic::Intersection>)
        requires
            box_wf(*self),
            crate::basic::ray_ok(r),
            0 <= t1 <= T_MAX,
        ensures
            res.is_some() <==> box_intersect_spec(*self, r.origin, r.dir.vec(),
                t1 as int).is_some(),
            res.is_some() ==> {
                &&& res.unwrap().t == box_intersect_spec(*self, r.origin, r.dir.vec(),
                    t1 as int).unwrap().0
                &&& res.unwrap().point == crate::basic::ray_at(r, res.unwrap().t as int)
                &&& res.unwrap().normal.vec() == axis_unit_vec(
                    box_intersect_spec(*self, r.origin, r.dir.vec(), t1 as int).unwrap().1,
                )
                &&& 0 <= res.unwrap().t <= t1
                &&& crate::material::material_ok(res.unwrap().material)
            },
    {
        proof {
            use_type_invariant(r.dir);
        }
        let o: Vec3 = r.origin;
        let d: Vec3 = r.dir.to();
        if !flat_ok_exec(self, o, d) {
            return None;
        }
        let w: Window = win_exec(self, o, d);
        proof {
            lemma_win_use(&w, t1 as int);
        }
        if w.hin * w.lod < w.lon * w.hid {
            return None;
        }
        let (n, dn, axis): (i128, i128, usize) = if w.lon > w.lod {
            (w.lon, w.lod, w.amin)
        } else if w.hin > w.hid {
            (w.hin, w.hid, w.amax)
        } else {
            return None;
        };
        if n > (t1 as i128) * dn {
            return None;
        }
        let t: i64 = crate::fixed::tdiv128(n, dn) as i64;
        let normal: crate::lin_alg::UnitVec3 = Vec3M::e(axis);
        Some(crate::basic::Intersection::new(r, t, normal, bounding_box_material()))
    }

    /// Checks whether the ray meets the box boundary within
    /// `(EPS, t1]` (the companion of the debug-box `intersect`).
    pub fn boundary_is_hit_by(&self, r: Ray, t1: i64) -> (res: bool)
        requires
            box_wf(*self),
            crate::basic::ray_ok(r),
            0 <= t1 <= T_MAX,
        ensures
            res == box_intersect_spec(*self, r.origin, r.dir.vec(), t1 as int).is_some(),
    {
        proof {
            use_type_invariant(r.dir);
        }
        let o: Vec3 = r.origin;
        let d: Vec3 = r.dir.to();
        if !flat_ok_exec(self, o, d) {
            return false;
        }
        let w: Window = win_exec(self, o, d);
        proof {
            lemma_win_use(&w, t1 as int);
        }
        if w.hin * w.lod < w.lon * w.hid {
            return false;
        }
        let (n, dn): (i128, i128) = if w.lon > w.lod {
            (w.lon, w.lod)
        } else if w.hin > w.hid {
            (w.hin, w.hid)
        } else {
            return false;
        };
        n <= (t1 as i128) * dn
    }
}

/// The unit vector of a coordinate axis, as a plain vector.
pub open spec fn axis_unit_vec(axis: int) -> Vec3M {
    if axis == 0 {
        Vec3M { x: SCALE, y: 0, z: 0 }
    } else if axis == 1 {
        Vec3M { x: 0, y: SCALE, z: 0 }
    } else {
        Vec3M { x: 0, y: 0, z: SCALE }
    }
}

/// Bounds used when a narrowed window is compared against the traversal
/// bound and turned into fixed-point distances.
proof fn lemma_win_use(w: &Window, t1: int)
    requires
        win_bounds(*w),
        0 <= t1 <= T_MAX,
    ensures
        iabs(w.hin as int * w.lod as int) < i128::MAX,
        iabs(w.lon as int * w.hid as int) < i128::MAX,
        iabs(t1 * w.hid as int) < i128::MAX,
        iabs(t1 * w.lod as int) < i128::MAX,
        ((w.lon as int) >= (w.lod as int) && (w.lon as int) <= t1 * (w.lod as int)) ==> 0 <= tdiv(
            w.lon as int,
            w.lod as int,
        ) <= t1,
        ((w.hin as int) >= (w.hid as int) && (w.hin as int) <= t1 * (w.hid as int)) ==> 0 <= tdiv(
            w.hin as int,
            w.hid as int,
        ) <= t1,
{
    lemma_mul_bound(w.hin as int, w.lod as int, WIN_HUGE as int, 2 * SCALE);
    lemma_mul_bound(w.lon as int, w.hid as int, WIN_HUGE as int, 2 * SCALE);
    lemma_mul_bound(t1, w.hid as int, T_MAX as int, 2 * SCALE);
    lemma_mul_bound(t1, w.lod as int, T_MAX as int, 2 * SCALE);
    assert(WIN_HUGE * (2 * SCALE) < i128::MAX) by (nonlinear_arith);
    assert(T_MAX * (2 * SCALE) < i128::MAX) by (nonlinear_arith);
    if (w.lon as int) >= (w.lod as int) && (w.lon as int) <= t1 * (w.lod as int) {
        crate::fixed::lemma_tdiv_nonneg(w.lon as int, w.lod as int);
        assert((w.lon as int) < (t1 + 1) * (w.lod as int)) by (nonlinear_arith)
            requires
                (w.lon as int) <= t1 * (w.lod as int),
                (w.lod as int) >= 1,
        ;
        crate::fixed::lemma_tdiv_abs_le(w.lon as int, w.lod as int, t1);
    }
    if (w.hin as int) >= (w.hid as int) && (w.hin as int) <= t1 * (w.hid as int) {
        crate::fixed::lemma_tdiv_nonneg(w.hin as int, w.hid as int);
        assert((w.hin as int) < (t1 + 1) * (w.hid as int)) by (nonlinear_arith)
            requires
                (w.hin as int) <= t1 * (w.hid as int),
                (w.hid as int) >= 1,
        ;
        crate::fixed::lemma_tdiv_abs_le(w.hin as int, w.hid as int, t1);
    }
}

/// The candidate box hit is a positive rational beyond `EPS`.
pub proof fn lemma_box_tau_pos(b: Aabb, o: Vec3M, d: Vec3M)
    requires
        box_tau(b, o, d).is_some(),
    ensures
        1 <= box_tau(b, o, d).unwrap().1,
        box_tau(b, o, d).unwrap().0 > box_tau(b, o, d).unwrap().1,
{
    let w0 = win_init();
    let wx = win_step(
        w0,
        d.x != 0,
        axis_lo(o.x as int, d.x as int, b.vmin.x as int, b.vmax.x as int),
        axis_hi(o.x as int, d.x as int, b.vmin.x as int, b.vmax.x as int),
        axis_den(d.x as int),
        0,
    );
    let wy = win_step(
        wx,
        d.y != 0,
        axis_lo(o.y as int, d.y as int, b.vmin.y as int, b.vmax.y as int),
        axis_hi(o.y as int, d.y as int, b.vmin.y as int, b.vmax.y as int),
        axis_den(d.y as int),
        1,
    );
    let wz = win_step(
        wy,
        d.z != 0,
        axis_lo(o.z as int, d.z as int, b.vmin.z as int, b.vmax.z as int),
        axis_hi(o.z as int, d.z as int, b.vmin.z as int, b.vmax.z as int),
        axis_den(d.z as int),
        2,
    );
    assert(wx.lod >= 1 && wx.hid >= 1);
    assert(wy.lod >= 1 && wy.hid >= 1);
    assert(wz.lod >= 1 && wz.hid >= 1);
    assert(win_of(b, o, d) == wz);
}

// --- The union algebra ---------------------------------------------------

/// The union of boxes does not depend on the order of its arguments.
pub proof fn lemma_union_comm(a: Aabb, b: Aabb)
    ensures
        box_union(a, b) == box_union(b, a),
{
}

/// The union of boxes can be grouped either way.
pub proof fn lemma_union_assoc(a: Aabb, b: Aabb, c: Aabb)
    ensures
        box_union(box_union(a, b), c) == box_union(a, box_union(b, c)),
{
}

/// The empty box is the neutral element of the union.
pub proof fn lemma_union_empty(b: Aabb)
    requires
        box_wf(b),
    ensures
        box_union(box_empty(), b) == b,
        box_union(b, box_empty()) == b,
{
}

/// A union contains both of its arguments.
pub proof fn lemma_union_contains(a: Aabb, b: Aabb)
    ensures
        box_contains(box_union(a, b), a),
        box_contains(box_union(a, b), b),
{
}

/// Growing a box by a union keeps everything it already contained.
pub proof fn lemma_union_keeps_contains(a: Aabb, b: Aabb, c: Aabb)
    requires
        box_contains(a, c),
    ensures
        box_contains(box_union(a, b), c),
        box_contains(box_union(b, a), c),
{
}

} // verus!
