use vstd::prelude::*;

use crate::fixed::{
    T_MAX,
    COORD_MAX, EPS_FX, NORM_IN_MAX, NORM_PREC, SCALE, fmul, iabs, isqrt, lemma_mul_bound,
    lemma_square, lemma_sqrt_floor, lemma_tdiv_abs_le, rdiv, rdiv128, sqrt_floor, tdiv, tdiv128,
};

verus! {

/// Tests two fixed-point values for approximate equality: they may differ
/// by at most `EPS_FX`, one unit of the fixed-point grid.
pub fn appr(f: i64, g: i64) -> (r: bool)
    requires
        iabs(f as int) <= NORM_IN_MAX,
        iabs(g as int) <= NORM_IN_MAX,
    ensures
        r == (iabs(f - g) <= EPS_FX),
{
    let d: i64 = f - g;
    -EPS_FX <= d && d <= EPS_FX
}

/// Compares two fixed-point values up to the `EPS_FX` tolerance: values
/// within one unit of each other count as equal.
pub fn appr_cmp(f: i64, g: i64) -> (r: core::cmp::Ordering)
    requires
        iabs(f as int) <= NORM_IN_MAX,
        iabs(g as int) <= NORM_IN_MAX,
    ensures
        r == core::cmp::Ordering::Less <==> f - g < -EPS_FX,
        r == core::cmp::Ordering::Greater <==> f - g > EPS_FX,
        r == core::cmp::Ordering::Equal <==> iabs(f - g) <= EPS_FX,
{
    let d: i64 = f - g;
    if d < -EPS_FX {
        core::cmp::Ordering::Less
    } else if d > EPS_FX {
        core::cmp::Ordering::Greater
    } else {
        core::cmp::Ordering::Equal
    }
}

/// A three-dimensional vector of fixed-point coordinates.
#[derive(Clone, Copy, Debug, PartialEq, Eq, Structural)]
pub struct Vec3M {
    pub x: i64,
    pub y: i64,
    pub z: i64,
}

/// Represents a three-dimensional vector.
pub type Vec3 = Vec3M;

/// Whether every coordinate lies inside the world cube.
pub open spec fn in_range(v: Vec3M) -> bool {
    &&& iabs(v.x as int) <= COORD_MAX
    &&& iabs(v.y as int) <= COORD_MAX
    &&& iabs(v.z as int) <= COORD_MAX
}

/// The exact (unrescaled) dot product of two vectors: the fixed-point
/// dot product is this value divided by `SCALE`.
pub open spec fn sdot(a: Vec3M, b: Vec3M) -> int {
    a.x * b.x + a.y * b.y + a.z * b.z
}

/// The components of the fixed-point cross product.
pub open spec fn cross_x(a: Vec3M, b: Vec3M) -> int {
    tdiv(a.y * b.z - a.z * b.y, SCALE as int)
}

pub open spec fn cross_y(a: Vec3M, b: Vec3M) -> int {
    tdiv(a.z * b.x - a.x * b.z, SCALE as int)
}

pub open spec fn cross_z(a: Vec3M, b: Vec3M) -> int {
    tdiv(a.x * b.y - a.y * b.x, SCALE as int)
}

/// A unit vector of the grid: its exact dot product with itself stays
/// within `2 * SCALE` of `SCALE * SCALE`.  The grid norm (the rounded
/// square root of that dot product) then stays within one grid unit —
/// `EPS` — of one; the real-valued norm is pinned to the same band only
/// up to the quantization of the grid.
pub open spec fn is_unit(v: Vec3M) -> bool {
    &&& iabs(sdot(v, v) - (SCALE as int) * (SCALE as int)) <= 2 * SCALE
    &&& iabs(v.x as int) <= 2 * SCALE
    &&& iabs(v.y as int) <= 2 * SCALE
    &&& iabs(v.z as int) <= 2 * SCALE
}

/// The scaled square root used by `normalize`: the norm of `v` upscaled
/// by `NORM_PREC`, rounded down.
pub open spec fn normalize_m(v: Vec3M) -> int {
    sqrt_floor((sdot(v, v) * (NORM_PREC as int) * (NORM_PREC as int)) as nat) as int
}

/// One component of the normalized vector: the component scaled to norm
/// `SCALE`, rounded to nearest.
pub open spec fn normalize_c(c: int, m: int) -> int {
    rdiv(c * (SCALE as int) * (NORM_PREC as int), m)
}

/// The result of `normalize` before the unit check.
pub open spec fn normalize_vec(v: Vec3M) -> Vec3M {
    Vec3M {
        x: normalize_c(v.x as int, normalize_m(v)) as i64,
        y: normalize_c(v.y as int, normalize_m(v)) as i64,
        z: normalize_c(v.z as int, normalize_m(v)) as i64,
    }
}

/// The unit vector along the positive x-axis.
pub open spec fn unit_x_vec() -> Vec3M {
    Vec3M { x: SCALE, y: 0, z: 0 }
}

/// What `normalize` returns: the rounded scaled vector, or the x-axis
/// unit vector in the out-of-tolerance case that the unit law excludes.
pub open spec fn normalize_res(v: Vec3M) -> Vec3M {
    if is_unit(normalize_vec(v)) {
        normalize_vec(v)
    } else {
        unit_x_vec()
    }
}

/// Represents a three-dimensional unit vector: the type can only be
/// obtained through `normalize`, `assert_unit_vector`, the axis
/// constructors, or negation, all of which keep `is_unit`.
#[derive(Clone, Copy, Debug, PartialEq)]
pub struct UnitVec3 {
    v: Vec3M,
}

impl UnitVec3 {
    /// The invariant carried by the type: the wrapped vector is a unit
    /// vector of the fixed-point grid.
    #[verifier::type_invariant]
    pub open spec fn wf(self) -> bool {
        is_unit(self.vec())
    }

    /// The wrapped vector, for specifications.
    pub closed spec fn vec(self) -> Vec3M {
        self.v
    }

    /// Converts the unit vector to a plain vector.
    pub fn to(self) -> (r: Vec3M)
        ensures
            r == self.vec(),
    {
        self.v
    }

    /// The opposite unit vector.
    pub fn neg(self) -> (r: UnitVec3)
        ensures
            r.vec().x == -self.vec().x,
            r.vec().y == -self.vec().y,
            r.vec().z == -self.vec().z,
    {
        proof {
            use_type_invariant(self);
            lemma_neg_dot(self.v);
        }
        UnitVec3 { v: Vec3M { x: -self.v.x, y: -self.v.y, z: -self.v.z } }
    }
}

/// Negating every component leaves the dot product with itself unchanged.
proof fn lemma_neg_dot(v: Vec3M)
    ensures
        (-v.x as int) * (-v.x as int) + (-v.y as int) * (-v.y as int) + (-v.z as int) * (-v.z
            as int) == sdot(v, v),
{
    assert((-v.x as int) * (-v.x as int) == (v.x as int) * (v.x as int)) by (nonlinear_arith);
    assert((-v.y as int) * (-v.y as int) == (v.y as int) * (v.y as int)) by (nonlinear_arith);
    assert((-v.z as int) * (-v.z as int) == (v.z as int) * (v.z as int)) by (nonlinear_arith);
}

impl Vec3M {
    /// Creates a vector with the given fixed-point coordinates.
    pub fn new(x: i64, y: i64, z: i64) -> (r: Vec3)
        ensures
            r == (Vec3M { x, y, z }),
    {
        Vec3M { x, y, z }
    }

    /// Creates a vector with coordinates given in the array of length 3.
    pub fn from_array(arr: [i64; 3]) -> (r: Vec3)
        ensures
            r == (Vec3M { x: arr[0], y: arr[1], z: arr[2] }),
    {
        Vec3M { x: arr[0], y: arr[1], z: arr[2] }
    }

    /// Converts the vector to a `Vec3` (the identity here; kept so that
    /// unit vectors and plain vectors offer the same surface).
    pub fn to(self) -> (r: Vec3)
        ensures
            r == self,
    {
        self
    }

    /// Wraps a vector whose norm is already one into a `UnitVec3`.
    /// Out-of-tolerance vectors are refused by the precondition.
    pub fn assert_unit_vector(self) -> (r: UnitVec3)
        requires
            is_unit(self),
        ensures
            r.vec() == self,
    {
        UnitVec3 { v: self }
    }

    /// Returns the zero vector.
    pub fn zero() -> (r: Vec3)
        ensures
            r == (Vec3M { x: 0, y: 0, z: 0 }),
    {
        Vec3M { x: 0, y: 0, z: 0 }
    }

    /// Returns the vector whose world coordinates are all one.
    pub fn ones() -> (r: Vec3)
        ensures
            r == (Vec3M { x: SCALE, y: SCALE, z: SCALE }),
    {
        Vec3M { x: SCALE, y: SCALE, z: SCALE }
    }

    /// Returns the unit vector in positive x-direction.
    pub fn e1() -> (r: UnitVec3)
        ensures
            r.vec() == (Vec3M { x: SCALE, y: 0, z: 0 }),
    {
        proof {
            assert((SCALE as int) * (SCALE as int) == 100000000) by (nonlinear_arith);
        }
        UnitVec3 { v: Vec3M { x: SCALE, y: 0, z: 0 } }
    }

    /// Returns the unit vector in positive y-direction.
    pub fn e2() -> (r: UnitVec3)
        ensures
            r.vec() == (Vec3M { x: 0, y: SCALE, z: 0 }),
    {
        proof {
            assert((SCALE as int) * (SCALE as int) == 100000000) by (nonlinear_arith);
        }
        UnitVec3 { v: Vec3M { x: 0, y: SCALE, z: 0 } }
    }

    /// Returns the unit vector in positive z-direction.
    pub fn e3() -> (r: UnitVec3)
        ensures
            r.vec() == (Vec3M { x: 0, y: 0, z: SCALE }),
    {
        proof {
            assert((SCALE as int) * (SCALE as int) == 100000000) by (nonlinear_arith);
        }
        UnitVec3 { v: Vec3M { x: 0, y: 0, z: SCALE } }
    }

    /// Returns the unit vector in positive i-th direction.
    pub fn e(i: usize) -> (r: UnitVec3)
        requires
            i < 3,
        ensures
            i == 0 ==> r.vec() == (Vec3M { x: SCALE, y: 0, z: 0 }),
            i == 1 ==> r.vec() == (Vec3M { x: 0, y: SCALE, z: 0 }),
            i == 2 ==> r.vec() == (Vec3M { x: 0, y: 0, z: SCALE }),
    {
        if i == 0 {
            Vec3M::e1()
        } else if i == 1 {
            Vec3M::e2()
        } else {
            Vec3M::e3()
        }
    }

    /// Returns the x-coordinate.
    pub fn x(self) -> (r: i64)
        ensures
            r == self.x,
    {
        self.x
    }

    /// Returns the y-coordinate.
    pub fn y(self) -> (r: i64)
        ensures
            r == self.y,
    {
        self.y
    }

    /// Returns the z-coordinate.
    pub fn z(self) -> (r: i64)
        ensures
            r == self.z,
    {
        self.z
    }

    /// Componentwise sum.
    pub fn add(self, b: Vec3M) -> (r: Vec3)
        requires
            iabs(self.x + b.x) <= i64::MAX,
            iabs(self.y + b.y) <= i64::MAX,
            iabs(self.z + b.z) <= i64::MAX,
        ensures
            r.x == self.x + b.x,
            r.y == self.y + b.y,
            r.z == self.z + b.z,
    {
        Vec3M { x: self.x + b.x, y: self.y + b.y, z: self.z + b.z }
    }

    /// Componentwise difference.
    pub fn sub(self, b: Vec3M) -> (r: Vec3)
        requires
            iabs(self.x - b.x) <= i64::MAX,
            iabs(self.y - b.y) <= i64::MAX,
            iabs(self.z - b.z) <= i64::MAX,
        ensures
            r.x == self.x - b.x,
            r.y == self.y - b.y,
            r.z == self.z - b.z,
    {
        Vec3M { x: self.x - b.x, y: self.y - b.y, z: self.z - b.z }
    }

    /// The vector scaled by the fixed-point factor `k`.
    pub fn scale(self, k: i64) -> (r: Vec3)
        requires
            iabs(k as int) <= T_MAX,
            iabs(self.x as int) <= 2 * COORD_MAX,
            iabs(self.y as int) <= 2 * COORD_MAX,
            iabs(self.z as int) <= 2 * COORD_MAX,
        ensures
            r.x == fmul(k as int, self.x as int),
            r.y == fmul(k as int, self.y as int),
            r.z == fmul(k as int, self.z as int),
            iabs(r.x as int) <= 200_000_000_000_000,
            iabs(r.y as int) <= 200_000_000_000_000,
            iabs(r.z as int) <= 200_000_000_000_000,
    {
        proof {
            lemma_scale_fits(k as int, self.x as int);
            lemma_scale_fits(k as int, self.y as int);
            lemma_scale_fits(k as int, self.z as int);
        }
        Vec3M {
            x: crate::fixed::fx_mul(k, self.x),
            y: crate::fixed::fx_mul(k, self.y),
            z: crate::fixed::fx_mul(k, self.z),
        }
    }

    /// Componentwise negation.
    pub fn neg(self) -> (r: Vec3)
        requires
            self.x > i64::MIN,
            self.y > i64::MIN,
            self.z > i64::MIN,
        ensures
            r.x == -self.x,
            r.y == -self.y,
            r.z == -self.z,
    {
        Vec3M { x: -self.x, y: -self.y, z: -self.z }
    }

    /// The fixed-point dot product (the exact dot product rescaled).
    pub fn dot(self, b: Vec3M) -> (r: i64)
        requires
            iabs(self.x as int) <= NORM_IN_MAX,
            iabs(self.y as int) <= NORM_IN_MAX,
            iabs(self.z as int) <= NORM_IN_MAX,
            iabs(b.x as int) <= NORM_IN_MAX,
            iabs(b.y as int) <= NORM_IN_MAX,
            iabs(b.z as int) <= NORM_IN_MAX,
            iabs(tdiv(sdot(self, b), SCALE as int)) <= i64::MAX,
        ensures
            r == tdiv(sdot(self, b), SCALE as int),
    {
        proof {
            lemma_mul_bound(self.x as int, b.x as int, NORM_IN_MAX as int, NORM_IN_MAX as int);
            lemma_mul_bound(self.y as int, b.y as int, NORM_IN_MAX as int, NORM_IN_MAX as int);
            lemma_mul_bound(self.z as int, b.z as int, NORM_IN_MAX as int, NORM_IN_MAX as int);
        }
        let p: i128 = (self.x as i128) * (b.x as i128) + (self.y as i128) * (b.y as i128) + (
        self.z as i128) * (b.z as i128);
        let q: i128 = tdiv128(p, SCALE as i128);
        q as i64
    }

    /// The fixed-point squared norm.
    pub fn norm2(self) -> (r: i64)
        requires
            iabs(self.x as int) <= NORM_IN_MAX,
            iabs(self.y as int) <= NORM_IN_MAX,
            iabs(self.z as int) <= NORM_IN_MAX,
            iabs(tdiv(sdot(self, self), SCALE as int)) <= i64::MAX,
        ensures
            r == tdiv(sdot(self, self), SCALE as int),
    {
        self.dot(self)
    }

    /// The fixed-point norm: the square root of the exact squared norm,
    /// rounded down, which lands directly on the fixed-point grid.
    pub fn norm(self) -> (r: i64)
        requires
            iabs(self.x as int) <= NORM_IN_MAX,
            iabs(self.y as int) <= NORM_IN_MAX,
            iabs(self.z as int) <= NORM_IN_MAX,
        ensures
            r == sqrt_floor(sdot(self, self) as nat),
            r >= 0,
    {
        proof {
            lemma_mul_bound(self.x as int, self.x as int, NORM_IN_MAX as int, NORM_IN_MAX as int);
            lemma_mul_bound(self.y as int, self.y as int, NORM_IN_MAX as int, NORM_IN_MAX as int);
            lemma_mul_bound(self.z as int, self.z as int, NORM_IN_MAX as int, NORM_IN_MAX as int);
            lemma_square(self.x as int);
            lemma_square(self.y as int);
            lemma_square(self.z as int);
        }
        let p: i128 = (self.x as i128) * (self.x as i128) + (self.y as i128) * (self.y as i128) + (
        self.z as i128) * (self.z as i128);
        let r: u128 = isqrt(p as u128);
        proof {
            lemma_sqrt_floor(p as nat);
            assert(r * r <= p as int);
            lemma_sqrt_at_most(p as nat);
        }
        r as i64
    }

    /// Returns the unit vector pointing in the same direction, computed
    /// with an upscaled square root and rounding to nearest.  If the
    /// rounded result leaves the unit tolerance (which the unit law rules
    /// out for any vector of norm at least one grid unit), the x-axis
    /// unit vector is returned instead.
    pub fn normalize(self) -> (r: UnitVec3)
        requires
            iabs(self.x as int) <= NORM_IN_MAX,
            iabs(self.y as int) <= NORM_IN_MAX,
            iabs(self.z as int) <= NORM_IN_MAX,
            !(self.x == 0 && self.y == 0 && self.z == 0),
        ensures
            r.vec() == normalize_res(self),
    {
        proof {
            lemma_mul_bound(self.x as int, self.x as int, NORM_IN_MAX as int, NORM_IN_MAX as int);
            lemma_mul_bound(self.y as int, self.y as int, NORM_IN_MAX as int, NORM_IN_MAX as int);
            lemma_mul_bound(self.z as int, self.z as int, NORM_IN_MAX as int, NORM_IN_MAX as int);
            lemma_square(self.x as int);
            lemma_square(self.y as int);
            lemma_square(self.z as int);
        }
        let n2: i128 = (self.x as i128) * (self.x as i128) + (self.y as i128) * (self.y as i128)
            + (self.z as i128) * (self.z as i128);
        proof {
            lemma_mul_bound(
                n2 as int,
                (NORM_PREC as int) * (NORM_PREC as int),
                3 * NORM_IN_MAX * NORM_IN_MAX,
                (NORM_PREC as int) * (NORM_PREC as int),
            );
        }
        let m: i128 = isqrt((n2 as u128) * ((NORM_PREC as u128) * (NORM_PREC as u128))) as i128;
        proof {
            lemma_normalize_m(self, n2 as int, m as int);
        }
        let wx: i64 = normalize_component(self.x, m);
        let wy: i64 = normalize_component(self.y, m);
        let wz: i64 = normalize_component(self.z, m);
        let w: Vec3M = Vec3M { x: wx, y: wy, z: wz };
        if unit_check(w) {
            UnitVec3 { v: w }
        } else {
            proof {
                assert((SCALE as int) * (SCALE as int) == 100000000) by (nonlinear_arith);
            }
            UnitVec3 { v: Vec3M { x: SCALE, y: 0, z: 0 } }
        }
    }

    /// Computes the fixed-point cross product of two vectors.
    pub fn cross(self, v: Vec3M) -> (r: Vec3)
        requires
            iabs(self.x as int) <= 2 * COORD_MAX,
            iabs(self.y as int) <= 2 * COORD_MAX,
            iabs(self.z as int) <= 2 * COORD_MAX,
            iabs(v.x as int) <= 2 * COORD_MAX,
            iabs(v.y as int) <= 2 * COORD_MAX,
            iabs(v.z as int) <= 2 * COORD_MAX,
        ensures
            r.x == cross_x(self, v),
            r.y == cross_y(self, v),
            r.z == cross_z(self, v),
    {
        proof {
            lemma_cross_fits(self, v);
        }
        let cx: i128 = (self.y as i128) * (v.z as i128) - (self.z as i128) * (v.y as i128);
        let cy: i128 = (self.z as i128) * (v.x as i128) - (self.x as i128) * (v.z as i128);
        let cz: i128 = (self.x as i128) * (v.y as i128) - (self.y as i128) * (v.x as i128);
        Vec3M {
            x: tdiv128(cx, SCALE as i128) as i64,
            y: tdiv128(cy, SCALE as i128) as i64,
            z: tdiv128(cz, SCALE as i128) as i64,
        }
    }

    /// Returns the coordinate-wise maximum of the two vectors.
    pub fn max(self, v: Vec3M) -> (r: Vec3)
        ensures
            r.x == if self.x >= v.x {
                self.x
            } else {
                v.x
            },
            r.y == if self.y >= v.y {
                self.y
            } else {
                v.y
            },
            r.z == if self.z >= v.z {
                self.z
            } else {
                v.z
            },
    {
        Vec3M {
            x: if self.x >= v.x {
                self.x
            } else {
                v.x
            },
            y: if self.y >= v.y {
                self.y
            } else {
                v.y
            },
            z: if self.z >= v.z {
                self.z
            } else {
                v.z
            },
        }
    }

    /// Returns the coordinate-wise minimum of the two vectors.
    pub fn min(self, v: Vec3M) -> (r: Vec3)
        ensures
            r.x == if self.x <= v.x {
                self.x
            } else {
                v.x
            },
            r.y == if self.y <= v.y {
                self.y
            } else {
                v.y
            },
            r.z == if self.z <= v.z {
                self.z
            } else {
                v.z
            },
    {
        Vec3M {
            x: if self.x <= v.x {
                self.x
            } else {
                v.x
            },
            y: if self.y <= v.y {
                self.y
            } else {
                v.y
            },
            z: if self.z <= v.z {
                self.z
            } else {
                v.z
            },
        }
    }
}

/// `sqrt_floor` of an exact squared norm fits in the fixed-point range.
proof fn lemma_sqrt_at_most(n: nat)
    requires
        n <= 3 * NORM_IN_MAX * NORM_IN_MAX,
    ensures
        sqrt_floor(n) <= 2 * NORM_IN_MAX,
{
    lemma_sqrt_floor(n);
    let r = sqrt_floor(n);
    if r > 2 * NORM_IN_MAX {
        assert((r as int) * (r as int) > 3 * NORM_IN_MAX * NORM_IN_MAX) by (nonlinear_arith)
            requires
                r as int > 2 * NORM_IN_MAX,
        ;
    }
}

/// A scaled product of a bound factor and an in-range coordinate fits
/// comfortably in the machine word.
proof fn lemma_scale_fits(k: int, c: int)
    requires
        iabs(k) <= T_MAX,
        iabs(c) <= 2 * COORD_MAX,
    ensures
        iabs(fmul(k, c)) <= 200_000_000_000_000,
{
    lemma_mul_bound(k, c, T_MAX as int, 2 * COORD_MAX);
    lemma_tdiv_abs_le(k * c, SCALE as int, 200_000_000_000_000);
}

/// Every component of a cross product of in-range vectors fits in the
/// machine word (and well inside the `normalize` input range).
pub proof fn lemma_cross_fits(a: Vec3M, b: Vec3M)
    requires
        iabs(a.x as int) <= 2 * COORD_MAX,
        iabs(a.y as int) <= 2 * COORD_MAX,
        iabs(a.z as int) <= 2 * COORD_MAX,
        iabs(b.x as int) <= 2 * COORD_MAX,
        iabs(b.y as int) <= 2 * COORD_MAX,
        iabs(b.z as int) <= 2 * COORD_MAX,
    ensures
        iabs(a.y * b.z) <= 4 * COORD_MAX * COORD_MAX,
        iabs(a.z * b.y) <= 4 * COORD_MAX * COORD_MAX,
        iabs(a.z * b.x) <= 4 * COORD_MAX * COORD_MAX,
        iabs(a.x * b.z) <= 4 * COORD_MAX * COORD_MAX,
        iabs(a.x * b.y) <= 4 * COORD_MAX * COORD_MAX,
        iabs(a.y * b.x) <= 4 * COORD_MAX * COORD_MAX,
        iabs(a.y * b.z - a.z * b.y) <= 8 * COORD_MAX * COORD_MAX,
        iabs(a.z * b.x - a.x * b.z) <= 8 * COORD_MAX * COORD_MAX,
        iabs(a.x * b.y - a.y * b.x) <= 8 * COORD_MAX * COORD_MAX,
        iabs(cross_x(a, b)) <= NORM_IN_MAX,
        iabs(cross_y(a, b)) <= NORM_IN_MAX,
        iabs(cross_z(a, b)) <= NORM_IN_MAX,
{
    lemma_mul_bound(a.y as int, b.z as int, 2 * COORD_MAX, 2 * COORD_MAX);
    lemma_mul_bound(a.z as int, b.y as int, 2 * COORD_MAX, 2 * COORD_MAX);
    lemma_mul_bound(a.z as int, b.x as int, 2 * COORD_MAX, 2 * COORD_MAX);
    lemma_mul_bound(a.x as int, b.z as int, 2 * COORD_MAX, 2 * COORD_MAX);
    lemma_mul_bound(a.x as int, b.y as int, 2 * COORD_MAX, 2 * COORD_MAX);
    lemma_mul_bound(a.y as int, b.x as int, 2 * COORD_MAX, 2 * COORD_MAX);
    assert(2 * COORD_MAX * (2 * COORD_MAX) == 4 * COORD_MAX * COORD_MAX) by (nonlinear_arith);
    lemma_tdiv_abs_le(a.y * b.z - a.z * b.y, SCALE as int, NORM_IN_MAX as int);
    lemma_tdiv_abs_le(a.z * b.x - a.x * b.z, SCALE as int, NORM_IN_MAX as int);
    lemma_tdiv_abs_le(a.x * b.y - a.y * b.x, SCALE as int, NORM_IN_MAX as int);
}

/// Facts about the scaled square root computed inside `normalize`.
proof fn lemma_normalize_m(v: Vec3M, n2: int, m: int)
    requires
        n2 == sdot(v, v),
        !(v.x == 0 && v.y == 0 && v.z == 0),
        iabs(v.x as int) <= NORM_IN_MAX,
        iabs(v.y as int) <= NORM_IN_MAX,
        iabs(v.z as int) <= NORM_IN_MAX,
        m == sqrt_floor((n2 * (NORM_PREC as int) * (NORM_PREC as int)) as nat),
    ensures
        m == normalize_m(v),
        NORM_PREC <= m,
        m <= 2 * NORM_IN_MAX * NORM_PREC,
{
    lemma_square(v.x as int);
    lemma_square(v.y as int);
    lemma_square(v.z as int);
    assert(n2 >= 1);
    let s = (n2 * (NORM_PREC as int) * (NORM_PREC as int)) as nat;
    lemma_sqrt_floor(s);
    assert((NORM_PREC as int) * (NORM_PREC as int) <= s) by (nonlinear_arith)
        requires
            n2 >= 1,
            s == n2 * (NORM_PREC as int) * (NORM_PREC as int),
    ;
    if m < NORM_PREC {
        assert((m + 1) * (m + 1) <= (NORM_PREC as int) * (NORM_PREC as int)) by (nonlinear_arith)
            requires
                0 <= m,
                m + 1 <= NORM_PREC,
        ;
    }
    lemma_mul_bound(v.x as int, v.x as int, NORM_IN_MAX as int, NORM_IN_MAX as int);
    lemma_mul_bound(v.y as int, v.y as int, NORM_IN_MAX as int, NORM_IN_MAX as int);
    lemma_mul_bound(v.z as int, v.z as int, NORM_IN_MAX as int, NORM_IN_MAX as int);
    assert(n2 <= 3 * NORM_IN_MAX * NORM_IN_MAX);
    if m > 2 * NORM_IN_MAX * NORM_PREC {
        assert((m as int) * (m as int) > 3 * NORM_IN_MAX * NORM_IN_MAX * (NORM_PREC as int) * (
        NORM_PREC as int)) by (nonlinear_arith)
            requires
                m as int > 2 * (NORM_IN_MAX as int) * (NORM_PREC as int),
        ;
        assert(s <= 3 * NORM_IN_MAX * NORM_IN_MAX * (NORM_PREC as int) * (NORM_PREC as int))
            by (nonlinear_arith)
            requires
                n2 <= 3 * NORM_IN_MAX * NORM_IN_MAX,
                s == n2 * (NORM_PREC as int) * (NORM_PREC as int),
        ;
    }
}

/// One rounded component of the normalized vector.
fn normalize_component(c: i64, m: i128) -> (r: i64)
    requires
        iabs(c as int) <= NORM_IN_MAX,
        NORM_PREC <= m <= 2 * NORM_IN_MAX * NORM_PREC,
    ensures
        r == normalize_c(c as int, m as int),
{
    proof {
        lemma_mul_bound(
            c as int,
            (SCALE as int) * (NORM_PREC as int),
            NORM_IN_MAX as int,
            (SCALE as int) * (NORM_PREC as int),
        );
    }
    let a: i128 = (c as i128) * ((SCALE as i128) * (NORM_PREC as i128));
    proof {
        if a >= 0 {
            lemma_tdiv_abs_le(2 * a + m, 2 * m as int, i64::MAX as int);
        } else {
            lemma_tdiv_abs_le(2 * a - m, 2 * m as int, i64::MAX as int);
        }
    }
    let q: i128 = rdiv128(a, m);
    proof {
        assert(c * ((SCALE as int) * (NORM_PREC as int)) == c * (SCALE as int) * (NORM_PREC
            as int)) by (nonlinear_arith);
    }
    q as i64
}

/// The runtime unit-tolerance check used by `normalize`.
fn unit_check(w: Vec3M) -> (r: bool)
    ensures
        r == is_unit(w),
{
    let bound: i64 = 2 * SCALE;
    if -bound <= w.x && w.x <= bound && -bound <= w.y && w.y <= bound && -bound <= w.z && w.z
        <= bound {
        proof {
            lemma_mul_bound(w.x as int, w.x as int, 2 * SCALE, 2 * SCALE);
            lemma_mul_bound(w.y as int, w.y as int, 2 * SCALE, 2 * SCALE);
            lemma_mul_bound(w.z as int, w.z as int, 2 * SCALE, 2 * SCALE);
            assert((SCALE as int) * (SCALE as int) == 100000000) by (nonlinear_arith);
            assert(2 * SCALE * (2 * SCALE) == 400000000) by (nonlinear_arith);
        }
        let d: i64 = ((w.x as i128 * w.x as i128 + w.y as i128 * w.y as i128 + w.z as i128 * w.z
            as i128) - (SCALE as i128 * SCALE as i128)) as i64;
        -2 * SCALE <= d && d <= 2 * SCALE
    } else {
        false
    }
}

} // verus!

verus! {

/// Half a turn, on the fixed-point grid.
pub const PI_FX: i64 = 31416;

/// A full turn, on the fixed-point grid.
pub const TWO_PI_FX: i64 = 62832;

/// The alternating sine series on the fixed-point grid, after folding
/// the angle into half a turn of zero.  Each term divides the previous
/// one by the next pair of the factorial.
pub open spec fn sin_series(x: int) -> int {
    let xr = if x > PI_FX {
        x - TWO_PI_FX
    } else if x < -PI_FX {
        x + TWO_PI_FX
    } else {
        x
    };
    let x2 = fmul(xr, xr);
    let t1 = xr;
    let t3 = -tdiv(fmul(t1, x2), 6);
    let t5 = -tdiv(fmul(t3, x2), 20);
    let t7 = -tdiv(fmul(t5, x2), 42);
    let t9 = -tdiv(fmul(t7, x2), 72);
    let t11 = -tdiv(fmul(t9, x2), 110);
    let t13 = -tdiv(fmul(t11, x2), 156);
    t1 + t3 + t5 + t7 + t9 + t11 + t13
}

/// The alternating cosine series on the fixed-point grid.
pub open spec fn cos_series(x: int) -> int {
    let xr = if x > PI_FX {
        x - TWO_PI_FX
    } else if x < -PI_FX {
        x + TWO_PI_FX
    } else {
        x
    };
    let x2 = fmul(xr, xr);
    let c0 = SCALE as int;
    let c2 = -tdiv(fmul(c0, x2), 2);
    let c4 = -tdiv(fmul(c2, x2), 12);
    let c6 = -tdiv(fmul(c4, x2), 30);
    let c8 = -tdiv(fmul(c6, x2), 56);
    let c10 = -tdiv(fmul(c8, x2), 90);
    let c12 = -tdiv(fmul(c10, x2), 132);
    c0 + c2 + c4 + c6 + c8 + c10 + c12
}

/// One series step: rescales by the squared angle and divides by the
/// next factorial pair.  The ghost bound threads the shrinking term
/// magnitude through the chain.
fn series_step(t: i64, x2: i64, q: i64, bt: Ghost<int>) -> (r: i64)
    requires
        iabs(t as int) <= bt@,
        0 <= bt@ <= 1_000_000,
        0 <= x2 <= 100_000,
        1 <= q <= 1000,
    ensures
        r == -tdiv(fmul(t as int, x2 as int), q as int),
        iabs(r as int) <= 10 * bt@ / (q as int),
{
    proof {
        lemma_mul_bound(t as int, x2 as int, bt@, 100_000);
        assert(bt@ * 100_000 < (10 * bt@ + 1) * SCALE) by (nonlinear_arith)
            requires
                0 <= bt@,
                SCALE == 10000,
        ;
        lemma_tdiv_abs_le((t as int) * (x2 as int), SCALE as int, 10 * bt@);
        assert(10 * bt@ < (10 * bt@ / (q as int) + 1) * q) by (nonlinear_arith)
            requires
                0 <= bt@,
                1 <= q,
        ;
        lemma_tdiv_abs_le(fmul(t as int, x2 as int), q as int, 10 * bt@ / (q as int));
    }
    let p: i64 = crate::fixed::tdiv64(crate::fixed::fx_mul(t, x2), q);
    -p
}

/// Computes the fixed-point sine of an angle within one turn of zero.
#[verifier::rlimit(60)]
pub fn fx_sin(x: i64) -> (r: i64)
    requires
        iabs(x as int) <= TWO_PI_FX,
    ensures
        r == sin_series(x as int),
        iabs(r as int) <= 30_000_000,
{
    let xr: i64 = if x > PI_FX {
        x - TWO_PI_FX
    } else if x < -PI_FX {
        x + TWO_PI_FX
    } else {
        x
    };
    proof {
        lemma_mul_bound(xr as int, xr as int, PI_FX as int, PI_FX as int);
        lemma_tdiv_abs_le((xr as int) * (xr as int), SCALE as int, 100_000);
        crate::fixed::lemma_square(xr as int);
        crate::fixed::lemma_tdiv_nonneg((xr as int) * (xr as int), SCALE as int);
    }
    let x2: i64 = crate::fixed::fx_mul(xr, xr);
    let t1: i64 = xr;
    let t3: i64 = series_step(t1, x2, 6, Ghost(PI_FX as int));
    let t5: i64 = series_step(t3, x2, 20, Ghost(52360));
    let t7: i64 = series_step(t5, x2, 42, Ghost(26180));
    let t9: i64 = series_step(t7, x2, 72, Ghost(6233));
    let t11: i64 = series_step(t9, x2, 110, Ghost(865));
    let t13: i64 = series_step(t11, x2, 156, Ghost(78));
    t1 + t3 + t5 + t7 + t9 + t11 + t13
}

/// Computes the fixed-point cosine of an angle within one turn of zero.
#[verifier::rlimit(60)]
pub fn fx_cos(x: i64) -> (r: i64)
    requires
        iabs(x as int) <= TWO_PI_FX,
    ensures
        r == cos_series(x as int),
        iabs(r as int) <= 30_000_000,
{
    let xr: i64 = if x > PI_FX {
        x - TWO_PI_FX
    } else if x < -PI_FX {
        x + TWO_PI_FX
    } else {
        x
    };
    proof {
        lemma_mul_bound(xr as int, xr as int, PI_FX as int, PI_FX as int);
        lemma_tdiv_abs_le((xr as int) * (xr as int), SCALE as int, 100_000);
        crate::fixed::lemma_square(xr as int);
        crate::fixed::lemma_tdiv_nonneg((xr as int) * (xr as int), SCALE as int);
    }
    let x2: i64 = crate::fixed::fx_mul(xr, xr);
    let c0: i64 = SCALE;
    let c2: i64 = series_step(c0, x2, 2, Ghost(SCALE as int));
    let c4: i64 = series_step(c2, x2, 12, Ghost(50000));
    let c6: i64 = series_step(c4, x2, 30, Ghost(41666));
    let c8: i64 = series_step(c6, x2, 56, Ghost(13888));
    let c10: i64 = series_step(c8, x2, 90, Ghost(2480));
    let c12: i64 = series_step(c10, x2, 132, Ghost(275));
    c0 + c2 + c4 + c6 + c8 + c10 + c12
}

/// What the half-angle tangent helper returns: the quotient of the two
/// series, or one where the cosine series has degenerated to zero or
/// below (far outside the field-of-view range this is used for).
pub open spec fn tan_half_spec(fov: int) -> int {
    let h = tdiv(fov, 2);
    if cos_series(h) < 1 {
        SCALE as int
    } else {
        crate::fixed::fdiv(sin_series(h), cos_series(h))
    }
}

/// Computes the tangent of half the given angle on the fixed-point
/// grid, for the camera's field of view.
pub fn fx_tan_half(fov: i64) -> (r: i64)
    requires
        0 <= fov <= TWO_PI_FX,
    ensures
        r == tan_half_spec(fov as int),
        iabs(r as int) <= 300_000_000_000_000,
{
    let h: i64 = crate::fixed::tdiv64(fov, 2);
    let s: i64 = fx_sin(h);
    let c: i64 = fx_cos(h);
    if c < 1 {
        SCALE
    } else {
        proof {
            lemma_mul_bound(s as int, SCALE as int, 30_000_000, SCALE as int);
            lemma_tdiv_abs_le((s as int) * (SCALE as int), c as int, 300_000_000_000_000);
        }
        crate::fixed::fx_div(s, c)
    }
}

} // verus!

verus! {

/// The magnitude bound on affine-matrix entries: inside it every
/// product of the composition and inversion formulas fits the machine
/// words.
pub const MAT_MAX: i64 = 200_000_000;

/// Matrices of the shape `(A b)` over an implicit last row `(0 1)`,
/// representing the affine transformation `x -> Ax + b`: a 3 by 3
/// linear block and a translation column.
#[derive(Clone, Copy, Debug, PartialEq, Eq, Structural)]
pub struct Matrix34 {
    pub m00: i64,
    pub m01: i64,
    pub m02: i64,
    pub m03: i64,
    pub m10: i64,
    pub m11: i64,
    pub m12: i64,
    pub m13: i64,
    pub m20: i64,
    pub m21: i64,
    pub m22: i64,
    pub m23: i64,
}

/// Every entry lies inside the matrix range.
pub open spec fn mat_wf(m: Matrix34) -> bool {
    &&& iabs(m.m00 as int) <= MAT_MAX
    &&& iabs(m.m01 as int) <= MAT_MAX
    &&& iabs(m.m02 as int) <= MAT_MAX
    &&& iabs(m.m03 as int) <= MAT_MAX
    &&& iabs(m.m10 as int) <= MAT_MAX
    &&& iabs(m.m11 as int) <= MAT_MAX
    &&& iabs(m.m12 as int) <= MAT_MAX
    &&& iabs(m.m13 as int) <= MAT_MAX
    &&& iabs(m.m20 as int) <= MAT_MAX
    &&& iabs(m.m21 as int) <= MAT_MAX
    &&& iabs(m.m22 as int) <= MAT_MAX
    &&& iabs(m.m23 as int) <= MAT_MAX
}

/// One linear entry of a matrix product, on the fixed-point grid.
pub open spec fn mat_entry(a1: int, a2: int, a3: int, b1: int, b2: int, b3: int) -> int {
    tdiv(a1 * b1 + a2 * b2 + a3 * b3, SCALE as int)
}

/// The composition of two affine matrices.
pub open spec fn mat_mul(a: Matrix34, b: Matrix34) -> Matrix34 {
    Matrix34 {
        m00: mat_entry(a.m00 as int, a.m01 as int, a.m02 as int, b.m00 as int, b.m10 as int,
            b.m20 as int) as i64,
        m01: mat_entry(a.m00 as int, a.m01 as int, a.m02 as int, b.m01 as int, b.m11 as int,
            b.m21 as int) as i64,
        m02: mat_entry(a.m00 as int, a.m01 as int, a.m02 as int, b.m02 as int, b.m12 as int,
            b.m22 as int) as i64,
        m03: (mat_entry(a.m00 as int, a.m01 as int, a.m02 as int, b.m03 as int, b.m13 as int,
            b.m23 as int) + a.m03) as i64,
        m10: mat_entry(a.m10 as int, a.m11 as int, a.m12 as int, b.m00 as int, b.m10 as int,
            b.m20 as int) as i64,
        m11: mat_entry(a.m10 as int, a.m11 as int, a.m12 as int, b.m01 as int, b.m11 as int,
            b.m21 as int) as i64,
        m12: mat_entry(a.m10 as int, a.m11 as int, a.m12 as int, b.m02 as int, b.m12 as int,
            b.m22 as int) as i64,
        m13: (mat_entry(a.m10 as int, a.m11 as int, a.m12 as int, b.m03 as int, b.m13 as int,
            b.m23 as int) + a.m13) as i64,
        m20: mat_entry(a.m20 as int, a.m21 as int, a.m22 as int, b.m00 as int, b.m10 as int,
            b.m20 as int) as i64,
        m21: mat_entry(a.m20 as int, a.m21 as int, a.m22 as int, b.m01 as int, b.m11 as int,
            b.m21 as int) as i64,
        m22: mat_entry(a.m20 as int, a.m21 as int, a.m22 as int, b.m02 as int, b.m12 as int,
            b.m22 as int) as i64,
        m23: (mat_entry(a.m20 as int, a.m21 as int, a.m22 as int, b.m03 as int, b.m13 as int,
            b.m23 as int) + a.m23) as i64,
    }
}

/// The identity transformation.
pub open spec fn mat_identity() -> Matrix34 {
    Matrix34 {
        m00: SCALE,
        m01: 0,
        m02: 0,
        m03: 0,
        m10: 0,
        m11: SCALE,
        m12: 0,
        m13: 0,
        m20: 0,
        m21: 0,
        m22: SCALE,
        m23: 0,
    }
}

/// The unrescaled determinant of the linear block (the fixed-point
/// determinant is this value divided by the squared scale).
pub open spec fn mat_det3(a: Matrix34) -> int {
    a.m00 * a.m11 * a.m22 + a.m01 * a.m12 * a.m20 + a.m02 * a.m10 * a.m21 - a.m00 * a.m12 * a.m21
        - a.m01 * a.m10 * a.m22 - a.m02 * a.m11 * a.m20
}

/// One inverse entry: the unrescaled cofactor brought back to the grid.
pub open spec fn inv_entry(c1: int, c2: int, det: int) -> int {
    tdiv((c1 * c2) * SCALE * SCALE, det)
}

/// The entries of a matrix product fit the machine words.
proof fn lemma_mat_entry_fits(a1: int, a2: int, a3: int, b1: int, b2: int, b3: int)
    requires
        iabs(a1) <= MAT_MAX,
        iabs(a2) <= MAT_MAX,
        iabs(a3) <= MAT_MAX,
        iabs(b1) <= MAT_MAX,
        iabs(b2) <= MAT_MAX,
        iabs(b3) <= MAT_MAX,
    ensures
        iabs(a1 * b1) <= 40_000_000_000_000_000,
        iabs(a2 * b2) <= 40_000_000_000_000_000,
        iabs(a3 * b3) <= 40_000_000_000_000_000,
        iabs(mat_entry(a1, a2, a3, b1, b2, b3)) <= 12_000_000_000_000,
{
    lemma_mul_bound(a1, b1, MAT_MAX as int, MAT_MAX as int);
    lemma_mul_bound(a2, b2, MAT_MAX as int, MAT_MAX as int);
    lemma_mul_bound(a3, b3, MAT_MAX as int, MAT_MAX as int);
    assert(MAT_MAX * MAT_MAX == 40_000_000_000_000_000) by (nonlinear_arith);
    lemma_tdiv_abs_le(a1 * b1 + a2 * b2 + a3 * b3, SCALE as int, 12_000_000_000_000);
}

impl Matrix34 {
    /// One linear entry of the product with another matrix.
    fn entry(a1: i64, a2: i64, a3: i64, b1: i64, b2: i64, b3: i64) -> (r: i64)
        requires
            iabs(a1 as int) <= MAT_MAX,
            iabs(a2 as int) <= MAT_MAX,
            iabs(a3 as int) <= MAT_MAX,
            iabs(b1 as int) <= MAT_MAX,
            iabs(b2 as int) <= MAT_MAX,
            iabs(b3 as int) <= MAT_MAX,
        ensures
            r == mat_entry(a1 as int, a2 as int, a3 as int, b1 as int, b2 as int, b3 as int),
            iabs(r as int) <= 12_000_000_000_000,
    {
        proof {
            lemma_mat_entry_fits(a1 as int, a2 as int, a3 as int, b1 as int, b2 as int, b3 as int);
        }
        let s: i128 = (a1 as i128) * (b1 as i128) + (a2 as i128) * (b2 as i128) + (a3 as i128) * (
        b3 as i128);
        crate::fixed::tdiv128(s, SCALE as i128) as i64
    }

    /// Composes two affine transformations (`self` applied after `b`).
    pub fn mul(&self, b: &Matrix34) -> (r: Matrix34)
        requires
            mat_wf(*self),
            mat_wf(*b),
        ensures
            r == mat_mul(*self, *b),
    {
        Matrix34 {
            m00: Matrix34::entry(self.m00, self.m01, self.m02, b.m00, b.m10, b.m20),
            m01: Matrix34::entry(self.m00, self.m01, self.m02, b.m01, b.m11, b.m21),
            m02: Matrix34::entry(self.m00, self.m01, self.m02, b.m02, b.m12, b.m22),
            m03: Matrix34::entry(self.m00, self.m01, self.m02, b.m03, b.m13, b.m23) + self.m03,
            m10: Matrix34::entry(self.m10, self.m11, self.m12, b.m00, b.m10, b.m20),
            m11: Matrix34::entry(self.m10, self.m11, self.m12, b.m01, b.m11, b.m21),
            m12: Matrix34::entry(self.m10, self.m11, self.m12, b.m02, b.m12, b.m22),
            m13: Matrix34::entry(self.m10, self.m11, self.m12, b.m03, b.m13, b.m23) + self.m13,
            m20: Matrix34::entry(self.m20, self.m21, self.m22, b.m00, b.m10, b.m20),
            m21: Matrix34::entry(self.m20, self.m21, self.m22, b.m01, b.m11, b.m21),
            m22: Matrix34::entry(self.m20, self.m21, self.m22, b.m02, b.m12, b.m22),
            m23: Matrix34::entry(self.m20, self.m21, self.m22, b.m03, b.m13, b.m23) + self.m23,
        }
    }

    /// Applies the affine transformation to a point.
    pub fn apply(&self, v: Vec3) -> (r: Vec3)
        requires
            mat_wf(*self),
            iabs(v.x as int) <= MAT_MAX,
            iabs(v.y as int) <= MAT_MAX,
            iabs(v.z as int) <= MAT_MAX,
        ensures
            r == mat_apply(*self, v),
    {
        Vec3M {
            x: Matrix34::entry(self.m00, self.m01, self.m02, v.x, v.y, v.z) + self.m03,
            y: Matrix34::entry(self.m10, self.m11, self.m12, v.x, v.y, v.z) + self.m13,
            z: Matrix34::entry(self.m20, self.m21, self.m22, v.x, v.y, v.z) + self.m23,
        }
    }

    /// Creates a scaling matrix.
    pub fn scale(v: Vec3) -> (r: Matrix34)
        ensures
            r == (Matrix34 {
                m00: v.x,
                m01: 0,
                m02: 0,
                m03: 0,
                m10: 0,
                m11: v.y,
                m12: 0,
                m13: 0,
                m20: 0,
                m21: 0,
                m22: v.z,
                m23: 0,
            }),
    {
        Matrix34 {
            m00: v.x,
            m01: 0,
            m02: 0,
            m03: 0,
            m10: 0,
            m11: v.y,
            m12: 0,
            m13: 0,
            m20: 0,
            m21: 0,
            m22: v.z,
            m23: 0,
        }
    }

    /// Creates a translation matrix.
    pub fn translate(v: Vec3) -> (r: Matrix34)
        ensures
            r == (Matrix34 {
                m00: SCALE,
                m01: 0,
                m02: 0,
                m03: v.x,
                m10: 0,
                m11: SCALE,
                m12: 0,
                m13: v.y,
                m20: 0,
                m21: 0,
                m22: SCALE,
                m23: v.z,
            }),
    {
        Matrix34 {
            m00: SCALE,
            m01: 0,
            m02: 0,
            m03: v.x,
            m10: 0,
            m11: SCALE,
            m12: 0,
            m13: v.y,
            m20: 0,
            m21: 0,
            m22: SCALE,
            m23: v.z,
        }
    }

    /// The identity matrix.
    pub fn identity() -> (r: Matrix34)
        ensures
            r == mat_identity(),
    {
        Matrix34 {
            m00: SCALE,
            m01: 0,
            m02: 0,
            m03: 0,
            m10: 0,
            m11: SCALE,
            m12: 0,
            m13: 0,
            m20: 0,
            m21: 0,
            m22: SCALE,
            m23: 0,
        }
    }

    /// Transposes the linear block and leaves the translation column
    /// unchanged.
    pub fn transpose(&self) -> (r: Matrix34)
        ensures
            r == (Matrix34 {
                m00: self.m00,
                m01: self.m10,
                m02: self.m20,
                m03: self.m03,
                m10: self.m01,
                m11: self.m11,
                m12: self.m21,
                m13: self.m13,
                m20: self.m02,
                m21: self.m12,
                m22: self.m22,
                m23: self.m23,
            }),
    {
        Matrix34 {
            m00: self.m00,
            m01: self.m10,
            m02: self.m20,
            m03: self.m03,
            m10: self.m01,
            m11: self.m11,
            m12: self.m21,
            m13: self.m13,
            m20: self.m02,
            m21: self.m12,
            m22: self.m22,
            m23: self.m23,
        }
    }

    /// Computes the fixed-point determinant of the linear block.
    pub fn determinant(&self) -> (r: i64)
        requires
            mat_wf(*self),
        ensures
            r == tdiv(mat_det3(*self), SCALE * SCALE),
    {
        proof {
            lemma_det_fits(*self);
        }
        let d: i128 = det3_exec(self);
        crate::fixed::tdiv128(d, (SCALE as i128) * (SCALE as i128)) as i64
    }

    /// Creates a rotation matrix around the (normalized) axis by the
    /// given fixed-point angle, within one turn of zero.
    pub fn rotate(axis: Vec3, angle: i64) -> (r: Matrix34)
        requires
            iabs(axis.x as int) <= NORM_IN_MAX,
            iabs(axis.y as int) <= NORM_IN_MAX,
            iabs(axis.z as int) <= NORM_IN_MAX,
            !(axis.x == 0 && axis.y == 0 && axis.z == 0),
            iabs(angle as int) <= TWO_PI_FX,
        ensures
            r == rotate_spec(axis, angle as int),
    {
        let u: UnitVec3 = axis.normalize();
        proof {
            use_type_invariant(u);
        }
        let uv: Vec3 = u.to();
        let c: i64 = fx_cos(angle);
        let s: i64 = fx_sin(angle);
        let ic: i64 = SCALE - c;
        proof {
            lemma_rotate_fits(uv, c as int, s as int);
        }
        Matrix34 {
            m00: c + crate::fixed::fx_mul(crate::fixed::fx_mul(uv.x, uv.x), ic),
            m01: crate::fixed::fx_mul(crate::fixed::fx_mul(uv.x, uv.y), ic) - crate::fixed::fx_mul(
                uv.z, s),
            m02: crate::fixed::fx_mul(crate::fixed::fx_mul(uv.x, uv.z), ic) + crate::fixed::fx_mul(
                uv.y, s),
            m03: 0,
            m10: crate::fixed::fx_mul(crate::fixed::fx_mul(uv.y, uv.x), ic) + crate::fixed::fx_mul(
                uv.z, s),
            m11: c + crate::fixed::fx_mul(crate::fixed::fx_mul(uv.y, uv.y), ic),
            m12: crate::fixed::fx_mul(crate::fixed::fx_mul(uv.y, uv.z), ic) - crate::fixed::fx_mul(
                uv.x, s),
            m13: 0,
            m20: crate::fixed::fx_mul(crate::fixed::fx_mul(uv.z, uv.x), ic) - crate::fixed::fx_mul(
                uv.y, s),
            m21: crate::fixed::fx_mul(crate::fixed::fx_mul(uv.z, uv.y), ic) + crate::fixed::fx_mul(
                uv.x, s),
            m22: c + crate::fixed::fx_mul(crate::fixed::fx_mul(uv.z, uv.z), ic),
            m23: 0,
        }
    }

    /// Inverts the matrix as an affine transformation, given that the
    /// determinant is far enough from zero for every inverse entry to
    /// stay on the grid.
    pub fn invert(&self) -> (r: Matrix34)
        requires
            mat_wf(*self),
            mat_det3(*self) != 0,
            forall|c1: int, c2: int|
                mat_cof_pair(*self, c1, c2) ==> iabs(
                    #[trigger] tdiv((c1 * c2) * SCALE * SCALE, mat_det3(*self)),
                ) <= MAT_MAX,
        ensures
            r == mat_invert(*self),
    {
        proof {
            lemma_det_fits(*self);
            lemma_invert_fits(*self);
        }
        let d: i128 = det3_exec(self);
        let b00: i64 = inv_entry_exec(self.m11, self.m22, self.m12, self.m21, d);
        let b01: i64 = inv_entry_exec(self.m02, self.m21, self.m22, self.m01, d);
        let b02: i64 = inv_entry_exec(self.m01, self.m12, self.m11, self.m02, d);
        let b10: i64 = inv_entry_exec(self.m12, self.m20, self.m22, self.m10, d);
        let b11: i64 = inv_entry_exec(self.m00, self.m22, self.m20, self.m02, d);
        let b12: i64 = inv_entry_exec(self.m02, self.m10, self.m12, self.m00, d);
        let b20: i64 = inv_entry_exec(self.m10, self.m21, self.m20, self.m11, d);
        let b21: i64 = inv_entry_exec(self.m01, self.m20, self.m21, self.m00, d);
        let b22: i64 = inv_entry_exec(self.m00, self.m11, self.m10, self.m01, d);
        let t0: i64 = -Matrix34::entry(b00, b01, b02, self.m03, self.m13, self.m23);
        let t1: i64 = -Matrix34::entry(b10, b11, b12, self.m03, self.m13, self.m23);
        let t2: i64 = -Matrix34::entry(b20, b21, b22, self.m03, self.m13, self.m23);
        Matrix34 {
            m00: b00,
            m01: b01,
            m02: b02,
            m03: t0,
            m10: b10,
            m11: b11,
            m12: b12,
            m13: t1,
            m20: b20,
            m21: b21,
            m22: b22,
            m23: t2,
        }
    }
}

/// The rotation entries stay on the grid: unit components and the
/// bounded series values keep every product small.
proof fn lemma_rotate_fits(u: Vec3M, c: int, s: int)
    requires
        iabs(u.x as int) <= 2 * SCALE,
        iabs(u.y as int) <= 2 * SCALE,
        iabs(u.z as int) <= 2 * SCALE,
        iabs(c) <= 30_000_000,
        iabs(s) <= 30_000_000,
    ensures
        iabs(fmul(u.x as int, u.x as int)) <= 4 * SCALE,
        iabs(fmul(u.x as int, u.y as int)) <= 4 * SCALE,
        iabs(fmul(u.x as int, u.z as int)) <= 4 * SCALE,
        iabs(fmul(u.y as int, u.x as int)) <= 4 * SCALE,
        iabs(fmul(u.y as int, u.y as int)) <= 4 * SCALE,
        iabs(fmul(u.y as int, u.z as int)) <= 4 * SCALE,
        iabs(fmul(u.z as int, u.x as int)) <= 4 * SCALE,
        iabs(fmul(u.z as int, u.y as int)) <= 4 * SCALE,
        iabs(fmul(u.z as int, u.z as int)) <= 4 * SCALE,
        iabs(fmul(u.x as int, s)) <= 60_010_000,
        iabs(fmul(u.y as int, s)) <= 60_010_000,
        iabs(fmul(u.z as int, s)) <= 60_010_000,
        forall|a: int, b: int|
            iabs(a) <= 4 * SCALE && iabs(b) <= 40_010_000 ==> iabs(#[trigger] fmul(a, b))
                <= 160_100_000,
{
    lemma_rotate_pair(u.x as int, u.x as int);
    lemma_rotate_pair(u.x as int, u.y as int);
    lemma_rotate_pair(u.x as int, u.z as int);
    lemma_rotate_pair(u.y as int, u.x as int);
    lemma_rotate_pair(u.y as int, u.y as int);
    lemma_rotate_pair(u.y as int, u.z as int);
    lemma_rotate_pair(u.z as int, u.x as int);
    lemma_rotate_pair(u.z as int, u.y as int);
    lemma_rotate_pair(u.z as int, u.z as int);
    lemma_rotate_sin(u.x as int, s);
    lemma_rotate_sin(u.y as int, s);
    lemma_rotate_sin(u.z as int, s);
    assert forall|a: int, b: int|
        iabs(a) <= 4 * SCALE && iabs(b) <= 40_010_000 implies iabs(#[trigger] fmul(a, b))
        <= 160_100_000 by {
        lemma_mul_bound(a, b, 4 * SCALE, 40_010_000);
        assert(4 * SCALE * 40_010_000 == 1_600_400_000_000) by (nonlinear_arith);
        lemma_tdiv_abs_le(a * b, SCALE as int, 160_100_000);
    }
}

proof fn lemma_rotate_pair(a: int, b: int)
    requires
        iabs(a) <= 2 * SCALE,
        iabs(b) <= 2 * SCALE,
    ensures
        iabs(fmul(a, b)) <= 4 * SCALE,
{
    lemma_mul_bound(a, b, 2 * SCALE, 2 * SCALE);
    assert(2 * SCALE * (2 * SCALE) == 4 * SCALE * SCALE) by (nonlinear_arith);
    lemma_tdiv_abs_le(a * b, SCALE as int, 4 * SCALE);
}

proof fn lemma_rotate_sin(a: int, s: int)
    requires
        iabs(a) <= 2 * SCALE,
        iabs(s) <= 30_000_000,
    ensures
        iabs(fmul(a, s)) <= 60_010_000,
{
    lemma_mul_bound(a, s, 2 * SCALE, 30_000_000);
    assert(2 * SCALE * 30_000_000i128 == 600_000_000_000i128) by (nonlinear_arith);
    lemma_tdiv_abs_le(a * s, SCALE as int, 60_010_000);
}

/// The affine application of a matrix to a point: the linear block
/// times the point, plus the translation column.
pub open spec fn mat_apply(m: Matrix34, v: Vec3M) -> Vec3M {
    Vec3M {
        x: (mat_entry(m.m00 as int, m.m01 as int, m.m02 as int, v.x as int, v.y as int,
            v.z as int) + m.m03) as i64,
        y: (mat_entry(m.m10 as int, m.m11 as int, m.m12 as int, v.x as int, v.y as int,
            v.z as int) + m.m13) as i64,
        z: (mat_entry(m.m20 as int, m.m21 as int, m.m22 as int, v.x as int, v.y as int,
            v.z as int) + m.m23) as i64,
    }
}

/// The spec of `rotate`, over the normalized axis.
pub open spec fn rotate_spec(axis: Vec3M, angle: int) -> Matrix34 {
    let u = normalize_res(axis);
    let c = cos_series(angle);
    let s = sin_series(angle);
    let ic = SCALE - c;
    Matrix34 {
        m00: (c + fmul(fmul(u.x as int, u.x as int), ic)) as i64,
        m01: (fmul(fmul(u.x as int, u.y as int), ic) - fmul(u.z as int, s)) as i64,
        m02: (fmul(fmul(u.x as int, u.z as int), ic) + fmul(u.y as int, s)) as i64,
        m03: 0,
        m10: (fmul(fmul(u.y as int, u.x as int), ic) + fmul(u.z as int, s)) as i64,
        m11: (c + fmul(fmul(u.y as int, u.y as int), ic)) as i64,
        m12: (fmul(fmul(u.y as int, u.z as int), ic) - fmul(u.x as int, s)) as i64,
        m13: 0,
        m20: (fmul(fmul(u.z as int, u.x as int), ic) - fmul(u.y as int, s)) as i64,
        m21: (fmul(fmul(u.z as int, u.y as int), ic) + fmul(u.x as int, s)) as i64,
        m22: (c + fmul(fmul(u.z as int, u.z as int), ic)) as i64,
        m23: 0,
    }
}

/// The nine cofactor pairs of the inverse.
pub open spec fn mat_cof_pair(a: Matrix34, c1: int, c2: int) -> bool {
    ||| (c1 == a.m11 * a.m22 - a.m12 * a.m21 && c2 == 1)
    ||| (c1 == a.m02 * a.m21 - a.m22 * a.m01 && c2 == 1)
    ||| (c1 == a.m01 * a.m12 - a.m11 * a.m02 && c2 == 1)
    ||| (c1 == a.m12 * a.m20 - a.m22 * a.m10 && c2 == 1)
    ||| (c1 == a.m00 * a.m22 - a.m20 * a.m02 && c2 == 1)
    ||| (c1 == a.m02 * a.m10 - a.m12 * a.m00 && c2 == 1)
    ||| (c1 == a.m10 * a.m21 - a.m20 * a.m11 && c2 == 1)
    ||| (c1 == a.m01 * a.m20 - a.m21 * a.m00 && c2 == 1)
    ||| (c1 == a.m00 * a.m11 - a.m10 * a.m01 && c2 == 1)
}

/// The affine inverse, entry by entry.
pub open spec fn mat_invert(a: Matrix34) -> Matrix34 {
    let d = mat_det3(a);
    let b00 = inv_entry(a.m11 * a.m22 - a.m12 * a.m21, 1, d);
    let b01 = inv_entry(a.m02 * a.m21 - a.m22 * a.m01, 1, d);
    let b02 = inv_entry(a.m01 * a.m12 - a.m11 * a.m02, 1, d);
    let b10 = inv_entry(a.m12 * a.m20 - a.m22 * a.m10, 1, d);
    let b11 = inv_entry(a.m00 * a.m22 - a.m20 * a.m02, 1, d);
    let b12 = inv_entry(a.m02 * a.m10 - a.m12 * a.m00, 1, d);
    let b20 = inv_entry(a.m10 * a.m21 - a.m20 * a.m11, 1, d);
    let b21 = inv_entry(a.m01 * a.m20 - a.m21 * a.m00, 1, d);
    let b22 = inv_entry(a.m00 * a.m11 - a.m10 * a.m01, 1, d);
    Matrix34 {
        m00: b00 as i64,
        m01: b01 as i64,
        m02: b02 as i64,
        m03: (-mat_entry(b00, b01, b02, a.m03 as int, a.m13 as int, a.m23 as int)) as i64,
        m10: b10 as i64,
        m11: b11 as i64,
        m12: b12 as i64,
        m13: (-mat_entry(b10, b11, b12, a.m03 as int, a.m13 as int, a.m23 as int)) as i64,
        m20: b20 as i64,
        m21: b21 as i64,
        m22: b22 as i64,
        m23: (-mat_entry(b20, b21, b22, a.m03 as int, a.m13 as int, a.m23 as int)) as i64,
    }
}

/// The determinant terms fit the machine words.
proof fn lemma_det_fits(a: Matrix34)
    requires
        mat_wf(a),
    ensures
        iabs(mat_det3(a)) <= 48_000_000_000_000_000_000_000_000,
        iabs(a.m11 * a.m22) <= 40_000_000_000_000_000,
        iabs(tdiv(mat_det3(a), SCALE * SCALE)) <= 480_000_000_000_000_000,
{
    lemma_det_terms(a.m00 as int, a.m11 as int, a.m22 as int);
    lemma_det_terms(a.m01 as int, a.m12 as int, a.m20 as int);
    lemma_det_terms(a.m02 as int, a.m10 as int, a.m21 as int);
    lemma_det_terms(a.m00 as int, a.m12 as int, a.m21 as int);
    lemma_det_terms(a.m01 as int, a.m10 as int, a.m22 as int);
    lemma_det_terms(a.m02 as int, a.m11 as int, a.m20 as int);
    assert(SCALE * SCALE >= 1) by (nonlinear_arith);
    assert(48_000_000_000_000_000_000_000_000int < (480_000_000_000_000_000int + 1) * (SCALE
        * SCALE)) by (nonlinear_arith);
    lemma_tdiv_abs_le(mat_det3(a), SCALE * SCALE, 480_000_000_000_000_000);
    lemma_mul_bound(a.m11 as int, a.m22 as int, MAT_MAX as int, MAT_MAX as int);
    assert(MAT_MAX * MAT_MAX == 40_000_000_000_000_000) by (nonlinear_arith);
}

/// One determinant term fits.
proof fn lemma_det_terms(x: int, y: int, z: int)
    requires
        iabs(x) <= MAT_MAX,
        iabs(y) <= MAT_MAX,
        iabs(z) <= MAT_MAX,
    ensures
        iabs(x * y * z) <= 8_000_000_000_000_000_000_000_000,
        iabs(x * y) <= 40_000_000_000_000_000,
        iabs(y * z) <= 40_000_000_000_000_000,
    decreases 0int,
{
    lemma_mul_bound(x, y, MAT_MAX as int, MAT_MAX as int);
    lemma_mul_bound(y, z, MAT_MAX as int, MAT_MAX as int);
    assert(MAT_MAX * MAT_MAX == 40_000_000_000_000_000) by (nonlinear_arith);
    lemma_mul_bound(x * y, z, 40_000_000_000_000_000, MAT_MAX as int);
    assert(40_000_000_000_000_000i128 * MAT_MAX == 8_000_000_000_000_000_000_000_000i128)
        by (nonlinear_arith);
}

/// The cofactor products of the inverse fit the machine words.
proof fn lemma_invert_fits(a: Matrix34)
    requires
        mat_wf(a),
    ensures
        iabs((a.m11 * a.m22 - a.m12 * a.m21) * SCALE * SCALE) <= 8_000_000_000_000_000_000_000_000,
        iabs((a.m02 * a.m21 - a.m22 * a.m01) * SCALE * SCALE) <= 8_000_000_000_000_000_000_000_000,
        iabs((a.m01 * a.m12 - a.m11 * a.m02) * SCALE * SCALE) <= 8_000_000_000_000_000_000_000_000,
        iabs((a.m12 * a.m20 - a.m22 * a.m10) * SCALE * SCALE) <= 8_000_000_000_000_000_000_000_000,
        iabs((a.m00 * a.m22 - a.m20 * a.m02) * SCALE * SCALE) <= 8_000_000_000_000_000_000_000_000,
        iabs((a.m02 * a.m10 - a.m12 * a.m00) * SCALE * SCALE) <= 8_000_000_000_000_000_000_000_000,
        iabs((a.m10 * a.m21 - a.m20 * a.m11) * SCALE * SCALE) <= 8_000_000_000_000_000_000_000_000,
        iabs((a.m01 * a.m20 - a.m21 * a.m00) * SCALE * SCALE) <= 8_000_000_000_000_000_000_000_000,
        iabs((a.m00 * a.m11 - a.m10 * a.m01) * SCALE * SCALE) <= 8_000_000_000_000_000_000_000_000,
{
    lemma_cof_fits(a.m11 as int, a.m22 as int, a.m12 as int, a.m21 as int);
    lemma_cof_fits(a.m02 as int, a.m21 as int, a.m22 as int, a.m01 as int);
    lemma_cof_fits(a.m01 as int, a.m12 as int, a.m11 as int, a.m02 as int);
    lemma_cof_fits(a.m12 as int, a.m20 as int, a.m22 as int, a.m10 as int);
    lemma_cof_fits(a.m00 as int, a.m22 as int, a.m20 as int, a.m02 as int);
    lemma_cof_fits(a.m02 as int, a.m10 as int, a.m12 as int, a.m00 as int);
    lemma_cof_fits(a.m10 as int, a.m21 as int, a.m20 as int, a.m11 as int);
    lemma_cof_fits(a.m01 as int, a.m20 as int, a.m21 as int, a.m00 as int);
    lemma_cof_fits(a.m00 as int, a.m11 as int, a.m10 as int, a.m01 as int);
}

/// One cofactor product fits.
proof fn lemma_cof_fits(p: int, q: int, r: int, s: int)
    requires
        iabs(p) <= MAT_MAX,
        iabs(q) <= MAT_MAX,
        iabs(r) <= MAT_MAX,
        iabs(s) <= MAT_MAX,
    ensures
        iabs((p * q - r * s) * SCALE * SCALE) <= 8_000_000_000_000_000_000_000_000,
{
    lemma_mul_bound(p, q, MAT_MAX as int, MAT_MAX as int);
    lemma_mul_bound(r, s, MAT_MAX as int, MAT_MAX as int);
    assert(MAT_MAX * MAT_MAX == 40_000_000_000_000_000) by (nonlinear_arith);
    lemma_mul_bound(p * q - r * s, SCALE as int, 80_000_000_000_000_000, SCALE as int);
    assert(80_000_000_000_000_000i128 * SCALE == 800_000_000_000_000_000_000i128)
        by (nonlinear_arith);
    lemma_mul_bound((p * q - r * s) * SCALE, SCALE as int, 800_000_000_000_000_000_000,
        SCALE as int);
    assert(800_000_000_000_000_000_000i128 * SCALE == 8_000_000_000_000_000_000_000_000i128)
        by (nonlinear_arith);
}

/// Computes the unrescaled determinant.
fn det3_exec(a: &Matrix34) -> (r: i128)
    requires
        mat_wf(*a),
    ensures
        r == mat_det3(*a),
{
    proof {
        lemma_det_fits(*a);
        lemma_det_terms(a.m00 as int, a.m11 as int, a.m22 as int);
        lemma_det_terms(a.m01 as int, a.m12 as int, a.m20 as int);
        lemma_det_terms(a.m02 as int, a.m10 as int, a.m21 as int);
        lemma_det_terms(a.m00 as int, a.m12 as int, a.m21 as int);
        lemma_det_terms(a.m01 as int, a.m10 as int, a.m22 as int);
        lemma_det_terms(a.m02 as int, a.m11 as int, a.m20 as int);
    }
    (a.m00 as i128) * (a.m11 as i128) * (a.m22 as i128) + (a.m01 as i128) * (a.m12 as i128) * (
    a.m20 as i128) + (a.m02 as i128) * (a.m10 as i128) * (a.m21 as i128) - (a.m00 as i128) * (
    a.m12 as i128) * (a.m21 as i128) - (a.m01 as i128) * (a.m10 as i128) * (a.m22 as i128) - (
    a.m02 as i128) * (a.m11 as i128) * (a.m20 as i128)
}

/// Computes one inverse entry from its cofactor `p * q - r * s`.
fn inv_entry_exec(p: i64, q: i64, r: i64, s: i64, d: i128) -> (res: i64)
    requires
        iabs(p as int) <= MAT_MAX,
        iabs(q as int) <= MAT_MAX,
        iabs(r as int) <= MAT_MAX,
        iabs(s as int) <= MAT_MAX,
        d != 0,
        iabs(d as int) <= 48_000_000_000_000_000_000_000_000,
        iabs(tdiv(((p * q - r * s) * 1) * SCALE * SCALE, d as int)) <= MAT_MAX,
    ensures
        res == inv_entry(p * q - r * s, 1, d as int),
        iabs(res as int) <= MAT_MAX,
{
    proof {
        lemma_cof_fits(p as int, q as int, r as int, s as int);
        lemma_mul_bound(p as int, q as int, MAT_MAX as int, MAT_MAX as int);
        lemma_mul_bound(r as int, s as int, MAT_MAX as int, MAT_MAX as int);
        assert(MAT_MAX * MAT_MAX == 40_000_000_000_000_000) by (nonlinear_arith);
        assert(((p * q - r * s) * 1) == (p * q - r * s)) by (nonlinear_arith);
    }
    let cof: i128 = (p as i128) * (q as i128) - (r as i128) * (s as i128);
    let num: i128 = cof * (SCALE as i128) * (SCALE as i128);
    crate::fixed::tdiv128(num, d) as i64
}

} // verus!

verus! {

/// A product with the scale divides out exactly.
proof fn lemma_exact_div(x: int)
    ensures
        tdiv(SCALE * x, SCALE as int) == x,
        tdiv(x * SCALE, SCALE as int) == x,
        tdiv(0, SCALE as int) == 0,
{
    assert(SCALE * x == x * SCALE) by (nonlinear_arith);
    if x >= 0 {
        assert((x * SCALE) / (SCALE as int) == x) by (nonlinear_arith)
            requires
                x >= 0,
                SCALE >= 1,
        ;
    } else {
        assert(((-x) * SCALE) / (SCALE as int) == -x) by (nonlinear_arith)
            requires
                -x >= 0,
                SCALE >= 1,
        ;
        assert(iabs(x * SCALE) == (-x) * SCALE) by (nonlinear_arith)
            requires
                x < 0,
                SCALE >= 1,
        ;
    }
}

/// The identity matrix is the neutral element of composition: on the
/// fixed-point grid the products with the scale divide out exactly, so
/// the equality is exact, not approximate.
/// Entries of a product against an identity row or column divide out
/// exactly.
proof fn lemma_id_entry(x: int, y: int, z: int)
    ensures
        mat_entry(SCALE as int, 0, 0, x, y, z) == x,
        mat_entry(0, SCALE as int, 0, x, y, z) == y,
        mat_entry(0, 0, SCALE as int, x, y, z) == z,
        mat_entry(x, y, z, SCALE as int, 0, 0) == x,
        mat_entry(x, y, z, 0, SCALE as int, 0) == y,
        mat_entry(x, y, z, 0, 0, SCALE as int) == z,
        mat_entry(x, y, z, 0, 0, 0) == 0,
{
    assert(SCALE * x + 0 * y + 0 * z == SCALE * x) by (nonlinear_arith);
    assert(0 * x + SCALE * y + 0 * z == SCALE * y) by (nonlinear_arith);
    assert(0 * x + 0 * y + SCALE * z == SCALE * z) by (nonlinear_arith);
    assert(x * SCALE + y * 0 + z * 0 == x * SCALE) by (nonlinear_arith);
    assert(x * 0 + y * SCALE + z * 0 == y * SCALE) by (nonlinear_arith);
    assert(x * 0 + y * 0 + z * SCALE == z * SCALE) by (nonlinear_arith);
    assert(x * 0 + y * 0 + z * 0 == 0) by (nonlinear_arith);
    lemma_exact_div(x);
    lemma_exact_div(y);
    lemma_exact_div(z);
}

/// The identity matrix is the neutral element of composition: on the
/// fixed-point grid the products with the scale divide out exactly, so
/// the equality is exact, not approximate.
#[verifier::rlimit(100)]
pub proof fn lemma_identity_neutral(a: Matrix34)
    requires
        mat_wf(a),
    ensures
        mat_mul(mat_identity(), a) == a,
        mat_mul(a, mat_identity()) == a,
{
    lemma_id_entry(a.m00 as int, a.m01 as int, a.m02 as int);
    lemma_id_entry(a.m10 as int, a.m11 as int, a.m12 as int);
    lemma_id_entry(a.m20 as int, a.m21 as int, a.m22 as int);
    lemma_id_entry(a.m00 as int, a.m10 as int, a.m20 as int);
    lemma_id_entry(a.m01 as int, a.m11 as int, a.m21 as int);
    lemma_id_entry(a.m02 as int, a.m12 as int, a.m22 as int);
    lemma_id_entry(a.m03 as int, a.m13 as int, a.m23 as int);
    assert(mat_mul(mat_identity(), a) == a);
    assert(mat_mul(a, mat_identity()) == a);
}

/// Inverting a translation negates it, exactly.
pub proof fn lemma_translate_invert(v: Vec3M)
    requires
        in_range(v),
    ensures
        mat_invert(
            Matrix34 {
                m00: SCALE,
                m01: 0,
                m02: 0,
                m03: v.x,
                m10: 0,
                m11: SCALE,
                m12: 0,
                m13: v.y,
                m20: 0,
                m21: 0,
                m22: SCALE,
                m23: v.z,
            },
        ) == (Matrix34 {
            m00: SCALE,
            m01: 0,
            m02: 0,
            m03: (-v.x) as i64,
            m10: 0,
            m11: SCALE,
            m12: 0,
            m13: (-v.y) as i64,
            m20: 0,
            m21: 0,
            m22: SCALE,
            m23: (-v.z) as i64,
        }),
{
    let t = Matrix34 {
        m00: SCALE,
        m01: 0,
        m02: 0,
        m03: v.x,
        m10: 0,
        m11: SCALE,
        m12: 0,
        m13: v.y,
        m20: 0,
        m21: 0,
        m22: SCALE,
        m23: v.z,
    };
    let d = mat_det3(t);
    assert((SCALE as int) * SCALE * SCALE == 1_000_000_000_000) by (nonlinear_arith);
    assert((SCALE as int) * SCALE == 100_000_000) by (nonlinear_arith);
    assert(d == 1_000_000_000_000);
    assert(100_000_000int * 1 * SCALE * SCALE == 10_000_000_000_000_000) by (nonlinear_arith);
    assert(0int * 1 * SCALE * SCALE == 0) by (nonlinear_arith);
    assert(10_000_000_000_000_000int / 1_000_000_000_000int == 10_000int) by (nonlinear_arith);
    assert(0int / 1_000_000_000_000int == 0int) by (nonlinear_arith);
    assert(tdiv(10_000_000_000_000_000, 1_000_000_000_000) == SCALE);
    assert(tdiv(0, 1_000_000_000_000) == 0);
    assert(inv_entry(100_000_000, 1, 1_000_000_000_000) == SCALE);
    assert(inv_entry(0, 1, 1_000_000_000_000) == 0);
    assert(t.m11 * t.m22 - t.m12 * t.m21 == 100_000_000);
    assert(t.m02 * t.m21 - t.m22 * t.m01 == 0);
    assert(t.m01 * t.m12 - t.m11 * t.m02 == 0);
    assert(t.m12 * t.m20 - t.m22 * t.m10 == 0);
    assert(t.m00 * t.m22 - t.m20 * t.m02 == 100_000_000);
    assert(t.m02 * t.m10 - t.m12 * t.m00 == 0);
    assert(t.m10 * t.m21 - t.m20 * t.m11 == 0);
    assert(t.m01 * t.m20 - t.m21 * t.m00 == 0);
    assert(t.m00 * t.m11 - t.m10 * t.m01 == 100_000_000);
    lemma_exact_div(v.x as int);
    lemma_exact_div(v.y as int);
    lemma_exact_div(v.z as int);
    assert(mat_entry(SCALE as int, 0, 0, v.x as int, v.y as int, v.z as int) == v.x as int);
    assert(mat_entry(0, SCALE as int, 0, v.x as int, v.y as int, v.z as int) == v.y as int);
    assert(mat_entry(0, 0, SCALE as int, v.x as int, v.y as int, v.z as int) == v.z as int);
}

} // verus!

verus! {

/// Rounding division misses the exact quotient by at most half the
/// divisor.
proof fn lemma_rdiv_err(a: int, m: int)
    requires
        m >= 1,
    ensures
        iabs(2 * (a - rdiv(a, m) * m)) <= m,
{
    if a >= 0 {
        let q = (2 * a + m) / (2 * m);
        assert(0 <= (2 * a + m) % (2 * m) < 2 * m) by (nonlinear_arith)
            requires
                m >= 1,
                a >= 0,
        ;
        assert(2 * a + m == 2 * m * ((2 * a + m) / (2 * m)) + (2 * a + m) % (2 * m))
            by (nonlinear_arith)
            requires
                m >= 1,
        ;
        assert(q >= 0) by (nonlinear_arith)
            requires
                m >= 1,
                a >= 0,
                q == (2 * a + m) / (2 * m),
        ;
        assert(rdiv(a, m) == q);
        assert(2 * (a - q * m) == (2 * a + m) % (2 * m) - m) by (nonlinear_arith)
            requires
                2 * a + m == 2 * m * q + (2 * a + m) % (2 * m),
        ;
    } else {
        let b = -a;
        let q = (2 * b + m) / (2 * m);
        assert(0 <= (2 * b + m) % (2 * m) < 2 * m) by (nonlinear_arith)
            requires
                m >= 1,
                b >= 0,
        ;
        assert(2 * b + m == 2 * m * ((2 * b + m) / (2 * m)) + (2 * b + m) % (2 * m))
            by (nonlinear_arith)
            requires
                m >= 1,
        ;
        assert(q >= 0) by (nonlinear_arith)
            requires
                m >= 1,
                b >= 0,
                q == (2 * b + m) / (2 * m),
        ;
        assert(iabs(2 * a - m) == 2 * b + m);
        assert(rdiv(a, m) == -q);
        assert(2 * (b - q * m) == (2 * b + m) % (2 * m) - m) by (nonlinear_arith)
            requires
                2 * b + m == 2 * m * q + (2 * b + m) % (2 * m),
        ;
        assert(2 * (a - (-q) * m) == -(2 * (b - q * m))) by (nonlinear_arith)
            requires
                a == -b,
        ;
    }
}

/// The rounded component is no longer than one unit over the scale.
proof fn lemma_norm_comp_bound(c: int, m: int, w: int)
    requires
        m >= 1,
        iabs(c) * (NORM_PREC as int) <= m,
        w == normalize_c(c, m),
    ensures
        iabs(w) <= SCALE + 1,
{
    lemma_rdiv_err(c * SCALE * NORM_PREC, m);
    let e = c * SCALE * NORM_PREC - w * m;
    assert(iabs(c * SCALE * NORM_PREC) <= SCALE * m) by (nonlinear_arith)
        requires
            iabs(c) * (NORM_PREC as int) <= m,
            m >= 1,
            SCALE >= 1,
    ;
    assert(iabs(w) * m <= iabs(c * SCALE * NORM_PREC) + iabs(e)) by (nonlinear_arith)
        requires
            e == c * SCALE * NORM_PREC - w * m,
            m >= 1,
    ;
    assert(iabs(w) <= SCALE + 1) by (nonlinear_arith)
        requires
            iabs(w) * m <= SCALE * m + iabs(e),
            2 * iabs(e) <= m,
            m >= 1,
    ;
}

/// One component of the rounded vector, squared and expanded.
#[verifier::rlimit(100)]
proof fn lemma_comp_expand(xv: int, sf: int, w: int, m: int, e: int)
    requires
        e == xv * sf - w * m,
    ensures
        m * m * (w * w) == (xv * xv) * (sf * sf) - 2 * sf * (xv * e) + e * e,
{
    assert(w * m == xv * sf - e);
    assert((w * m) * (w * m) == m * m * (w * w)) by (nonlinear_arith);
    assert((xv * sf - e) * (xv * sf - e) == (xv * sf) * (xv * sf) - 2 * ((xv * sf) * e) + e * e)
        by (nonlinear_arith);
    assert((xv * sf) * (xv * sf) == (xv * xv) * (sf * sf)) by (nonlinear_arith);
    assert((xv * sf) * e == sf * (xv * e)) by (nonlinear_arith);
    assert(2 * sf * (xv * e) == 2 * (sf * (xv * e))) by (nonlinear_arith);
    assert((w * m) * (w * m) == (xv * sf - e) * (xv * sf - e));
}

/// The norm of the rounded scaled vector stays within the unit
/// tolerance: the error of the upscaled square root and the three
/// component roundings together stay under two grid units.
pub proof fn lemma_normalize_in_tolerance(v: Vec3M)
    requires
        iabs(v.x as int) <= NORM_IN_MAX,
        iabs(v.y as int) <= NORM_IN_MAX,
        iabs(v.z as int) <= NORM_IN_MAX,
        !(v.x == 0 && v.y == 0 && v.z == 0),
    ensures
        is_unit(normalize_vec(v)),
{
    let n2 = sdot(v, v);
    let kk = NORM_PREC as int;
    let s = SCALE as int;
    crate::fixed::lemma_square(v.x as int);
    crate::fixed::lemma_square(v.y as int);
    crate::fixed::lemma_square(v.z as int);
    assert(n2 >= 1);
    let m = normalize_m(v);
    crate::fixed::lemma_sqrt_floor((n2 * kk * kk) as nat);
    assert(m * m <= n2 * kk * kk < (m + 1) * (m + 1));
    assert(m >= kk) by (nonlinear_arith)
        requires
            n2 >= 1,
            m >= 0,
            n2 * kk * kk < (m + 1) * (m + 1),
            m * m <= n2 * kk * kk,
            kk == 131072,
    ;
    // Each |component| * K stays below the scaled root.
    assert forall|c: int| c * c <= n2 implies iabs(c) * kk <= m by {
        assert((iabs(c) * kk) * (iabs(c) * kk) <= n2 * kk * kk) by (nonlinear_arith)
            requires
                c * c <= n2,
                kk >= 1,
        ;
        assert(iabs(c) * kk <= m) by (nonlinear_arith)
            requires
                (iabs(c) * kk) * (iabs(c) * kk) < (m + 1) * (m + 1),
                iabs(c) * kk >= 0,
                m >= 0,
        ;
    }
    assert((v.x as int) * (v.x as int) <= n2);
    assert((v.y as int) * (v.y as int) <= n2);
    assert((v.z as int) * (v.z as int) <= n2);
    let wx = normalize_c(v.x as int, m);
    let wy = normalize_c(v.y as int, m);
    let wz = normalize_c(v.z as int, m);
    lemma_norm_comp_bound(v.x as int, m, wx);
    lemma_norm_comp_bound(v.y as int, m, wy);
    lemma_norm_comp_bound(v.z as int, m, wz);
    lemma_rdiv_err(v.x as int * s * kk, m);
    lemma_rdiv_err(v.y as int * s * kk, m);
    lemma_rdiv_err(v.z as int * s * kk, m);
    let sf = s * kk;
    assert(v.x as int * s * kk == v.x as int * sf) by (nonlinear_arith)
        requires
            sf == s * kk,
    ;
    assert(v.y as int * s * kk == v.y as int * sf) by (nonlinear_arith)
        requires
            sf == s * kk,
    ;
    assert(v.z as int * s * kk == v.z as int * sf) by (nonlinear_arith)
        requires
            sf == s * kk,
    ;
    let ex = v.x as int * sf - wx * m;
    let ey = v.y as int * sf - wy * m;
    let ez = v.z as int * sf - wz * m;
    // The exact expansion of the squared norm of the rounded vector.
    let ww = wx * wx + wy * wy + wz * wz;
    let tt = v.x as int * ex + v.y as int * ey + v.z as int * ez;
    let e2 = ex * ex + ey * ey + ez * ez;
    lemma_comp_expand(v.x as int, sf, wx, m, ex);
    lemma_comp_expand(v.y as int, sf, wy, m, ey);
    lemma_comp_expand(v.z as int, sf, wz, m, ez);
    assert(m * m * ww == m * m * (wx * wx) + m * m * (wy * wy) + m * m * (wz * wz))
        by (nonlinear_arith)
        requires
            ww == wx * wx + wy * wy + wz * wz,
    ;
    assert(n2 * (sf * sf) == (v.x as int * v.x as int) * (sf * sf) + (v.y as int * v.y as int) * (
    sf * sf) + (v.z as int * v.z as int) * (sf * sf)) by (nonlinear_arith)
        requires
            n2 == v.x as int * v.x as int + v.y as int * v.y as int + v.z as int * v.z as int,
    ;
    assert(2 * sf * tt == 2 * sf * (v.x as int * ex) + 2 * sf * (v.y as int * ey) + 2 * sf * (
    v.z as int * ez)) by (nonlinear_arith)
        requires
            tt == v.x as int * ex + v.y as int * ey + v.z as int * ez,
    ;
    assert(m * m * ww == n2 * (sf * sf) - 2 * sf * tt + e2);
    let rho = n2 * kk * kk - m * m;
    assert(0 <= rho <= 2 * m) by (nonlinear_arith)
        requires
            rho == n2 * kk * kk - m * m,
            m * m <= n2 * kk * kk,
            n2 * kk * kk < (m + 1) * (m + 1),
    ;
    // The sum of magnitudes against the sum of squares.
    let px = iabs(v.x as int);
    let py = iabs(v.y as int);
    let pz = iabs(v.z as int);
    let pp = px + py + pz;
    assert(pp * pp <= 3 * n2) by (nonlinear_arith)
        requires
            px == iabs(v.x as int),
            py == iabs(v.y as int),
            pz == iabs(v.z as int),
            pp == px + py + pz,
            n2 == v.x as int * v.x as int + v.y as int * v.y as int + v.z as int * v.z as int,
    ;
    let dd = px * iabs(ex) + py * iabs(ey) + pz * iabs(ez);
    assert(iabs(tt) <= dd) by (nonlinear_arith)
        requires
            tt == v.x as int * ex + v.y as int * ey + v.z as int * ez,
            dd == iabs(v.x as int) * iabs(ex) + iabs(v.y as int) * iabs(ey) + iabs(v.z as int)
                * iabs(ez),
            px == iabs(v.x as int),
            py == iabs(v.y as int),
            pz == iabs(v.z as int),
    ;
    assert(2 * iabs(ex) <= m && 2 * iabs(ey) <= m && 2 * iabs(ez) <= m) by (nonlinear_arith)
        requires
            ex == v.x as int * sf - wx * m,
            ey == v.y as int * sf - wy * m,
            ez == v.z as int * sf - wz * m,
            sf == s * kk,
            iabs(2 * (v.x as int * s * kk - rdiv(v.x as int * s * kk, m) * m)) <= m,
            iabs(2 * (v.y as int * s * kk - rdiv(v.y as int * s * kk, m) * m)) <= m,
            iabs(2 * (v.z as int * s * kk - rdiv(v.z as int * s * kk, m) * m)) <= m,
            wx == rdiv(v.x as int * s * kk, m),
            wy == rdiv(v.y as int * s * kk, m),
            wz == rdiv(v.z as int * s * kk, m),
    ;
    assert(2 * dd <= pp * m) by (nonlinear_arith)
        requires
            dd == px * iabs(ex) + py * iabs(ey) + pz * iabs(ez),
            pp == px + py + pz,
            2 * iabs(ex) <= m,
            2 * iabs(ey) <= m,
            2 * iabs(ez) <= m,
            px >= 0,
            py >= 0,
            pz >= 0,
    ;
    assert(pp * pp * (kk * kk) <= 3 * ((m + 1) * (m + 1))) by (nonlinear_arith)
        requires
            pp * pp <= 3 * n2,
            n2 * kk * kk < (m + 1) * (m + 1),
            kk >= 1,
            pp >= 0,
            n2 >= 0,
    ;
    // The cross term, bounded through its square.
    let xx = 2 * sf * dd;
    assert(xx * xx <= 3 * s * s * ((m + 1) * (m + 1)) * (m * m)) by (nonlinear_arith)
        requires
            xx == 2 * sf * dd,
            sf == s * kk,
            2 * dd <= pp * m,
            pp * pp * (kk * kk) <= 3 * ((m + 1) * (m + 1)),
            dd >= 0,
            pp >= 0,
            m >= 1,
            s >= 1,
            kk >= 1,
    ;
    assert(xx <= 17321 * ((m + 1) * (m + 1))) by (nonlinear_arith)
        requires
            xx * xx <= 3 * s * s * ((m + 1) * (m + 1)) * (m * m),
            xx >= 0,
            m >= 1,
            s == 10000,
    ;
    // The accumulated rounding squares.
    assert(4 * e2 <= 3 * (m * m) && e2 >= 0) by (nonlinear_arith)
        requires
            e2 == ex * ex + ey * ey + ez * ez,
            2 * iabs(ex) <= m,
            2 * iabs(ey) <= m,
            2 * iabs(ez) <= m,
    ;
    // Putting the pieces together below the tolerance.
    assert(n2 * (sf * sf) - s * s * (m * m) == s * s * rho) by (nonlinear_arith)
        requires
            sf == s * kk,
            rho == n2 * kk * kk - m * m,
    ;
    assert(iabs(m * m * ww - s * s * (m * m)) <= rho * (s * s) + xx + e2) by (nonlinear_arith)
        requires
            m * m * ww == n2 * (sf * sf) - 2 * sf * tt + e2,
            n2 * (sf * sf) - s * s * (m * m) == s * s * rho,
            iabs(tt) <= dd,
            xx == 2 * sf * dd,
            e2 >= 0,
            sf >= 1,
            rho >= 0,
    ;
    assert(rho * (s * s) + xx + e2 <= 2 * s * (m * m)) by (nonlinear_arith)
        requires
            rho <= 2 * m,
            rho >= 0,
            xx <= 17321 * ((m + 1) * (m + 1)),
            xx >= 0,
            4 * e2 <= 3 * (m * m),
            e2 >= 0,
            m >= 131072,
            s == 10000,
    ;
    assert(iabs(ww - s * s) <= 2 * s) by (nonlinear_arith)
        requires
            iabs(m * m * ww - s * s * (m * m)) <= 2 * s * (m * m),
            m >= 1,
    ;
    assert(normalize_vec(v).x == wx);
    assert(normalize_vec(v).y == wy);
    assert(normalize_vec(v).z == wz);
    assert(sdot(normalize_vec(v), normalize_vec(v)) == ww);
}

/// For any nonzero vector, `normalize` returns the rounded scaled
/// vector itself, and its norm stays within `EPS` of one.
pub proof fn lemma_normalize_exact(v: Vec3M)
    requires
        iabs(v.x as int) <= NORM_IN_MAX,
        iabs(v.y as int) <= NORM_IN_MAX,
        iabs(v.z as int) <= NORM_IN_MAX,
        !(v.x == 0 && v.y == 0 && v.z == 0),
    ensures
        normalize_res(v) == normalize_vec(v),
        is_unit(normalize_res(v)),
{
    lemma_normalize_in_tolerance(v);
}

} // verus!

verus! {

impl Vec3M {
    /// Compares vectors up to the `EPS` tolerance, to absorb rounding.
    /// Note that this relation is not transitive, but it is still very
    /// useful where that property is not needed.
    pub fn appr_eq(&self, v: &Vec3M) -> (r: bool)
        requires
            iabs(self.x as int) <= NORM_IN_MAX,
            iabs(self.y as int) <= NORM_IN_MAX,
            iabs(self.z as int) <= NORM_IN_MAX,
            iabs(v.x as int) <= NORM_IN_MAX,
            iabs(v.y as int) <= NORM_IN_MAX,
            iabs(v.z as int) <= NORM_IN_MAX,
        ensures
            r == (iabs(self.x - v.x) <= EPS_FX && iabs(self.y - v.y) <= EPS_FX && iabs(self.z
                - v.z) <= EPS_FX),
    {
        appr(self.x, v.x) && appr(self.y, v.y) && appr(self.z, v.z)
    }

    /// Orders vectors up to the `EPS` tolerance: equal when every
    /// coordinate is, below or above when every coordinate leans the
    /// same way, and unordered otherwise.  Like `appr_eq` this relation
    /// is not transitive.
    pub fn appr_cmp(&self, v: &Vec3M) -> (r: Option<core::cmp::Ordering>)
        requires
            iabs(self.x as int) <= NORM_IN_MAX,
            iabs(self.y as int) <= NORM_IN_MAX,
            iabs(self.z as int) <= NORM_IN_MAX,
            iabs(v.x as int) <= NORM_IN_MAX,
            iabs(v.y as int) <= NORM_IN_MAX,
            iabs(v.z as int) <= NORM_IN_MAX,
        ensures
            r == Some(core::cmp::Ordering::Equal) <==> iabs(self.x - v.x) <= EPS_FX && iabs(
                self.y - v.y,
            ) <= EPS_FX && iabs(self.z - v.z) <= EPS_FX,
            r == Some(core::cmp::Ordering::Less) ==> self.x - v.x < -EPS_FX || self.y - v.y
                < -EPS_FX || self.z - v.z < -EPS_FX,
            r == Some(core::cmp::Ordering::Greater) ==> self.x - v.x > EPS_FX || self.y - v.y
                > EPS_FX || self.z - v.z > EPS_FX,
    {
        let cx: core::cmp::Ordering = appr_cmp(self.x, v.x);
        let cy: core::cmp::Ordering = appr_cmp(self.y, v.y);
        let cz: core::cmp::Ordering = appr_cmp(self.z, v.z);
        if matches!(cx, core::cmp::Ordering::Equal) && matches!(cy, core::cmp::Ordering::Equal)
            && matches!(cz, core::cmp::Ordering::Equal) {
            Some(core::cmp::Ordering::Equal)
        } else if !matches!(cx, core::cmp::Ordering::Greater) && !matches!(
            cy,
            core::cmp::Ordering::Greater,
        ) && !matches!(cz, core::cmp::Ordering::Greater) {
            Some(core::cmp::Ordering::Less)
        } else if !matches!(cx, core::cmp::Ordering::Less) && !matches!(
            cy,
            core::cmp::Ordering::Less,
        ) && !matches!(cz, core::cmp::Ordering::Less) {
            Some(core::cmp::Ordering::Greater)
        } else {
            None
        }
    }
}

impl Matrix34 {
    /// Compares matrices entry by entry up to the `EPS` tolerance.
    pub fn appr_eq(&self, b: &Matrix34) -> (r: bool)
        requires
            mat_wf(*self),
            mat_wf(*b),
        ensures
            r == (iabs(self.m00 - b.m00) <= EPS_FX && iabs(self.m01 - b.m01) <= EPS_FX && iabs(
                self.m02 - b.m02,
            ) <= EPS_FX && iabs(self.m03 - b.m03) <= EPS_FX && iabs(self.m10 - b.m10) <= EPS_FX
                && iabs(self.m11 - b.m11) <= EPS_FX && iabs(self.m12 - b.m12) <= EPS_FX && iabs(
                self.m13 - b.m13,
            ) <= EPS_FX && iabs(self.m20 - b.m20) <= EPS_FX && iabs(self.m21 - b.m21) <= EPS_FX
                && iabs(self.m22 - b.m22) <= EPS_FX && iabs(self.m23 - b.m23) <= EPS_FX),
    {
        appr(self.m00, b.m00) && appr(self.m01, b.m01) && appr(self.m02, b.m02) && appr(
            self.m03,
            b.m03,
        ) && appr(self.m10, b.m10) && appr(self.m11, b.m11) && appr(self.m12, b.m12) && appr(
            self.m13,
            b.m13,
        ) && appr(self.m20, b.m20) && appr(self.m21, b.m21) && appr(self.m22, b.m22) && appr(
            self.m23,
            b.m23,
        )
    }
}

} // verus!
