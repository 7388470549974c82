use vstd::prelude::*;

verus! {

/// Every scalar quantity in this crate is a fixed-point number: an integer
/// counted in units of `1/SCALE`.  With `SCALE = 10000` the comparison
/// tolerance `EPS` of one unit is exactly `0.0001`.
pub const SCALE: i64 = 10000;

/// The smallest accepted hit distance, in fixed-point units (`0.0001`).
/// Rays ignore intersections at or below this distance so that a surface
/// cannot re-intersect itself at its own origin point.
pub const EPS_FX: i64 = 1;

/// Sentinel upper bound standing for "no bound" (one million world units,
/// far beyond any point allowed by `COORD_MAX`).
pub const T_MAX: i64 = 10_000_000_000;

/// Magnitude bound on the fixed-point coordinates of scene geometry
/// (ten thousand world units).  Keeping the world inside this cube keeps
/// every intermediate product of the intersection formulas inside `i128`.
pub const COORD_MAX: i64 = 100_000_000;

/// Magnitude bound on vectors handed to `normalize` (generous enough for
/// any cross product of in-range edge vectors).
pub const NORM_IN_MAX: i64 = 10_000_000_000_000;

/// Internal upscaling factor used by `normalize` for a square root with
/// more precision than the fixed-point grid.
pub const NORM_PREC: i64 = 131072;

/// Rounding division: the rational `a / b` (for `b > 0`) rounded to the
/// nearest integer, halves away from zero.
pub open spec fn rdiv(a: int, b: int) -> int {
    if a >= 0 {
        tdiv(2 * a + b, 2 * b)
    } else {
        tdiv(2 * a - b, 2 * b)
    }
}

/// Absolute value of an integer.
pub open spec fn iabs(a: int) -> int {
    if a < 0 { -a } else { a }
}

/// Division truncating toward zero, the behaviour of machine division on
/// signed integers.  (The `/` of spec code is Euclidean division.)
pub open spec fn tdiv(a: int, b: int) -> int {
    if (a < 0) == (b < 0) {
        iabs(a) / iabs(b)
    } else {
        -(iabs(a) / iabs(b))
    }
}

/// `n1/d1 <= n2/d2`, for positive denominators, by cross multiplication.
pub open spec fn rat_le(n1: int, d1: int, n2: int, d2: int) -> bool {
    n1 * d2 <= n2 * d1
}

pub proof fn lemma_rat_le_trans(n1: int, d1: int, n2: int, d2: int, n3: int, d3: int)
    requires
        d1 > 0,
        d2 > 0,
        d3 > 0,
        rat_le(n1, d1, n2, d2),
        rat_le(n2, d2, n3, d3),
    ensures
        rat_le(n1, d1, n3, d3),
{
    assert(n1 * d3 <= n3 * d1) by (nonlinear_arith)
        requires
            d1 > 0,
            d2 > 0,
            d3 > 0,
            n1 * d2 <= n2 * d1,
            n2 * d3 <= n3 * d2,
    ;
}

/// Bounds the magnitude of a product from bounds on its factors.
pub proof fn lemma_mul_bound(a: int, b: int, ba: int, bb: int)
    requires
        -ba <= a <= ba,
        -bb <= b <= bb,
    ensures
        -(ba * bb) <= a * b <= ba * bb,
{
    assert(-(ba * bb) <= a * b <= ba * bb) by (nonlinear_arith)
        requires
            -ba <= a <= ba,
            -bb <= b <= bb,
    ;
}

/// The square root of `n` rounded down, defined by counting up.
pub open spec fn sqrt_floor(n: nat) -> nat
    decreases n,
{
    if n == 0 {
        0
    } else {
        let r = sqrt_floor((n - 1) as nat);
        if (r + 1) * (r + 1) <= n {
            r + 1
        } else {
            r
        }
    }
}

pub proof fn lemma_sqrt_floor(n: nat)
    ensures
        (sqrt_floor(n) as int) * (sqrt_floor(n) as int) <= n as int,
        (n as int) < (sqrt_floor(n) as int + 1) * (sqrt_floor(n) as int + 1),
    decreases n,
{
    if n == 0 {
        assert(sqrt_floor(n) == 0);
    } else {
        lemma_sqrt_floor((n - 1) as nat);
        let r = sqrt_floor((n - 1) as nat);
        if (r + 1) * (r + 1) <= n {
            assert(sqrt_floor(n) == r + 1);
            assert((r + 1) * (r + 1) < (r + 2) * (r + 2)) by (nonlinear_arith)
                requires
                    r >= 0,
            ;
        } else {
            assert(sqrt_floor(n) == r);
        }
    }
}

pub proof fn lemma_sqrt_floor_unique(n: nat, r: nat)
    requires
        (r as int) * (r as int) <= n as int,
        (n as int) < (r as int + 1) * (r as int + 1),
    ensures
        r == sqrt_floor(n),
{
    lemma_sqrt_floor(n);
    let s = sqrt_floor(n);
    if r < s {
        assert((r as int + 1) * (r as int + 1) <= (s as int) * (s as int)) by (nonlinear_arith)
            requires
                r as int + 1 <= s as int,
                r >= 0,
        ;
    } else if s < r {
        assert((s as int + 1) * (s as int + 1) <= (r as int) * (r as int)) by (nonlinear_arith)
            requires
                s as int + 1 <= r as int,
                s >= 0,
        ;
    }
}

/// Integer square root: the exact floor of the real square root.
pub fn isqrt(n: u128) -> (r: u128)
    ensures
        r as nat == sqrt_floor(n as nat),
        r * r <= n,
        n < (r + 1) * (r + 1),
        r <= u64::MAX,
{
    let mut lo: u128 = 0;
    let mut hi: u128 = 0xffff_ffff_ffff_ffff;
    proof {
        assert((hi + 1) * (hi + 1) > u128::MAX) by (nonlinear_arith)
            requires
                hi == 0xffff_ffff_ffff_ffffu128,
        ;
    }
    while lo < hi
        invariant
            lo <= hi,
            hi <= 0xffff_ffff_ffff_ffff,
            (lo as int) * (lo as int) <= n as int,
            (n as int) < (hi as int + 1) * (hi as int + 1),
        decreases hi - lo,
    {
        let mid: u128 = lo + (hi - lo + 1) / 2;
        proof {
            assert(mid * mid <= u128::MAX) by (nonlinear_arith)
                requires
                    mid <= 0xffff_ffff_ffff_ffffu128,
            ;
        }
        if mid * mid <= n {
            lo = mid;
        } else {
            hi = mid - 1;
        }
    }
    proof {
        lemma_sqrt_floor_unique(n as nat, lo as nat);
    }
    lo
}

/// Truncating signed division on machine words, with the exact quotient
/// as its contract.
pub fn tdiv128(a: i128, b: i128) -> (q: i128)
    requires
        b != 0,
        a > i128::MIN,
        b > i128::MIN,
    ensures
        q == tdiv(a as int, b as int),
        iabs(q as int) <= iabs(a as int),
{
    let ua: u128 = if a < 0 {
        (-a) as u128
    } else {
        a as u128
    };
    let ub: u128 = if b < 0 {
        (-b) as u128
    } else {
        b as u128
    };
    let uq: u128 = ua / ub;
    proof {
        assert(ua / ub <= ua) by (nonlinear_arith)
            requires
                ub >= 1,
        ;
    }
    if (a < 0) != (b < 0) {
        -(uq as i128)
    } else {
        uq as i128
    }
}

/// A square is never negative, and is at least one when its root is not zero.
pub proof fn lemma_square(x: int)
    ensures
        x * x >= 0,
        x != 0 ==> x * x >= 1,
{
    assert(x * x >= 0 && (x != 0 ==> x * x >= 1)) by (nonlinear_arith);
}

/// Bounds a truncating quotient: if `|num| < (b + 1) * den` then the
/// quotient's magnitude is at most `b`.
pub proof fn lemma_tdiv_abs_le(num: int, den: int, b: int)
    requires
        den >= 1,
        b >= 0,
        iabs(num) < (b + 1) * den,
    ensures
        iabs(tdiv(num, den)) <= b,
{
    let x = iabs(num);
    assert(x >= 0);
    assert(x / den <= b) by (nonlinear_arith)
        requires
            x >= 0,
            den >= 1,
            b >= 0,
            x < (b + 1) * den,
    ;
}

/// A truncating quotient of nonnegative values is nonnegative and no
/// larger than the numerator.
pub proof fn lemma_tdiv_nonneg(a: int, b: int)
    requires
        a >= 0,
        b >= 1,
    ensures
        0 <= tdiv(a, b) <= a,
{
    assert(0 <= a / b <= a) by (nonlinear_arith)
        requires
            a >= 0,
            b >= 1,
    ;
}

/// Truncating division on 64-bit words.
pub fn tdiv64(a: i64, b: i64) -> (q: i64)
    requires
        b != 0,
        a > i64::MIN,
    ensures
        q == tdiv(a as int, b as int),
        iabs(q as int) <= iabs(a as int),
{
    tdiv128(a as i128, b as i128) as i64
}

/// Rounding division on machine words.
pub fn rdiv128(a: i128, b: i128) -> (q: i128)
    requires
        b >= 1,
        2 * b <= i128::MAX,
        2 * iabs(a as int) + b <= i128::MAX,
    ensures
        q == rdiv(a as int, b as int),
{
    if a >= 0 {
        tdiv128(2 * a + b, 2 * b)
    } else {
        tdiv128(2 * a - b, 2 * b)
    }
}

/// Fixed-point product: `a * b` rescaled, truncating toward zero.
pub open spec fn fmul(a: int, b: int) -> int {
    tdiv(a * b, SCALE as int)
}

/// A product of unit-interval factors stays in the unit interval.
pub proof fn lemma_fmul_unit(a: int, b: int)
    requires
        0 <= a <= SCALE,
        0 <= b <= SCALE,
    ensures
        0 <= fmul(a, b) <= SCALE,
{
    assert(0 <= a * b <= (SCALE as int) * (SCALE as int)) by (nonlinear_arith)
        requires
            0 <= a <= SCALE,
            0 <= b <= SCALE,
    ;
    lemma_tdiv_abs_le(a * b, SCALE as int, SCALE as int);
    assert(iabs(tdiv(a * b, SCALE as int)) == tdiv(a * b, SCALE as int));
}

/// Fixed-point quotient: `a / b` rescaled, truncating toward zero.
pub open spec fn fdiv(a: int, b: int) -> int {
    tdiv(a * SCALE, b)
}

/// Multiplies two fixed-point numbers.
pub fn fx_mul(a: i64, b: i64) -> (r: i64)
    requires
        -i64::MAX <= fmul(a as int, b as int) <= i64::MAX,
    ensures
        r == fmul(a as int, b as int),
{
    proof {
        lemma_mul_bound(a as int, b as int, 0x8000_0000_0000_0000, 0x8000_0000_0000_0000);
    }
    let p: i128 = (a as i128) * (b as i128);
    let q: i128 = tdiv128(p, SCALE as i128);
    q as i64
}

/// Divides two fixed-point numbers.
pub fn fx_div(a: i64, b: i64) -> (r: i64)
    requires
        b != 0,
        -i64::MAX <= fdiv(a as int, b as int) <= i64::MAX,
    ensures
        r == fdiv(a as int, b as int),
{
    proof {
        lemma_mul_bound(a as int, SCALE as int, 0x8000_0000_0000_0000, SCALE as int);
    }
    let p: i128 = (a as i128) * (SCALE as i128);
    let q: i128 = tdiv128(p, b as i128);
    q as i64
}

} // verus!
