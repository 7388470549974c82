use vstd::prelude::*;

use crate::fixed::{
    SCALE, T_MAX, fdiv, fmul, iabs, isqrt, lemma_fmul_unit, lemma_mul_bound, lemma_sqrt_floor,
    lemma_tdiv_abs_le, sqrt_floor, tdiv, tdiv128,
};
use crate::lin_alg::{UnitVec3, Vec3, Vec3M, is_unit, normalize_res, sdot};

verus! {

/// The fixed-point power with a whole exponent: one at exponent zero,
/// then an iterated fixed-point product.
pub open spec fn pow_fx(b: int, e: nat) -> int
    decreases e,
{
    if e == 0 {
        SCALE as int
    } else {
        fmul(pow_fx(b, (e - 1) as nat), b)
    }
}

/// Computes the fixed-point power of a unit-interval base.
pub fn fx_pow(b: i64, e: u32) -> (r: i64)
    requires
        0 <= b <= SCALE,
    ensures
        r == pow_fx(b as int, e as nat),
        0 <= r <= SCALE,
{
    let mut acc: i64 = SCALE;
    let mut k: u32 = 0;
    proof {
        lemma_pow_unit(b as int, 0);
    }
    while k < e
        invariant
            0 <= b <= SCALE,
            k <= e,
            acc == pow_fx(b as int, k as nat),
            0 <= acc <= SCALE,
        decreases e - k,
    {
        proof {
            lemma_fmul_unit(acc as int, b as int);
            lemma_mul_bound(acc as int, b as int, SCALE as int, SCALE as int);
        }
        let p: i128 = (acc as i128) * (b as i128);
        acc = tdiv128(p, SCALE as i128) as i64;
        k = k + 1;
    }
    acc
}

/// The fixed-point power of a unit-interval base stays in the unit
/// interval.
proof fn lemma_pow_unit(b: int, e: nat)
    requires
        0 <= b <= SCALE,
    ensures
        0 <= pow_fx(b, e) <= SCALE,
    decreases e,
{
    if e != 0 {
        lemma_pow_unit(b, (e - 1) as nat);
        lemma_fmul_unit(pow_fx(b, (e - 1) as nat), b);
    }
}

/// The fixed-point dot product of two unit-tolerance vectors, and its
/// magnitude bound.
pub open spec fn udot(a: Vec3M, b: Vec3M) -> int {
    tdiv(sdot(a, b), SCALE as int)
}

/// Bounds the dot product of two vectors whose components stay within
/// twice the unit length.
pub proof fn lemma_udot_bound(a: Vec3M, b: Vec3M)
    requires
        iabs(a.x as int) <= 2 * SCALE,
        iabs(a.y as int) <= 2 * SCALE,
        iabs(a.z as int) <= 2 * SCALE,
        iabs(b.x as int) <= 2 * SCALE,
        iabs(b.y as int) <= 2 * SCALE,
        iabs(b.z as int) <= 2 * SCALE,
    ensures
        iabs(a.x * b.x) <= 4 * SCALE * SCALE,
        iabs(a.y * b.y) <= 4 * SCALE * SCALE,
        iabs(a.z * b.z) <= 4 * SCALE * SCALE,
        iabs(sdot(a, b)) <= 12 * SCALE * SCALE,
        iabs(udot(a, b)) <= 12 * SCALE,
{
    lemma_mul_bound(a.x as int, b.x as int, 2 * SCALE, 2 * SCALE);
    lemma_mul_bound(a.y as int, b.y as int, 2 * SCALE, 2 * SCALE);
    lemma_mul_bound(a.z as int, b.z as int, 2 * SCALE, 2 * SCALE);
    assert(2 * SCALE * (2 * SCALE) == 4 * SCALE * SCALE) by (nonlinear_arith);
    lemma_tdiv_abs_le(sdot(a, b), SCALE as int, 12 * SCALE);
}

/// What `compute_specular` returns: the Blinn-Phong half-vector term
/// `max(0, half . normal) ^ shininess` on the fixed-point grid, zero when
/// view and light are exactly opposite.
pub open spec fn specular_spec(view: Vec3M, light: Vec3M, normal: Vec3M, shininess: nat) -> int {
    let s = Vec3M {
        x: (light.x + view.x) as i64,
        y: (light.y + view.y) as i64,
        z: (light.z + view.z) as i64,
    };
    if s.x == 0 && s.y == 0 && s.z == 0 {
        0
    } else {
        let d = udot(normalize_res(s), normal);
        pow_fx(
            if d < 0 {
                0
            } else if d > SCALE {
                SCALE as int
            } else {
                d
            },
            shininess,
        )
    }
}

/// Computes the Blinn-Phong specular coefficient.
pub fn compute_specular(ray_origin_dir: UnitVec3, light_dir: UnitVec3, normal: UnitVec3,
    shininess: u32) -> (r: i64)
    ensures
        r == specular_spec(ray_origin_dir.vec(), light_dir.vec(), normal.vec(), shininess as nat),
        0 <= r <= SCALE,
{
    proof {
        use_type_invariant(ray_origin_dir);
        use_type_invariant(light_dir);
        use_type_invariant(normal);
    }
    let view: Vec3 = ray_origin_dir.to();
    let light: Vec3 = light_dir.to();
    let s: Vec3 = light.add(view);
    if s.x == 0 && s.y == 0 && s.z == 0 {
        return 0;
    }
    let half: UnitVec3 = s.normalize();
    proof {
        use_type_invariant(half);
        lemma_udot_bound(half.vec(), normal.vec());
    }
    let d: i64 = half.to().dot(normal.to());
    let base: i64 = if d < 0 {
        0
    } else if d > SCALE {
        SCALE
    } else {
        d
    };
    fx_pow(base, shininess)
}

/// What `reflect` computes before renormalizing: `i - 2 (i . n) n` on
/// the fixed-point grid.
pub open spec fn reflect_vec(i: Vec3M, n: Vec3M) -> Vec3M {
    let d = udot(i, n);
    Vec3M {
        x: (i.x - fmul(2 * d, n.x as int)) as i64,
        y: (i.y - fmul(2 * d, n.y as int)) as i64,
        z: (i.z - fmul(2 * d, n.z as int)) as i64,
    }
}

/// What `reflect` returns: the mirror direction, renormalized; the
/// degenerate all-zero rounding case falls back to the reversed incoming
/// direction.
pub open spec fn reflect_spec(i: Vec3M, n: Vec3M) -> Vec3M {
    let v = reflect_vec(i, n);
    if v.x == 0 && v.y == 0 && v.z == 0 {
        Vec3M { x: (-i.x) as i64, y: (-i.y) as i64, z: (-i.z) as i64 }
    } else {
        normalize_res(v)
    }
}

/// Computes the reflection of `i` along the surface normal `n`.
pub fn reflect(i: UnitVec3, n: UnitVec3) -> (r: UnitVec3)
    ensures
        r.vec() == reflect_spec(i.vec(), n.vec()),
{
    proof {
        use_type_invariant(i);
        use_type_invariant(n);
        lemma_udot_bound(i.vec(), n.vec());
    }
    let iv: Vec3 = i.to();
    let nv: Vec3 = n.to();
    let d: i64 = iv.dot(nv);
    proof {
        lemma_scale_unit_bound(2 * d as int, nv.x as int);
        lemma_scale_unit_bound(2 * d as int, nv.y as int);
        lemma_scale_unit_bound(2 * d as int, nv.z as int);
    }
    let v: Vec3 = iv.sub(nv.scale(2 * d));
    if v.x == 0 && v.y == 0 && v.z == 0 {
        i.neg()
    } else {
        v.normalize()
    }
}

/// A unit-vector component scaled by a moderately bounded factor stays
/// far inside the `normalize` input range.
proof fn lemma_scale_unit_bound(k: int, c: int)
    requires
        iabs(k) <= 4 * SCALE * SCALE,
        iabs(c) <= 2 * SCALE,
    ensures
        iabs(fmul(k, c)) <= 8 * SCALE * SCALE,
{
    lemma_mul_bound(k, c, 4 * SCALE * SCALE, 2 * SCALE);
    assert(4 * SCALE * SCALE * (2 * SCALE) == 8 * SCALE * SCALE * SCALE) by (nonlinear_arith);
    lemma_tdiv_abs_le(k * c, SCALE as int, 8 * SCALE * SCALE);
}

/// The fixed-point square root: `sqrt_floor` of the value brought to the
/// squared scale.
pub open spec fn sqrt_fx(k: int) -> int {
    sqrt_floor((k * SCALE) as nat) as int
}

/// What `refract` decides and returns, by vector Snell refraction with
/// ratio `r` (entered over exited index): `None` exactly when the
/// discriminant `k` is negative (total internal reflection), otherwise
/// the refracted unit direction (with the same all-zero rounding
/// fallback as `reflect`).
pub open spec fn refract_k(i: Vec3M, n: Vec3M, r: int) -> int {
    let rin = fdiv(SCALE as int, r);
    let w = -fmul(rin, udot(i, n));
    SCALE + fmul(w + rin, w - rin)
}

pub open spec fn refract_dir(i: Vec3M, n: Vec3M, r: int) -> Vec3M {
    let rin = fdiv(SCALE as int, r);
    let w = -fmul(rin, udot(i, n));
    let s = w - sqrt_fx(refract_k(i, n, r));
    let v = Vec3M {
        x: (fmul(rin, i.x as int) + fmul(s, n.x as int)) as i64,
        y: (fmul(rin, i.y as int) + fmul(s, n.y as int)) as i64,
        z: (fmul(rin, i.z as int) + fmul(s, n.z as int)) as i64,
    };
    if v.x == 0 && v.y == 0 && v.z == 0 {
        unit_fallback(i)
    } else {
        normalize_res(v)
    }
}

/// The fallback direction for a degenerate all-zero rounding: straight
/// through, the incoming direction itself.
pub open spec fn unit_fallback(i: Vec3M) -> Vec3M {
    i
}

/// Calculates the refraction of `i` at a surface with normal `n` and
/// refraction index quotient `r` (index entered over index exited).
pub fn refract(i: UnitVec3, n: UnitVec3, r: i64) -> (res: Option<UnitVec3>)
    requires
        1 <= r <= SCALE * SCALE,
    ensures
        res.is_some() <==> refract_k(i.vec(), n.vec(), r as int) >= 0,
        res.is_some() ==> res.unwrap().vec() == refract_dir(i.vec(), n.vec(), r as int),
{
    proof {
        use_type_invariant(i);
        use_type_invariant(n);
        lemma_udot_bound(i.vec(), n.vec());
    }
    let iv: Vec3 = i.to();
    let nv: Vec3 = n.to();
    let rin: i64 = crate::fixed::fx_div(SCALE, r);
    proof {
        lemma_tdiv_abs_le((SCALE as int) * (SCALE as int), r as int, SCALE * SCALE);
        lemma_mul_bound(rin as int, udot(iv, nv), SCALE * SCALE, 12 * SCALE);
        lemma_tdiv_abs_le(rin as int * udot(iv, nv), SCALE as int, 12 * SCALE * SCALE);
    }
    let w: i64 = -crate::fixed::fx_mul(rin, iv.dot(nv));
    proof {
        lemma_mul_bound(
            w as int + rin as int,
            w as int - rin as int,
            13 * SCALE * SCALE,
            13 * SCALE * SCALE,
        );
        assert(13 * SCALE * SCALE * (13 * SCALE * SCALE) < (169 * SCALE * SCALE * SCALE + 1)
            * SCALE) by (nonlinear_arith);
        lemma_tdiv_abs_le(
            (w as int + rin as int) * (w as int - rin as int),
            SCALE as int,
            169 * SCALE * SCALE * SCALE,
        );
    }
    let k: i64 = SCALE + crate::fixed::fx_mul(w + rin, w - rin);
    if k < 0 {
        return None;
    }
    proof {
        lemma_mul_bound(k as int, SCALE as int, i64::MAX as int, SCALE as int);
    }
    let squ: u128 = isqrt((k as u128) * (SCALE as u128));
    proof {
        lemma_sqrt_bound(k as int);
        assert(squ as int == sqrt_fx(k as int));
    }
    let sq: i64 = squ as i64;
    let s: i64 = w - sq;
    proof {
        lemma_scale_rin_bound(rin as int, iv.x as int);
        lemma_scale_rin_bound(rin as int, iv.y as int);
        lemma_scale_rin_bound(rin as int, iv.z as int);
        lemma_scale_s_bound(s as int, nv.x as int);
        lemma_scale_s_bound(s as int, nv.y as int);
        lemma_scale_s_bound(s as int, nv.z as int);
    }
    let va: Vec3 = iv.scale(rin);
    let vb: Vec3 = nv.scale(s);
    let v: Vec3 = va.add(vb);
    if v.x == 0 && v.y == 0 && v.z == 0 {
        Some(i)
    } else {
        Some(v.normalize())
    }
}

/// Bounds for the two scaled terms of the refracted direction.
proof fn lemma_scale_rin_bound(rin: int, c: int)
    requires
        iabs(rin) <= SCALE * SCALE,
        iabs(c) <= 2 * SCALE,
    ensures
        iabs(fmul(rin, c)) <= 2 * SCALE * SCALE,
{
    lemma_mul_bound(rin, c, SCALE * SCALE, 2 * SCALE);
    assert(SCALE * SCALE * (2 * SCALE) == 2 * SCALE * SCALE * SCALE) by (nonlinear_arith);
    lemma_tdiv_abs_le(rin * c, SCALE as int, 2 * SCALE * SCALE);
}

proof fn lemma_scale_s_bound(s: int, c: int)
    requires
        iabs(s) <= 27 * SCALE * SCALE,
        iabs(c) <= 2 * SCALE,
    ensures
        iabs(fmul(s, c)) <= 54 * SCALE * SCALE,
{
    lemma_mul_bound(s, c, 27 * SCALE * SCALE, 2 * SCALE);
    assert(27 * SCALE * SCALE * (2 * SCALE) == 54 * SCALE * SCALE * SCALE) by (nonlinear_arith);
    lemma_tdiv_abs_le(s * c, SCALE as int, 54 * SCALE * SCALE);
}

/// `sqrt_fx` of a bounded discriminant is itself bounded.
proof fn lemma_sqrt_bound(k: int)
    requires
        0 <= k <= 170 * SCALE * SCALE * SCALE,
    ensures
        0 <= sqrt_fx(k) <= 14 * SCALE * SCALE,
{
    let n = (k * SCALE) as nat;
    lemma_sqrt_floor(n);
    let s = sqrt_floor(n);
    assert(k * SCALE <= 170 * SCALE * SCALE * SCALE * SCALE) by (nonlinear_arith)
        requires
            k <= 170 * SCALE * SCALE * SCALE,
    ;
    if s > 14 * SCALE * SCALE {
        assert((s as int) * (s as int) > 170 * SCALE * SCALE * SCALE * SCALE) by (nonlinear_arith)
            requires
                s as int > 14 * (SCALE as int) * (SCALE as int),
        ;
    }
}

/// What `fresnel` returns: the unpolarized-average Fresnel reflectance
/// computed from the refraction geometry, with each intermediate factor
/// clamped to twice the unit interval; grazing or reflection-free
/// geometry yields full reflectance.
pub open spec fn fresnel_spec(i: Vec3M, n: Vec3M, r: int) -> int {
    let c = -udot(i, n);
    let v = r * r + c * c - (SCALE as int) * (SCALE as int);
    if c < 1 || v < 0 {
        SCALE as int
    } else {
        let g = sqrt_floor(v as nat) as int;
        let gpc = g + c;
        let gmc = g - c;
        let f1 = clamp2(fdiv(gmc, gpc));
        let den = fmul(c, gmc) + SCALE;
        if den == 0 {
            SCALE as int
        } else {
            let f2 = clamp2(fdiv(fmul(c, gpc) - SCALE, den));
            tdiv(fmul(fmul(f1, f1), fmul(f2, f2) + SCALE), 2)
        }
    }
}

/// Clamps a fixed-point value into twice the unit interval.
pub open spec fn clamp2(x: int) -> int {
    if x < -2 * SCALE {
        -2 * SCALE
    } else if x > 2 * SCALE {
        2 * SCALE
    } else {
        x
    }
}

fn clamp2_exec(x: i64) -> (r: i64)
    ensures
        r == clamp2(x as int),
{
    if x < -2 * SCALE {
        -2 * SCALE
    } else if x > 2 * SCALE {
        2 * SCALE
    } else {
        x
    }
}

/// Computes the Fresnel reflectance of `i` on a surface with normal `n`
/// and index-of-refraction ratio `r` (entered over exited).
pub fn fresnel(i: UnitVec3, n: UnitVec3, r: i64) -> (res: i64)
    requires
        0 <= r <= SCALE * SCALE,
    ensures
        res == fresnel_spec(i.vec(), n.vec(), r as int),
{
    proof {
        use_type_invariant(i);
        use_type_invariant(n);
        lemma_udot_bound(i.vec(), n.vec());
        lemma_mul_bound(r as int, r as int, SCALE * SCALE, SCALE * SCALE);
    }
    let c: i64 = -(i.to().dot(n.to()));
    proof {
        lemma_mul_bound(c as int, c as int, 12 * SCALE, 12 * SCALE);
    }
    let v: i128 = (r as i128) * (r as i128) + (c as i128) * (c as i128) - (SCALE as i128) * (SCALE
        as i128);
    if c < 1 || v < 0 {
        return SCALE;
    }
    let gu: u128 = isqrt(v as u128);
    proof {
        lemma_g_bound(v as int, gu as int);
    }
    let g: i64 = gu as i64;
    let gpc: i64 = g + c;
    let gmc: i64 = g - c;
    proof {
        lemma_mul_bound(gmc as int, SCALE as int, 200030000, SCALE as int);
        lemma_tdiv_abs_le(gmc as int * SCALE, gpc as int, 2000300000000i64 as int);
        lemma_fresnel_products(c as int, gpc as int, gmc as int);
    }
    let f1: i64 = clamp2_exec(crate::fixed::fx_div(gmc, gpc));
    let den: i64 = crate::fixed::fx_mul(c, gmc) + SCALE;
    if den == 0 {
        return SCALE;
    }
    let f2: i64 = clamp2_exec(crate::fixed::fx_div(crate::fixed::fx_mul(c, gpc) - SCALE, den));
    proof {
        lemma_fmul_small(f1 as int, f1 as int);
        lemma_fmul_small(f2 as int, f2 as int);
        lemma_fmul_small2(fmul(f1 as int, f1 as int), fmul(f2 as int, f2 as int) + SCALE);
    }
    crate::fixed::tdiv64(crate::fixed::fx_mul(crate::fixed::fx_mul(f1, f1), crate::fixed::fx_mul(
        f2, f2) + SCALE), 2)
}

/// The square root of the bounded Fresnel discriminant is bounded.
proof fn lemma_g_bound(v: int, g: int)
    requires
        0 <= v <= 10001440000000000i64 as int + 14400000000i64 as int,
        g == sqrt_floor(v as nat) as int,
    ensures
        0 <= g <= 200000000i64 as int,
{
    lemma_sqrt_floor(v as nat);
    if g > 200000000i64 {
        assert(g * g > 10001454400000000i64) by (nonlinear_arith)
            requires
                g > 200000000i64,
        ;
    }
}

/// Magnitude bounds for the Fresnel quotients before clamping.
proof fn lemma_fresnel_products(c: int, gpc: int, gmc: int)
    requires
        1 <= c <= 12 * SCALE,
        iabs(gpc) <= 200150000i64 as int,
        iabs(gmc) <= 200150000i64 as int,
    ensures
        iabs(fmul(c, gpc)) <= 2500000000000i64 as int,
        iabs(fmul(c, gmc)) <= 2500000000000i64 as int,
{
    lemma_mul_bound(c, gpc, 12 * SCALE, 200150000i64 as int);
    lemma_mul_bound(c, gmc, 12 * SCALE, 200150000i64 as int);
    lemma_tdiv_abs_le(c * gpc, SCALE as int, 2500000000000i64 as int);
    lemma_tdiv_abs_le(c * gmc, SCALE as int, 2500000000000i64 as int);
}

/// A product of factors within twice the unit interval stays within
/// four times of it.
proof fn lemma_fmul_small(a: int, b: int)
    requires
        iabs(a) <= 2 * SCALE,
        iabs(b) <= 2 * SCALE,
    ensures
        iabs(fmul(a, b)) <= 4 * SCALE,
{
    lemma_mul_bound(a, b, 2 * SCALE, 2 * SCALE);
    assert(2 * SCALE * (2 * SCALE) == 4 * SCALE * SCALE) by (nonlinear_arith);
    lemma_tdiv_abs_le(a * b, SCALE as int, 4 * SCALE);
}

proof fn lemma_fmul_small2(a: int, b: int)
    requires
        iabs(a) <= 4 * SCALE,
        iabs(b) <= 5 * SCALE,
    ensures
        iabs(fmul(a, b)) <= 20 * SCALE,
{
    lemma_mul_bound(a, b, 4 * SCALE, 5 * SCALE);
    assert(4 * SCALE * (5 * SCALE) == 20 * SCALE * SCALE) by (nonlinear_arith);
    lemma_tdiv_abs_le(a * b, SCALE as int, 20 * SCALE);
}

} // verus!
