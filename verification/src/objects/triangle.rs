use vstd::prelude::*;

use crate::basic::{DelayedIntersection, Intersection, Ray, ray_at, ray_ok, tau_accepts, tau_t};
use crate::fixed::{COORD_MAX, SCALE, T_MAX, iabs, lemma_mul_bound, lemma_tdiv_abs_le,
    lemma_tdiv_nonneg, tdiv};
use crate::lin_alg::{UnitVec3, Vec3, Vec3M, cross_x, cross_y, cross_z, in_range, normalize_res,
    sdot, unit_x_vec};
use crate::material::{Material, material_ok};
use crate::objects::aabb::{Aabb, box_new, box_wf};

verus! {

/// Represents a triangle.
#[derive(Clone, Copy, Debug, PartialEq)]
pub struct Triangle {
    /// First point of the triangle.
    pub a: Vec3,
    /// Second point of the triangle.
    pub b: Vec3,
    /// Third point of the triangle.
    pub c: Vec3,
    /// The material of the triangle.
    pub material: Material,
}

/// A triangle the renderer can hold.
pub open spec fn triangle_wf(t: Triangle) -> bool {
    &&& in_range(t.a)
    &&& in_range(t.b)
    &&& in_range(t.c)
    &&& material_ok(t.material)
}

/// The hit time of a ray against a triangle, as an exact rational: the
/// edge-vector determinant test.  The ray misses when the determinant is
/// within the `EPS` band of zero (a near-parallel or degenerate
/// configuration), when a barycentric coordinate leaves `[0, 1]`, or
/// when the hit lies at or before `EPS`.
pub open spec fn triangle_tau(a: Vec3M, b: Vec3M, c: Vec3M, o: Vec3M, d: Vec3M) -> Option<
    (int, int),
> {
    let ex = b.x - a.x;
    let ey = b.y - a.y;
    let ez = b.z - a.z;
    let fx = c.x - a.x;
    let fy = c.y - a.y;
    let fz = c.z - a.z;
    let gx = o.x - a.x;
    let gy = o.y - a.y;
    let gz = o.z - a.z;
    let px = d.y * fz - d.z * fy;
    let py = d.z * fx - d.x * fz;
    let pz = d.x * fy - d.y * fx;
    let det = px * ex + py * ey + pz * ez;
    if iabs(det) < SCALE * SCALE {
        None
    } else {
        let ds: int = if det > 0 {
            1
        } else {
            -1
        };
        let den = det * ds;
        let un = (px * gx + py * gy + pz * gz) * ds;
        if un < 0 || un > den {
            None
        } else {
            let qx = gy * ez - gz * ey;
            let qy = gz * ex - gx * ez;
            let qz = gx * ey - gy * ex;
            let vn = (qx * d.x + qy * d.y + qz * d.z) * ds;
            if vn < 0 || un + vn > den {
                None
            } else {
                let tn = (qx * fx + qy * fy + qz * fz) * ds * SCALE;
                if tn > den {
                    Some((tn, den))
                } else {
                    None
                }
            }
        }
    }
}

/// The fixed-point barycentric coordinates of the hit.
pub open spec fn triangle_uv(a: Vec3M, b: Vec3M, c: Vec3M, o: Vec3M, d: Vec3M) -> (int, int) {
    let ex = b.x - a.x;
    let ey = b.y - a.y;
    let ez = b.z - a.z;
    let fx = c.x - a.x;
    let fy = c.y - a.y;
    let fz = c.z - a.z;
    let gx = o.x - a.x;
    let gy = o.y - a.y;
    let gz = o.z - a.z;
    let px = d.y * fz - d.z * fy;
    let py = d.z * fx - d.x * fz;
    let pz = d.x * fy - d.y * fx;
    let det = px * ex + py * ey + pz * ez;
    let ds: int = if det > 0 {
        1
    } else {
        -1
    };
    let den = det * ds;
    let un = (px * gx + py * gy + pz * gz) * ds;
    let qx = gy * ez - gz * ey;
    let qy = gz * ex - gx * ez;
    let qz = gx * ey - gy * ex;
    let vn = (qx * d.x + qy * d.y + qz * d.z) * ds;
    (tdiv(un * SCALE, den), tdiv(vn * SCALE, den))
}

/// The edge vectors of a triangle.
pub open spec fn edge_vec(a: Vec3M, b: Vec3M) -> Vec3M {
    Vec3M { x: (b.x - a.x) as i64, y: (b.y - a.y) as i64, z: (b.z - a.z) as i64 }
}

/// The flat normal of a triangle at a hit by direction `d`: the
/// normalized cross product of the edges, oriented against `d` (the
/// degenerate all-zero rounding falls back to the x-axis before the
/// orientation flip).
pub open spec fn triangle_normal(a: Vec3M, b: Vec3M, c: Vec3M, d: Vec3M) -> Vec3M {
    let e = edge_vec(a, b);
    let f = edge_vec(a, c);
    let nv = Vec3M {
        x: cross_x(e, f) as i64,
        y: cross_y(e, f) as i64,
        z: cross_z(e, f) as i64,
    };
    let n1 = if nv.x == 0 && nv.y == 0 && nv.z == 0 {
        unit_x_vec()
    } else {
        normalize_res(nv)
    };
    if sdot(n1, d) < 0 {
        n1
    } else {
        Vec3M { x: (-n1.x) as i64, y: (-n1.y) as i64, z: (-n1.z) as i64 }
    }
}

/// The solved triangle system: the sign-adjusted determinant and the
/// numerators of `t`, `u` and `v`.
pub(crate) struct TriSolved {
    pub(crate) tn: i128,
    pub(crate) den: i128,
    pub(crate) un: i128,
    pub(crate) vn: i128,
}

/// Solves the edge-vector system for a ray and a triangle, exactly as
/// `triangle_tau` states it; `None` exactly when `triangle_tau` is.
pub(crate) fn triangle_solve(a: Vec3, b: Vec3, c: Vec3, ray: Ray) -> (res: Option<TriSolved>)
    requires
        in_range(a),
        in_range(b),
        in_range(c),
        ray_ok(ray),
    ensures
        res.is_some() <==> triangle_tau(a, b, c, ray.origin, ray.dir.vec()).is_some(),
        res.is_some() ==> {
            let tau = triangle_tau(a, b, c, ray.origin, ray.dir.vec()).unwrap();
            let uv = triangle_uv(a, b, c, ray.origin, ray.dir.vec());
            &&& res.unwrap().tn == tau.0
            &&& res.unwrap().den == tau.1
            &&& SCALE * SCALE <= res.unwrap().den <= 5_000_000_000_000_000_000_000
            &&& iabs(res.unwrap().tn as int) <= 2_200_000_000_000_000_000_000_000_000_000
            &&& 0 <= res.unwrap().un <= res.unwrap().den
            &&& 0 <= res.unwrap().vn <= res.unwrap().den
            &&& res.unwrap().un + res.unwrap().vn <= res.unwrap().den
            &&& tdiv(res.unwrap().un as int * SCALE, res.unwrap().den as int) == uv.0
            &&& tdiv(res.unwrap().vn as int * SCALE, res.unwrap().den as int) == uv.1
        },
{
    proof {
        use_type_invariant(ray.dir);
    }
    let d: Vec3 = ray.dir.to();
    let o: Vec3 = ray.origin;
    let ex: i64 = b.x - a.x;
    let ey: i64 = b.y - a.y;
    let ez: i64 = b.z - a.z;
    let fx: i64 = c.x - a.x;
    let fy: i64 = c.y - a.y;
    let fz: i64 = c.z - a.z;
    let gx: i64 = o.x - a.x;
    let gy: i64 = o.y - a.y;
    let gz: i64 = o.z - a.z;
    proof {
        lemma_tri_products(d.x as int, d.y as int, d.z as int, ex as int, ey as int, ez as int,
            fx as int, fy as int, fz as int, gx as int, gy as int, gz as int);
    }
    let px: i128 = (d.y as i128) * (fz as i128) - (d.z as i128) * (fy as i128);
    let py: i128 = (d.z as i128) * (fx as i128) - (d.x as i128) * (fz as i128);
    let pz: i128 = (d.x as i128) * (fy as i128) - (d.y as i128) * (fx as i128);
    let det: i128 = px * (ex as i128) + py * (ey as i128) + pz * (ez as i128);
    let s2: i128 = (SCALE as i128) * (SCALE as i128);
    if -s2 < det && det < s2 {
        return None;
    }
    let ds: i128 = if det > 0 {
        1
    } else {
        -1
    };
    proof {
        lemma_mul_bound(det as int, ds as int, 4_900_000_000_000_000_000_000, 1);
        lemma_mul_bound(
            (px * (gx as i128) + py * (gy as i128) + pz * (gz as i128)) as int,
            ds as int,
            21_700_000_000_000_000_000_000,
            1,
        );
    }
    let den: i128 = det * ds;
    let un: i128 = (px * (gx as i128) + py * (gy as i128) + pz * (gz as i128)) * ds;
    if un < 0 || un > den {
        return None;
    }
    let qx: i128 = (gy as i128) * (ez as i128) - (gz as i128) * (ey as i128);
    let qy: i128 = (gz as i128) * (ex as i128) - (gx as i128) * (ez as i128);
    let qz: i128 = (gx as i128) * (ey as i128) - (gy as i128) * (ex as i128);
    proof {
        lemma_mul_bound(
            (qx * (d.x as i128) + qy * (d.y as i128) + qz * (d.z as i128)) as int,
            ds as int,
            22_000_000_000_000_000_000_000,
            1,
        );
    }
    let vn: i128 = (qx * (d.x as i128) + qy * (d.y as i128) + qz * (d.z as i128)) * ds;
    if vn < 0 || un + vn > den {
        return None;
    }
    proof {
        lemma_mul_bound(
            (qx * (fx as i128) + qy * (fy as i128) + qz * (fz as i128)) as int,
            ds as int,
            220_000_000_000_000_000_000_000_000,
            1,
        );
    }
    let tnds: i128 = (qx * (fx as i128) + qy * (fy as i128) + qz * (fz as i128)) * ds;
    proof {
        lemma_mul_bound(tnds as int, SCALE as int, 220_000_000_000_000_000_000_000_000, SCALE
            as int);
        assert(220_000_000_000_000_000_000_000_000i128 * SCALE
            == 2_200_000_000_000_000_000_000_000_000_000i128) by (nonlinear_arith);
    }
    let tn: i128 = tnds * (SCALE as i128);
    if tn > den {
        Some(TriSolved { tn, den, un, vn })
    } else {
        None
    }
}

/// Magnitude bounds for every product of the edge-vector system.
proof fn lemma_tri_products(dx: int, dy: int, dz: int, ex: int, ey: int, ez: int, fx: int,
    fy: int, fz: int, gx: int, gy: int, gz: int)
    requires
        iabs(dx) <= 2 * SCALE,
        iabs(dy) <= 2 * SCALE,
        iabs(dz) <= 2 * SCALE,
        iabs(ex) <= 2 * COORD_MAX,
        iabs(ey) <= 2 * COORD_MAX,
        iabs(ez) <= 2 * COORD_MAX,
        iabs(fx) <= 2 * COORD_MAX,
        iabs(fy) <= 2 * COORD_MAX,
        iabs(fz) <= 2 * COORD_MAX,
        iabs(gx) <= 9 * COORD_MAX,
        iabs(gy) <= 9 * COORD_MAX,
        iabs(gz) <= 9 * COORD_MAX,
    ensures
        iabs(dy * fz) <= 4_000_000_000_000,
        iabs(dz * fy) <= 4_000_000_000_000,
        iabs(dz * fx) <= 4_000_000_000_000,
        iabs(dx * fz) <= 4_000_000_000_000,
        iabs(dx * fy) <= 4_000_000_000_000,
        iabs(dy * fx) <= 4_000_000_000_000,
        iabs((dy * fz - dz * fy) * ex) <= 1_600_000_000_000_000_000_000,
        iabs((dz * fx - dx * fz) * ey) <= 1_600_000_000_000_000_000_000,
        iabs((dx * fy - dy * fx) * ez) <= 1_600_000_000_000_000_000_000,
        iabs((dy * fz - dz * fy) * gx) <= 7_200_000_000_000_000_000_000,
        iabs((dz * fx - dx * fz) * gy) <= 7_200_000_000_000_000_000_000,
        iabs((dx * fy - dy * fx) * gz) <= 7_200_000_000_000_000_000_000,
        iabs(gy * ez) <= 1_800_000_000_000_000_000,
        iabs(gz * ey) <= 1_800_000_000_000_000_000,
        iabs(gz * ex) <= 1_800_000_000_000_000_000,
        iabs(gx * ez) <= 1_800_000_000_000_000_000,
        iabs(gx * ey) <= 1_800_000_000_000_000_000,
        iabs(gy * ex) <= 1_800_000_000_000_000_000,
        iabs((gy * ez - gz * ey) * dx) <= 7_200_000_000_000_000_000_000,
        iabs((gz * ex - gx * ez) * dy) <= 7_200_000_000_000_000_000_000,
        iabs((gx * ey - gy * ex) * dz) <= 7_200_000_000_000_000_000_000,
        iabs((gy * ez - gz * ey) * fx) <= 72_000_000_000_000_000_000_000_000,
        iabs((gz * ex - gx * ez) * fy) <= 72_000_000_000_000_000_000_000_000,
        iabs((gx * ey - gy * ex) * fz) <= 72_000_000_000_000_000_000_000_000,
{
    lemma_mul_bound(dy, fz, 2 * SCALE, 2 * COORD_MAX);
    lemma_mul_bound(dz, fy, 2 * SCALE, 2 * COORD_MAX);
    lemma_mul_bound(dz, fx, 2 * SCALE, 2 * COORD_MAX);
    lemma_mul_bound(dx, fz, 2 * SCALE, 2 * COORD_MAX);
    lemma_mul_bound(dx, fy, 2 * SCALE, 2 * COORD_MAX);
    lemma_mul_bound(dy, fx, 2 * SCALE, 2 * COORD_MAX);
    assert(2 * SCALE * (2 * COORD_MAX) == 4_000_000_000_000) by (nonlinear_arith);
    lemma_mul_bound(dy * fz - dz * fy, ex, 8_000_000_000_000, 2 * COORD_MAX);
    lemma_mul_bound(dz * fx - dx * fz, ey, 8_000_000_000_000, 2 * COORD_MAX);
    lemma_mul_bound(dx * fy - dy * fx, ez, 8_000_000_000_000, 2 * COORD_MAX);
    assert(8_000_000_000_000i128 * (2 * COORD_MAX) == 1_600_000_000_000_000_000_000i128)
        by (nonlinear_arith);
    lemma_mul_bound(dy * fz - dz * fy, gx, 8_000_000_000_000, 9 * COORD_MAX);
    lemma_mul_bound(dz * fx - dx * fz, gy, 8_000_000_000_000, 9 * COORD_MAX);
    lemma_mul_bound(dx * fy - dy * fx, gz, 8_000_000_000_000, 9 * COORD_MAX);
    assert(8_000_000_000_000i128 * (9 * COORD_MAX) == 7_200_000_000_000_000_000_000i128)
        by (nonlinear_arith);
    lemma_mul_bound(gy, ez, 9 * COORD_MAX, 2 * COORD_MAX);
    lemma_mul_bound(gz, ey, 9 * COORD_MAX, 2 * COORD_MAX);
    lemma_mul_bound(gz, ex, 9 * COORD_MAX, 2 * COORD_MAX);
    lemma_mul_bound(gx, ez, 9 * COORD_MAX, 2 * COORD_MAX);
    lemma_mul_bound(gx, ey, 9 * COORD_MAX, 2 * COORD_MAX);
    lemma_mul_bound(gy, ex, 9 * COORD_MAX, 2 * COORD_MAX);
    assert(9 * COORD_MAX * (2 * COORD_MAX) == 180_000_000_000_000_000) by (nonlinear_arith);
    lemma_mul_bound(gy * ez - gz * ey, dx, 360_000_000_000_000_000, 2 * SCALE);
    lemma_mul_bound(gz * ex - gx * ez, dy, 360_000_000_000_000_000, 2 * SCALE);
    lemma_mul_bound(gx * ey - gy * ex, dz, 360_000_000_000_000_000, 2 * SCALE);
    assert(360_000_000_000_000_000i128 * (2 * SCALE) == 7_200_000_000_000_000_000_000i128)
        by (nonlinear_arith);
    lemma_mul_bound(gy * ez - gz * ey, fx, 360_000_000_000_000_000, 2 * COORD_MAX);
    lemma_mul_bound(gz * ex - gx * ez, fy, 360_000_000_000_000_000, 2 * COORD_MAX);
    lemma_mul_bound(gx * ey - gy * ex, fz, 360_000_000_000_000_000, 2 * COORD_MAX);
    assert(360_000_000_000_000_000i128 * (2 * COORD_MAX)
        == 72_000_000_000_000_000_000_000_000i128) by (nonlinear_arith);
}

/// Intersects a ray with the triangle `(a, b, c)` within `(EPS, t_max]`.
/// On a hit it returns the two edge vectors, the fixed-point barycentric
/// coordinates `u` and `v`, and the hit distance.
pub fn intersect_triangle(a: Vec3, b: Vec3, c: Vec3, ray: Ray, t_max: i64) -> (res: Option<
    (Vec3, Vec3, i64, i64, i64),
>)
    requires
        in_range(a),
        in_range(b),
        in_range(c),
        ray_ok(ray),
        0 <= t_max <= T_MAX,
    ensures
        res.is_some() <==> tau_accepts(triangle_tau(a, b, c, ray.origin, ray.dir.vec()),
            t_max as int),
        res.is_some() ==> {
            let tau = triangle_tau(a, b, c, ray.origin, ray.dir.vec());
            let uv = triangle_uv(a, b, c, ray.origin, ray.dir.vec());
            &&& res.unwrap().0 == edge_vec(a, b)
            &&& res.unwrap().1 == edge_vec(a, c)
            &&& res.unwrap().2 == uv.0
            &&& res.unwrap().3 == uv.1
            &&& 0 <= res.unwrap().2 <= SCALE
            &&& 0 <= res.unwrap().3 <= SCALE
            &&& res.unwrap().4 == tau_t(tau)
            &&& 0 <= res.unwrap().4 <= t_max
        },
{
    let solved: Option<TriSolved> = triangle_solve(a, b, c, ray);
    match solved {
        None => None,
        Some(s) => {
            proof {
                lemma_mul_bound(t_max as int, s.den as int, T_MAX as int,
                    5_000_000_000_000_000_000_000);
                assert(T_MAX * 5_000_000_000_000_000_000_000i128 < i128::MAX)
                    by (nonlinear_arith);
            }
            if s.tn > (t_max as i128) * s.den {
                return None;
            }
            proof {
                lemma_tdiv_nonneg(s.tn as int, s.den as int);
                assert(s.tn < (t_max + 1) * s.den) by (nonlinear_arith)
                    requires
                        s.tn <= t_max * s.den,
                        s.den >= 1,
                ;
                lemma_tdiv_abs_le(s.tn as int, s.den as int, t_max as int);
                lemma_mul_bound(s.un as int, SCALE as int, 5_000_000_000_000_000_000_000, SCALE
                    as int);
                lemma_mul_bound(s.vn as int, SCALE as int, 5_000_000_000_000_000_000_000, SCALE
                    as int);
                lemma_tdiv_nonneg(s.un as int * SCALE, s.den as int);
                lemma_tdiv_nonneg(s.vn as int * SCALE, s.den as int);
                assert(s.un * SCALE < (SCALE + 1) * s.den) by (nonlinear_arith)
                    requires
                        s.un <= s.den,
                        s.den >= 1,
                        SCALE >= 1,
                ;
                assert(s.vn * SCALE < (SCALE + 1) * s.den) by (nonlinear_arith)
                    requires
                        s.vn + s.un <= s.den,
                        s.un >= 0,
                        s.den >= 1,
                        SCALE >= 1,
                ;
                lemma_tdiv_abs_le(s.un as int * SCALE, s.den as int, SCALE as int);
                lemma_tdiv_abs_le(s.vn as int * SCALE, s.den as int, SCALE as int);
            }
            let t: i64 = crate::fixed::tdiv128(s.tn, s.den) as i64;
            let u: i64 = crate::fixed::tdiv128(s.un * (SCALE as i128), s.den) as i64;
            let v: i64 = crate::fixed::tdiv128(s.vn * (SCALE as i128), s.den) as i64;
            let e: Vec3 = b.sub(a);
            let f: Vec3 = c.sub(a);
            Some((e, f, u, v, t))
        },
    }
}

/// Checks whether the ray hits the triangle `(a, b, c)` within
/// `(EPS, t_max]`.
pub fn is_triangle_hit_by(a: Vec3, b: Vec3, c: Vec3, ray: Ray, t_max: i64) -> (res: bool)
    requires
        in_range(a),
        in_range(b),
        in_range(c),
        ray_ok(ray),
        0 <= t_max <= T_MAX,
    ensures
        res == tau_accepts(triangle_tau(a, b, c, ray.origin, ray.dir.vec()), t_max as int),
{
    let solved: Option<TriSolved> = triangle_solve(a, b, c, ray);
    match solved {
        None => false,
        Some(s) => {
            proof {
                lemma_mul_bound(t_max as int, s.den as int, T_MAX as int,
                    5_000_000_000_000_000_000_000);
                assert(T_MAX * 5_000_000_000_000_000_000_000i128 < i128::MAX)
                    by (nonlinear_arith);
            }
            s.tn <= (t_max as i128) * s.den
        },
    }
}

/// Computes the oriented flat normal of the triangle for a hit by `dir`.
pub(crate) fn triangle_normal_exec(a: Vec3, b: Vec3, c: Vec3, dir: UnitVec3) -> (res: UnitVec3)
    requires
        in_range(a),
        in_range(b),
        in_range(c),
    ensures
        res.vec() == triangle_normal(a, b, c, dir.vec()),
{
    proof {
        use_type_invariant(dir);
    }
    let e: Vec3 = b.sub(a);
    let f: Vec3 = c.sub(a);
    proof {
        crate::lin_alg::lemma_cross_fits(e, f);
    }
    let nv: Vec3 = e.cross(f);
    let n1: UnitVec3 = if nv.x == 0 && nv.y == 0 && nv.z == 0 {
        Vec3M::e1()
    } else {
        nv.normalize()
    };
    proof {
        use_type_invariant(n1);
        crate::physics::lemma_udot_bound(n1.vec(), dir.vec());
    }
    let dv: Vec3 = dir.to();
    let nd: i128 = (n1.to().x as i128) * (dv.x as i128) + (n1.to().y as i128) * (dv.y as i128) + (
    n1.to().z as i128) * (dv.z as i128);
    if nd < 0 {
        n1
    } else {
        n1.neg()
    }
}

impl Triangle {
    /// Returns information about the intersection of the triangle and
    /// the ray, if one exists within `(EPS, t_max]`.
    pub fn intersect(&self, ray: Ray, t_max: i64) -> (res: Option<DelayedIntersection>)
        requires
            triangle_wf(*self),
            ray_ok(ray),
            0 <= t_max <= T_MAX,
        ensures
            res.is_some() <==> tau_accepts(
                triangle_tau(self.a, self.b, self.c, ray.origin, ray.dir.vec()),
                t_max as int,
            ),
            res.is_some() ==> {
                let tau = triangle_tau(self.a, self.b, self.c, ray.origin, ray.dir.vec());
                &&& res.unwrap().t == tau_t(tau)
                &&& res.unwrap().inter.t == tau_t(tau)
                &&& res.unwrap().inter.point == ray_at(ray, tau_t(tau))
                &&& res.unwrap().inter.normal.vec() == triangle_normal(self.a, self.b, self.c,
                    ray.dir.vec())
                &&& res.unwrap().inter.material == self.material
            },
            res.is_some() ==> 0 <= res.unwrap().t <= t_max,
    {
        let hit: Option<(Vec3, Vec3, i64, i64, i64)> = intersect_triangle(
            self.a,
            self.b,
            self.c,
            ray,
            t_max,
        );
        match hit {
            None => None,
            Some((_e, _f, _u, _v, t)) => {
                let normal: UnitVec3 = triangle_normal_exec(self.a, self.b, self.c, ray.dir);
                Some(DelayedIntersection::new(t, Intersection::new(ray, t, normal, self.material)))
            },
        }
    }

    /// Checks whether the ray hits the triangle within `(EPS, t_max]`.
    pub fn is_hit_by(&self, ray: Ray, t_max: i64) -> (res: bool)
        requires
            triangle_wf(*self),
            ray_ok(ray),
            0 <= t_max <= T_MAX,
        ensures
            res == tau_accepts(
                triangle_tau(self.a, self.b, self.c, ray.origin, ray.dir.vec()),
                t_max as int,
            ),
    {
        is_triangle_hit_by(self.a, self.b, self.c, ray, t_max)
    }

    /// Returns the tight axis-aligned bounding box of the triangle.
    pub fn bounding_box(&self) -> (res: Option<Aabb>)
        requires
            triangle_wf(*self),
        ensures
            res.is_some(),
            res.unwrap() == triangle_box(self.a, self.b, self.c),
            box_wf(res.unwrap()),
    {
        let lo: Vec3 = self.a.min(self.b).min(self.c);
        let hi: Vec3 = self.a.max(self.b).max(self.c);
        Some(Aabb::new(lo, hi))
    }
}

/// The componentwise bounding box of three points.
pub open spec fn triangle_box(a: Vec3M, b: Vec3M, c: Vec3M) -> Aabb {
    box_new(
        Vec3M {
            x: if a.x <= b.x {
                if a.x <= c.x {
                    a.x
                } else {
                    c.x
                }
            } else {
                if b.x <= c.x {
                    b.x
                } else {
                    c.x
                }
            },
            y: if a.y <= b.y {
                if a.y <= c.y {
                    a.y
                } else {
                    c.y
                }
            } else {
                if b.y <= c.y {
                    b.y
                } else {
                    c.y
                }
            },
            z: if a.z <= b.z {
                if a.z <= c.z {
                    a.z
                } else {
                    c.z
                }
            } else {
                if b.z <= c.z {
                    b.z
                } else {
                    c.z
                }
            },
        },
        Vec3M {
            x: if a.x >= b.x {
                if a.x >= c.x {
                    a.x
                } else {
                    c.x
                }
            } else {
                if b.x >= c.x {
                    b.x
                } else {
                    c.x
                }
            },
            y: if a.y >= b.y {
                if a.y >= c.y {
                    a.y
                } else {
                    c.y
                }
            } else {
                if b.y >= c.y {
                    b.y
                } else {
                    c.y
                }
            },
            z: if a.z >= b.z {
                if a.z >= c.z {
                    a.z
                } else {
                    c.z
                }
            } else {
                if b.z >= c.z {
                    b.z
                } else {
                    c.z
                }
            },
        },
    )
}

} // verus!

verus! {

/// Bounds on the rational hit time of a triangle: the denominator and
/// numerator stay well inside the ranges the slab test accepts, and the
/// time lies beyond `EPS`.
pub proof fn lemma_triangle_tau_bounds(a: Vec3M, b: Vec3M, c: Vec3M, o: Vec3M, d: Vec3M)
    requires
        in_range(a),
        in_range(b),
        in_range(c),
        iabs(o.x as int) <= 8 * COORD_MAX,
        iabs(o.y as int) <= 8 * COORD_MAX,
        iabs(o.z as int) <= 8 * COORD_MAX,
        iabs(d.x as int) <= 2 * SCALE,
        iabs(d.y as int) <= 2 * SCALE,
        iabs(d.z as int) <= 2 * SCALE,
        triangle_tau(a, b, c, o, d).is_some(),
    ensures
        SCALE * SCALE <= triangle_tau(a, b, c, o, d).unwrap().1
            <= 5_000_000_000_000_000_000_000,
        iabs(triangle_tau(a, b, c, o, d).unwrap().0) <= 2_200_000_000_000_000_000_000_000_000_000,
        triangle_tau(a, b, c, o, d).unwrap().0 > triangle_tau(a, b, c, o, d).unwrap().1,
{
    let ex = b.x - a.x;
    let ey = b.y - a.y;
    let ez = b.z - a.z;
    let fx = c.x - a.x;
    let fy = c.y - a.y;
    let fz = c.z - a.z;
    let gx = o.x - a.x;
    let gy = o.y - a.y;
    let gz = o.z - a.z;
    lemma_tri_products(d.x as int, d.y as int, d.z as int, ex, ey, ez, fx, fy, fz, gx, gy, gz);
    let px = d.y * fz - d.z * fy;
    let py = d.z * fx - d.x * fz;
    let pz = d.x * fy - d.y * fx;
    let det = px * ex + py * ey + pz * ez;
    let ds: int = if det > 0 {
        1
    } else {
        -1
    };
    assert(det * 1 == det) by (nonlinear_arith);
    assert(det * (-1) == -det) by (nonlinear_arith);
    let qx = gy * ez - gz * ey;
    let qy = gz * ex - gx * ez;
    let qz = gx * ey - gy * ex;
    let tsum = qx * fx + qy * fy + qz * fz;
    assert(tsum * 1 == tsum) by (nonlinear_arith);
    assert(tsum * (-1) == -tsum) by (nonlinear_arith);
    lemma_mul_bound(tsum * ds, SCALE as int, 220_000_000_000_000_000_000_000_000,
        SCALE as int);
    assert(220_000_000_000_000_000_000_000_000 * (SCALE as int)
        == 2_200_000_000_000_000_000_000_000_000_000int) by (nonlinear_arith);
}

} // verus!
