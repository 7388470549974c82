use vstd::prelude::*;

use crate::basic::{DelayedIntersection, Intersection, Ray, ray_at, ray_ok, tau_accepts, tau_t};
use crate::fixed::{
    COORD_MAX, SCALE, T_MAX, iabs, isqrt, lemma_mul_bound, lemma_sqrt_floor, lemma_tdiv_abs_le,
    lemma_tdiv_nonneg, sqrt_floor, tdiv,
};
use crate::lin_alg::{UnitVec3, Vec3, Vec3M, in_range, is_unit, normalize_res, sdot, unit_x_vec};
use crate::material::{Material, material_ok};
use crate::objects::aabb::{Aabb, box_new, box_wf};

verus! {

/// Representation of a sphere.
#[derive(Clone, Copy, Debug, PartialEq)]
pub struct Sphere {
    /// The center point.
    pub center: Vec3,
    /// The radius, a positive fixed-point length.
    pub radius: i64,
    /// The material of the sphere.
    pub material: Material,
}

/// A sphere the renderer can hold: in-range geometry and a shadeable
/// material.
pub open spec fn sphere_wf(s: Sphere) -> bool {
    &&& in_range(s.center)
    &&& 0 < s.radius <= COORD_MAX
    &&& material_ok(s.material)
}

/// The hit time of a ray against a sphere: the quadratic
/// `|o + t*d - c|^2 = r^2` is solved exactly over the integers, and the
/// smallest root beyond `EPS` is returned as a rational (the square root
/// of the discriminant is taken rounded down on the scaled grid).
pub open spec fn sphere_tau(c: Vec3M, radius: int, o: Vec3M, d: Vec3M) -> Option<(int, int)> {
    let sx = o.x - c.x;
    let sy = o.y - c.y;
    let sz = o.z - c.z;
    let qa = d.x * d.x + d.y * d.y + d.z * d.z;
    let qb = 2 * (sx * d.x + sy * d.y + sz * d.z);
    let qc = sx * sx + sy * sy + sz * sz - radius * radius;
    let disc = qb * qb - 4 * qa * qc;
    if qa <= 0 || disc < 0 {
        None
    } else {
        let s = sqrt_floor((disc * SCALE * SCALE) as nat) as int;
        let den = 2 * qa;
        let n1 = -qb * SCALE - s;
        let n2 = -qb * SCALE + s;
        if n1 > den {
            Some((n1, den))
        } else if n2 > den {
            Some((n2, den))
        } else {
            None
        }
    }
}

/// The normal at a hit point: the direction from the center to the
/// point, normalized (a degenerate zero difference falls back to the
/// x-axis).
pub open spec fn sphere_normal(c: Vec3M, p: Vec3M) -> Vec3M {
    let diff = Vec3M { x: (p.x - c.x) as i64, y: (p.y - c.y) as i64, z: (p.z - c.z) as i64 };
    if diff.x == 0 && diff.y == 0 && diff.z == 0 {
        unit_x_vec()
    } else {
        normalize_res(diff)
    }
}

/// Bounds of the quadratic's coefficients for an in-range sphere and ray.
proof fn lemma_sphere_bounds(s: Sphere, r: Ray)
    requires
        sphere_wf(s),
        ray_ok(r),
        is_unit(r.dir.vec()),
    ensures
        ({
            let o = r.origin;
            let c = s.center;
            let d = r.dir.vec();
            let sx = o.x - c.x;
            let sy = o.y - c.y;
            let sz = o.z - c.z;
            &&& 0 <= d.x * d.x <= 4 * SCALE * SCALE
            &&& 0 <= d.y * d.y <= 4 * SCALE * SCALE
            &&& 0 <= d.z * d.z <= 4 * SCALE * SCALE
            &&& iabs(sx * d.x) <= 18_000_000_000_000
            &&& iabs(sy * d.y) <= 18_000_000_000_000
            &&& iabs(sz * d.z) <= 18_000_000_000_000
            &&& 0 <= sx * sx <= 810_000_000_000_000_000
            &&& 0 <= sy * sy <= 810_000_000_000_000_000
            &&& 0 <= sz * sz <= 810_000_000_000_000_000
            &&& 0 <= s.radius * s.radius <= 10_000_000_000_000_000
            &&& 0 < d.x * d.x + d.y * d.y + d.z * d.z <= 12 * SCALE * SCALE
            &&& iabs(2 * (sx * d.x + sy * d.y + sz * d.z)) <= 120_000_000_000_000
            &&& iabs(sx * sx + sy * sy + sz * sz - s.radius * s.radius) <= 3_000_000_000_000_000_000
        }),
{
    crate::fixed::lemma_square((r.origin.x - s.center.x) as int);
    crate::fixed::lemma_square((r.origin.y - s.center.y) as int);
    crate::fixed::lemma_square((r.origin.z - s.center.z) as int);
    crate::fixed::lemma_square(r.dir.vec().x as int);
    crate::fixed::lemma_square(r.dir.vec().y as int);
    crate::fixed::lemma_square(r.dir.vec().z as int);
    crate::fixed::lemma_square(s.radius as int);
    let o = r.origin;
    let c = s.center;
    let d = r.dir.vec();
    let sx = o.x - c.x;
    let sy = o.y - c.y;
    let sz = o.z - c.z;
    assert(d.x * d.x + d.y * d.y + d.z * d.z == sdot(d, d));
    lemma_mul_bound(d.x as int, d.x as int, 2 * SCALE, 2 * SCALE);
    lemma_mul_bound(d.y as int, d.y as int, 2 * SCALE, 2 * SCALE);
    lemma_mul_bound(d.z as int, d.z as int, 2 * SCALE, 2 * SCALE);
    assert(2 * SCALE * (2 * SCALE) == 4 * SCALE * SCALE) by (nonlinear_arith);
    lemma_mul_bound(sx, d.x as int, 9 * COORD_MAX, 2 * SCALE);
    lemma_mul_bound(sy, d.y as int, 9 * COORD_MAX, 2 * SCALE);
    lemma_mul_bound(sz, d.z as int, 9 * COORD_MAX, 2 * SCALE);
    assert(9 * COORD_MAX * (2 * SCALE) == 18_000_000_000_000) by (nonlinear_arith);
    lemma_mul_bound(sx, sx, 9 * COORD_MAX, 9 * COORD_MAX);
    lemma_mul_bound(sy, sy, 9 * COORD_MAX, 9 * COORD_MAX);
    lemma_mul_bound(sz, sz, 9 * COORD_MAX, 9 * COORD_MAX);
    lemma_mul_bound(s.radius as int, s.radius as int, COORD_MAX as int, COORD_MAX as int);
    assert(9 * COORD_MAX * (9 * COORD_MAX) == 810_000_000_000_000_000) by (nonlinear_arith);
    assert(COORD_MAX * COORD_MAX == 10_000_000_000_000_000) by (nonlinear_arith);
}

/// Computes the rational hit time of `r` against the sphere, exactly as
/// `sphere_tau` states it.
fn sphere_tau_exec(s: &Sphere, r: Ray) -> (res: Option<(i128, i128)>)
    requires
        sphere_wf(*s),
        ray_ok(r),
    ensures
        res.is_some() <==> sphere_tau(s.center, s.radius as int, r.origin,
            r.dir.vec()).is_some(),
        res.is_some() ==> {
            &&& res.unwrap().0 == sphere_tau(s.center, s.radius as int, r.origin,
                r.dir.vec()).unwrap().0
            &&& res.unwrap().1 == sphere_tau(s.center, s.radius as int, r.origin,
                r.dir.vec()).unwrap().1
            &&& 1 <= res.unwrap().1 <= 3_000_000_000
            &&& iabs(res.unwrap().0 as int) <= 10_000_000_000_000_000_000_000_000_000_000
        },
{
    proof {
        use_type_invariant(r.dir);
        lemma_sphere_bounds(*s, r);
    }
    let d: Vec3 = r.dir.to();
    let sx: i64 = r.origin.x - s.center.x;
    let sy: i64 = r.origin.y - s.center.y;
    let sz: i64 = r.origin.z - s.center.z;
    let qa: i128 = (d.x as i128) * (d.x as i128) + (d.y as i128) * (d.y as i128) + (d.z as i128)
        * (d.z as i128);
    let qb: i128 = 2 * ((sx as i128) * (d.x as i128) + (sy as i128) * (d.y as i128) + (sz as i128)
        * (d.z as i128));
    let qc: i128 = (sx as i128) * (sx as i128) + (sy as i128) * (sy as i128) + (sz as i128) * (sz
        as i128) - (s.radius as i128) * (s.radius as i128);
    proof {
        lemma_mul_bound(qa as int, qc as int, 12 * SCALE * SCALE, 3_000_000_000_000_000_000);
        lemma_mul_bound(qb as int, qb as int, 120_000_000_000_000, 120_000_000_000_000);
        assert(12 * SCALE * SCALE * 3_000_000_000_000_000_000i128
            == 3_600_000_000_000_000_000_000_000_000i128) by (nonlinear_arith);
        assert(120_000_000_000_000i128 * 120_000_000_000_000i128
            == 14_400_000_000_000_000_000_000_000_000i128) by (nonlinear_arith);
    }
    let disc: i128 = qb * qb - 4 * (qa * qc);
    proof {
        assert(qb * qb - 4 * (qa * qc) == qb * qb - 4 * qa * qc) by (nonlinear_arith);
    }
    if disc < 0 {
        return None;
    }
    proof {
        lemma_mul_bound(
            disc as int,
            (SCALE as int) * (SCALE as int),
            30_000_000_000_000_000_000_000_000_000,
            (SCALE as int) * (SCALE as int),
        );
        assert(30_000_000_000_000_000_000_000_000_000i128 * ((SCALE as int) * (SCALE as int))
            < u128::MAX) by (nonlinear_arith);
        lemma_sqrt_s_bound(disc as int);
    }
    let sq: u128 = isqrt((disc as u128) * ((SCALE as u128) * (SCALE as u128)));
    let sqi: i128 = sq as i128;
    let den: i128 = 2 * qa;
    let n1: i128 = -qb * (SCALE as i128) - sqi;
    let n2: i128 = -qb * (SCALE as i128) + sqi;
    proof {
        assert(disc * ((SCALE as int) * (SCALE as int)) == disc * SCALE * SCALE)
            by (nonlinear_arith);
        lemma_mul_bound(qb as int, SCALE as int, 120_000_000_000_000, SCALE as int);
    }
    if n1 > den {
        Some((n1, den))
    } else if n2 > den {
        Some((n2, den))
    } else {
        None
    }
}

/// The scaled square root of the discriminant stays well inside `i128`.
proof fn lemma_sqrt_s_bound(disc: int)
    requires
        0 <= disc <= 30_000_000_000_000_000_000_000_000_000,
    ensures
        0 <= sqrt_floor((disc * SCALE * SCALE) as nat) <= 2_000_000_000_000_000_000,
{
    let n = (disc * SCALE * SCALE) as nat;
    lemma_sqrt_floor(n);
    assert(disc * SCALE * SCALE <= 3_000_000_000_000_000_000_000_000_000_000_000_000)
        by (nonlinear_arith)
        requires
            0 <= disc <= 30_000_000_000_000_000_000_000_000_000,
    ;
    let s = sqrt_floor(n);
    if s > 2_000_000_000_000_000_000 {
        assert((s as int) * (s as int) > 3_000_000_000_000_000_000_000_000_000_000_000_000)
            by (nonlinear_arith)
            requires
                s as int > 2_000_000_000_000_000_000,
        ;
    }
}

impl Sphere {
    /// Returns information about the intersection of the sphere and the
    /// ray, if one exists within `(EPS, t_max]`.
    pub fn intersect(&self, ray: Ray, t_max: i64) -> (res: Option<DelayedIntersection>)
        requires
            sphere_wf(*self),
            ray_ok(ray),
            0 <= t_max <= T_MAX,
        ensures
            res.is_some() <==> tau_accepts(
                sphere_tau(self.center, self.radius as int, ray.origin, ray.dir.vec()),
                t_max as int,
            ),
            res.is_some() ==> {
                let tau = sphere_tau(self.center, self.radius as int, ray.origin, ray.dir.vec());
                &&& res.unwrap().t == tau_t(tau)
                &&& res.unwrap().inter.t == tau_t(tau)
                &&& res.unwrap().inter.point == ray_at(ray, tau_t(tau))
                &&& res.unwrap().inter.normal.vec() == sphere_normal(self.center, ray_at(ray,
                    tau_t(tau)))
                &&& res.unwrap().inter.material == self.material
            },
            res.is_some() ==> 0 <= res.unwrap().t <= t_max,
    {
        let tau: Option<(i128, i128)> = sphere_tau_exec(self, ray);
        match tau {
            None => None,
            Some((n, den)) => {
                proof {
                    lemma_mul_bound(t_max as int, den as int, T_MAX as int, 3_000_000_000);
                }
                if n > (t_max as i128) * den {
                    return None;
                }
                proof {
                    lemma_tdiv_nonneg(n as int, den as int);
                    assert(n < (t_max + 1) * den) by (nonlinear_arith)
                        requires
                            n <= t_max * den,
                            den >= 1,
                    ;
                    lemma_tdiv_abs_le(n as int, den as int, t_max as int);
                }
                let t: i64 = crate::fixed::tdiv128(n, den) as i64;
                let p: Vec3 = crate::basic::ray_point_at(ray, t);
                proof {
                    use_type_invariant(ray.dir);
                    crate::basic::lemma_ray_at_in_reach(ray, t as int);
                }
                let dx: i64 = p.x - self.center.x;
                let dy: i64 = p.y - self.center.y;
                let dz: i64 = p.z - self.center.z;
                let normal: UnitVec3 = if dx == 0 && dy == 0 && dz == 0 {
                    Vec3M::e1()
                } else {
                    Vec3M::new(dx, dy, dz).normalize()
                };
                Some(DelayedIntersection::new(t, Intersection::new(ray, t, normal, self.material)))
            },
        }
    }

    /// Checks whether the ray hits the sphere within `(EPS, t_max]`.
    pub fn is_hit_by(&self, ray: Ray, t_max: i64) -> (res: bool)
        requires
            sphere_wf(*self),
            ray_ok(ray),
            0 <= t_max <= T_MAX,
        ensures
            res == tau_accepts(
                sphere_tau(self.center, self.radius as int, ray.origin, ray.dir.vec()),
                t_max as int,
            ),
    {
        let tau: Option<(i128, i128)> = sphere_tau_exec(self, ray);
        match tau {
            None => false,
            Some((n, den)) => {
                proof {
                    lemma_mul_bound(t_max as int, den as int, T_MAX as int, 3_000_000_000);
                }
                n <= (t_max as i128) * den
            },
        }
    }

    /// Returns the tight axis-aligned bounding box of the sphere.
    pub fn bounding_box(&self) -> (res: Option<Aabb>)
        requires
            sphere_wf(*self),
        ensures
            res.is_some(),
            res.unwrap() == box_new(
                Vec3M {
                    x: (self.center.x - self.radius) as i64,
                    y: (self.center.y - self.radius) as i64,
                    z: (self.center.z - self.radius) as i64,
                },
                Vec3M {
                    x: (self.center.x + self.radius) as i64,
                    y: (self.center.y + self.radius) as i64,
                    z: (self.center.z + self.radius) as i64,
                },
            ),
            box_wf(res.unwrap()),
    {
        let lo: Vec3 = Vec3M::new(
            self.center.x - self.radius,
            self.center.y - self.radius,
            self.center.z - self.radius,
        );
        let hi: Vec3 = Vec3M::new(
            self.center.x + self.radius,
            self.center.y + self.radius,
            self.center.z + self.radius,
        );
        Some(Aabb::new(lo, hi))
    }
}

} // verus!
