use vstd::prelude::*;

use crate::basic::{DelayedIntersection, Intersection, Ray, ray_at, ray_ok, tau_accepts, tau_t};
use crate::fixed::{COORD_MAX, SCALE, T_MAX, iabs, lemma_mul_bound, lemma_tdiv_abs_le,
    lemma_tdiv_nonneg};
use crate::lin_alg::{UnitVec3, Vec3, Vec3M, sdot};
use crate::material::{Material, material_ok};
use crate::objects::aabb::Aabb;
use crate::physics::{lemma_udot_bound, udot};

verus! {

/// Representation of a plane.
#[derive(Clone, Copy, Debug, PartialEq)]
pub struct Plane {
    /// Normal vector of the plane.
    pub normal: UnitVec3,
    /// The offset: `normal . x` for any point `x` on the plane.
    pub offset: i64,
    /// The material of the plane.
    pub material: Material,
}

/// A plane the renderer can hold.
pub open spec fn plane_wf(p: Plane) -> bool {
    &&& iabs(p.offset as int) <= COORD_MAX
    &&& material_ok(p.material)
}

/// The hit time of a ray against a plane, as an exact rational: the
/// solution of `normal . (o + t * d) == offset`, rejected when the ray
/// runs nearly parallel to the plane (`|normal . d| < EPS`) or meets it
/// at or before `EPS`.
pub open spec fn plane_tau(n: Vec3M, offset: int, o: Vec3M, d: Vec3M) -> Option<(int, int)> {
    let nd = sdot(n, d);
    if iabs(nd) < SCALE {
        None
    } else {
        let sgn: int = if nd > 0 {
            1
        } else {
            -1
        };
        let num = (offset * SCALE - sdot(n, o)) * SCALE * sgn;
        let den = nd * sgn;
        if num > den {
            Some((num, den))
        } else {
            None
        }
    }
}

/// The normal handed out at a hit: oriented against the incoming ray.
pub open spec fn plane_hit_normal(n: Vec3M, d: Vec3M) -> Vec3M {
    if sdot(n, d) < 0 {
        n
    } else {
        Vec3M { x: (-n.x) as i64, y: (-n.y) as i64, z: (-n.z) as i64 }
    }
}

/// Bounds of the plane solution terms.
proof fn lemma_plane_bounds(p: Plane, r: Ray)
    requires
        plane_wf(p),
        ray_ok(r),
        crate::lin_alg::is_unit(p.normal.vec()),
        crate::lin_alg::is_unit(r.dir.vec()),
    ensures
        iabs(p.normal.vec().x * r.dir.vec().x) <= 4 * SCALE * SCALE,
        iabs(p.normal.vec().y * r.dir.vec().y) <= 4 * SCALE * SCALE,
        iabs(p.normal.vec().z * r.dir.vec().z) <= 4 * SCALE * SCALE,
        iabs(p.normal.vec().x * r.origin.x) <= 16_000_000_000_000,
        iabs(p.normal.vec().y * r.origin.y) <= 16_000_000_000_000,
        iabs(p.normal.vec().z * r.origin.z) <= 16_000_000_000_000,
        iabs(sdot(p.normal.vec(), r.dir.vec())) <= 12 * SCALE * SCALE,
        iabs(sdot(p.normal.vec(), r.origin)) <= 48_000_000_000_000,
        iabs(p.offset * SCALE) <= 1_000_000_000_000,
        iabs((p.offset * SCALE - sdot(p.normal.vec(), r.origin)) * SCALE)
            <= 500_000_000_000_000_000,
{
    let n = p.normal.vec();
    let o = r.origin;
    lemma_mul_bound(n.x as int, r.dir.vec().x as int, 2 * SCALE, 2 * SCALE);
    lemma_mul_bound(n.y as int, r.dir.vec().y as int, 2 * SCALE, 2 * SCALE);
    lemma_mul_bound(n.z as int, r.dir.vec().z as int, 2 * SCALE, 2 * SCALE);
    assert(2 * SCALE * (2 * SCALE) == 4 * SCALE * SCALE) by (nonlinear_arith);
    lemma_mul_bound(n.x as int, o.x as int, 2 * SCALE, 8 * COORD_MAX);
    lemma_mul_bound(n.y as int, o.y as int, 2 * SCALE, 8 * COORD_MAX);
    lemma_mul_bound(n.z as int, o.z as int, 2 * SCALE, 8 * COORD_MAX);
    assert(2 * SCALE * (8 * COORD_MAX) == 16_000_000_000_000) by (nonlinear_arith);
    lemma_mul_bound(p.offset as int, SCALE as int, COORD_MAX as int, SCALE as int);
    lemma_mul_bound(
        p.offset * SCALE - sdot(n, o),
        SCALE as int,
        49_000_000_000_000,
        SCALE as int,
    );
}

/// Computes the rational hit time of `r` against the plane.
fn plane_tau_exec(p: &Plane, r: Ray) -> (res: Option<(i128, i128)>)
    requires
        plane_wf(*p),
        ray_ok(r),
    ensures
        res.is_some() <==> plane_tau(p.normal.vec(), p.offset as int, r.origin,
            r.dir.vec()).is_some(),
        res.is_some() ==> {
            &&& res.unwrap().0 == plane_tau(p.normal.vec(), p.offset as int, r.origin,
                r.dir.vec()).unwrap().0
            &&& res.unwrap().1 == plane_tau(p.normal.vec(), p.offset as int, r.origin,
                r.dir.vec()).unwrap().1
            &&& 1 <= res.unwrap().1 <= 12 * SCALE * SCALE
            &&& iabs(res.unwrap().0 as int) <= 500_000_000_000_000_000
        },
{
    proof {
        use_type_invariant(r.dir);
        use_type_invariant(p.normal);
        lemma_plane_bounds(*p, r);
    }
    let n: Vec3 = p.normal.to();
    let d: Vec3 = r.dir.to();
    let o: Vec3 = r.origin;
    let nd: i128 = (n.x as i128) * (d.x as i128) + (n.y as i128) * (d.y as i128) + (n.z as i128)
        * (d.z as i128);
    if -(SCALE as i128) < nd && nd < (SCALE as i128) {
        return None;
    }
    let no: i128 = (n.x as i128) * (o.x as i128) + (n.y as i128) * (o.y as i128) + (n.z as i128)
        * (o.z as i128);
    let sgn: i128 = if nd > 0 {
        1
    } else {
        -1
    };
    let num: i128 = ((p.offset as i128) * (SCALE as i128) - no) * (SCALE as i128) * sgn;
    let den: i128 = nd * sgn;
    proof {
        assert((p.offset * SCALE - sdot(p.normal.vec(), r.origin)) * SCALE * 1 == (p.offset * SCALE
            - sdot(p.normal.vec(), r.origin)) * SCALE) by (nonlinear_arith);
        assert(((p.offset as int) * (SCALE as int) - no as int) * (SCALE as int) * (-1) == -(((
        p.offset as int) * (SCALE as int) - no as int) * (SCALE as int))) by (nonlinear_arith);
    }
    if num > den {
        Some((num, den))
    } else {
        None
    }
}

impl Plane {
    /// Returns information about the intersection of the plane and the
    /// ray, if one exists within `(EPS, t_max]`.
    pub fn intersect(&self, ray: Ray, t_max: i64) -> (res: Option<DelayedIntersection>)
        requires
            plane_wf(*self),
            ray_ok(ray),
            0 <= t_max <= T_MAX,
        ensures
            res.is_some() <==> tau_accepts(
                plane_tau(self.normal.vec(), self.offset as int, ray.origin, ray.dir.vec()),
                t_max as int,
            ),
            res.is_some() ==> {
                let tau = plane_tau(self.normal.vec(), self.offset as int, ray.origin,
                    ray.dir.vec());
                &&& res.unwrap().t == tau_t(tau)
                &&& res.unwrap().inter.t == tau_t(tau)
                &&& res.unwrap().inter.point == ray_at(ray, tau_t(tau))
                &&& res.unwrap().inter.normal.vec() == plane_hit_normal(self.normal.vec(),
                    ray.dir.vec())
                &&& res.unwrap().inter.material == self.material
            },
            res.is_some() ==> 0 <= res.unwrap().t <= t_max,
    {
        let tau: Option<(i128, i128)> = plane_tau_exec(self, ray);
        match tau {
            None => None,
            Some((num, den)) => {
                proof {
                    lemma_mul_bound(t_max as int, den as int, T_MAX as int, 12 * SCALE * SCALE);
                    assert(T_MAX * (12 * SCALE * SCALE) < i128::MAX) by (nonlinear_arith);
                }
                if num > (t_max as i128) * den {
                    return None;
                }
                proof {
                    lemma_tdiv_nonneg(num as int, den as int);
                    assert(num < (t_max + 1) * den) by (nonlinear_arith)
                        requires
                            num <= t_max * den,
                            den >= 1,
                    ;
                    lemma_tdiv_abs_le(num as int, den as int, t_max as int);
                    use_type_invariant(self.normal);
                    use_type_invariant(ray.dir);
                    lemma_udot_bound(self.normal.vec(), ray.dir.vec());
                }
                let t: i64 = crate::fixed::tdiv128(num, den) as i64;
                let nd: i64 = self.normal.to().dot(ray.dir.to());
                let normal: UnitVec3 = if nd < 0 {
                    self.normal
                } else {
                    self.normal.neg()
                };
                proof {
                    lemma_dot_sign(self.normal.vec(), ray.dir.vec());
                }
                Some(DelayedIntersection::new(t, Intersection::new(ray, t, normal, self.material)))
            },
        }
    }

    /// Checks whether the ray hits the plane within `(EPS, t_max]`.
    pub fn is_hit_by(&self, ray: Ray, t_max: i64) -> (res: bool)
        requires
            plane_wf(*self),
            ray_ok(ray),
            0 <= t_max <= T_MAX,
        ensures
            res == tau_accepts(
                plane_tau(self.normal.vec(), self.offset as int, ray.origin, ray.dir.vec()),
                t_max as int,
            ),
    {
        let tau: Option<(i128, i128)> = plane_tau_exec(self, ray);
        match tau {
            None => false,
            Some((num, den)) => {
                proof {
                    lemma_mul_bound(t_max as int, den as int, T_MAX as int, 12 * SCALE * SCALE);
                    assert(T_MAX * (12 * SCALE * SCALE) < i128::MAX) by (nonlinear_arith);
                }
                num <= (t_max as i128) * den
            },
        }
    }

    /// A plane is unbounded: it has no finite bounding box.
    pub fn bounding_box(&self) -> (res: Option<Aabb>)
        ensures
            res.is_none(),
    {
        None
    }
}

/// Away from the near-parallel band the fixed-point dot product has the
/// sign of the exact one.
proof fn lemma_dot_sign(a: Vec3M, b: Vec3M)
    requires
        iabs(sdot(a, b)) >= SCALE,
    ensures
        (udot(a, b) < 0) == (sdot(a, b) < 0),
{
    if sdot(a, b) >= 0 {
        crate::fixed::lemma_tdiv_nonneg(sdot(a, b), SCALE as int);
    } else {
        assert((-sdot(a, b)) / (SCALE as int) >= 1) by (nonlinear_arith)
            requires
                -sdot(a, b) >= SCALE,
                SCALE >= 1,
        ;
    }
}

} // verus!
