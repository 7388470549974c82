use vstd::prelude::*;

use crate::basic::{DelayedIntersection, Ray, ray_at, ray_ok, tau_accepts, tau_t};
use crate::fixed::{T_MAX, tdiv};
use crate::lin_alg::{Vec3M, is_unit};
use crate::objects::aabb::{Aabb, box_intersect_spec, box_tau, box_wf, axis_unit_vec, win_init,
    win_of, win_step};
use crate::objects::bvh::{BVH, SurfaceContainer, bvh_wf, scan_any_hit, scan_result_ok, tau_ge};
use crate::objects::mesh::{Mesh, mesh_tau};
use crate::objects::plane::{Plane, plane_hit_normal, plane_tau, plane_wf};
use crate::objects::sphere::{Sphere, sphere_normal, sphere_tau, sphere_wf};
use crate::objects::triangle::{Triangle, triangle_normal, triangle_tau, triangle_wf};

verus! {

/// Anything a ray can be tested against: a closed set of surface kinds
/// sharing one intersection contract.  Every kind obeys the law that
/// `is_hit_by` answers exactly whether `intersect` finds a hit.
pub enum Surface {
    /// A sphere.
    Sphere(Sphere),
    /// An infinite plane.
    Plane(Plane),
    /// A single triangle.
    Triangle(Triangle),
    /// A triangle mesh behind its bounding volume hierarchy.
    Mesh(BVH<Mesh>),
    /// A bare box boundary, for making boxes visible while debugging.
    BoundingBox(Aabb),
}

/// A surface the renderer can hold.
pub open spec fn surface_wf(s: &Surface) -> bool {
    match s {
        Surface::Sphere(sp) => sphere_wf(*sp),
        Surface::Plane(p) => plane_wf(*p),
        Surface::Triangle(t) => triangle_wf(*t),
        Surface::Mesh(b) => bvh_wf(b),
        Surface::BoundingBox(b) => box_wf(*b),
    }
}

/// Whether the surface reports a hit for the ray within `(EPS, t_max]`.
pub open spec fn surface_would_hit(s: &Surface, r: Ray, m: int) -> bool {
    match s {
        Surface::Sphere(sp) => tau_accepts(sphere_tau(sp.center, sp.radius as int, r.origin,
            r.dir.vec()), m),
        Surface::Plane(p) => tau_accepts(plane_tau(p.normal.vec(), p.offset as int, r.origin,
            r.dir.vec()), m),
        Surface::Triangle(t) => tau_accepts(triangle_tau(t.a, t.b, t.c, r.origin, r.dir.vec()),
            m),
        Surface::Mesh(b) => scan_any_hit(&b.container, r, m),
        Surface::BoundingBox(b) => box_intersect_spec(*b, r.origin, r.dir.vec(), m).is_some(),
    }
}

/// Whether every hit the surface could report lies at or beyond the
/// fixed-point distance `t`.
pub open spec fn surface_clear_below(s: &Surface, r: Ray, t: int) -> bool {
    match s {
        Surface::Sphere(sp) => tau_ge(sphere_tau(sp.center, sp.radius as int, r.origin,
            r.dir.vec()), t),
        Surface::Plane(p) => tau_ge(plane_tau(p.normal.vec(), p.offset as int, r.origin,
            r.dir.vec()), t),
        Surface::Triangle(tr) => tau_ge(triangle_tau(tr.a, tr.b, tr.c, r.origin, r.dir.vec()),
            t),
        Surface::Mesh(b) => forall|i: int|
            0 <= i < b.container.count_spec() ==> tau_ge(
                #[trigger] b.container.elem_tau(i, r),
                t,
            ),
        Surface::BoundingBox(b) => match box_tau(*b, r.origin, r.dir.vec()) {
            None => true,
            Some(p) => p.0 >= t * p.1,
        },
    }
}

/// What a hit record reported by the surface holds: the rounded hit
/// distance, the point on the ray, the surface's normal and material.
pub open spec fn surface_hit_data(s: &Surface, r: Ray, d: DelayedIntersection) -> bool {
    &&& d.inter.t == d.t
    &&& d.inter.point == ray_at(r, d.t as int)
    &&& match s {
        Surface::Sphere(sp) => {
            &&& d.t == tau_t(sphere_tau(sp.center, sp.radius as int, r.origin, r.dir.vec()))
            &&& d.inter.normal.vec() == sphere_normal(sp.center, ray_at(r, d.t as int))
            &&& d.inter.material == sp.material
        },
        Surface::Plane(p) => {
            &&& d.t == tau_t(plane_tau(p.normal.vec(), p.offset as int, r.origin, r.dir.vec()))
            &&& d.inter.normal.vec() == plane_hit_normal(p.normal.vec(), r.dir.vec())
            &&& d.inter.material == p.material
        },
        Surface::Triangle(t) => {
            &&& d.t == tau_t(triangle_tau(t.a, t.b, t.c, r.origin, r.dir.vec()))
            &&& d.inter.normal.vec() == triangle_normal(t.a, t.b, t.c, r.dir.vec())
            &&& d.inter.material == t.material
        },
        Surface::Mesh(b) => exists|i: int|
            0 <= i < b.container.count_spec() && tau_accepts(
                #[trigger] b.container.elem_tau(i, r),
                d.t as int + 1,
            ) && crate::objects::bvh::elem_hit_data_ok(&b.container, i, r, d),
        Surface::BoundingBox(b) => {
            &&& box_tau(*b, r.origin, r.dir.vec()).is_some()
            &&& d.t == tdiv(
                box_tau(*b, r.origin, r.dir.vec()).unwrap().0,
                box_tau(*b, r.origin, r.dir.vec()).unwrap().1,
            )
            &&& d.inter.normal.vec() == axis_unit_vec(
                box_tau(*b, r.origin, r.dir.vec()).unwrap().2,
            )
        },
    }
}

impl Surface {
    /// Returns information about the nearest intersection of the surface
    /// and the ray within `(EPS, t_max]`, if one exists.
    pub fn intersect(&self, ray: Ray, t_max: i64) -> (res: Option<DelayedIntersection>)
        requires
            surface_wf(self),
            ray_ok(ray),
            0 <= t_max <= T_MAX,
        ensures
            res.is_some() == surface_would_hit(self, ray, t_max as int),
            res.is_some() ==> {
                &&& surface_hit_data(self, ray, res.unwrap())
                &&& surface_clear_below(self, ray, res.unwrap().t as int)
                &&& 0 <= res.unwrap().t <= t_max
                &&& crate::material::material_ok(res.unwrap().inter.material)
            },
    {
        match self {
            Surface::Sphere(sp) => {
                let res: Option<DelayedIntersection> = sp.intersect(ray, t_max);
                proof {
                    let tau = sphere_tau(sp.center, sp.radius as int, ray.origin, ray.dir.vec());
                    if res.is_some() {
                        assert(tau.unwrap().1 >= 1 && tau.unwrap().0 > tau.unwrap().1);
                        lemma_prim_clear(tau, res);
                    }
                }
                res
            },
            Surface::Plane(p) => {
                let res: Option<DelayedIntersection> = p.intersect(ray, t_max);
                proof {
                    let tau = plane_tau(p.normal.vec(), p.offset as int, ray.origin,
                        ray.dir.vec());
                    if res.is_some() {
                        let nd = crate::lin_alg::sdot(p.normal.vec(), ray.dir.vec());
                        if nd > 0 {
                            assert(nd * 1 == nd) by (nonlinear_arith);
                        } else {
                            assert(nd * (-1) == -nd) by (nonlinear_arith);
                        }
                        assert(tau.unwrap().1 >= 1 && tau.unwrap().0 > tau.unwrap().1);
                        lemma_prim_clear(tau, res);
                    }
                }
                res
            },
            Surface::Triangle(t) => {
                let res: Option<DelayedIntersection> = t.intersect(ray, t_max);
                proof {
                    let tau = triangle_tau(t.a, t.b, t.c, ray.origin, ray.dir.vec());
                    if res.is_some() {
                        use_type_invariant(ray.dir);
                        crate::objects::triangle::lemma_triangle_tau_bounds(
                            t.a,
                            t.b,
                            t.c,
                            ray.origin,
                            ray.dir.vec(),
                        );
                        lemma_prim_clear(tau, res);
                    }
                }
                res
            },
            Surface::Mesh(b) => {
                let res: Option<DelayedIntersection> = b.intersect(ray, t_max);
                proof {
                    if res.is_some() {
                        let d = res.unwrap();
                        let i0 = choose|i: int|
                            0 <= i < b.container.count_spec() && tau_accepts(
                                #[trigger] b.container.elem_tau(i, ray),
                                t_max as int,
                            ) && crate::objects::bvh::elem_hit_data_ok(&b.container, i, ray, d);
                        use_type_invariant(ray.dir);
                        b.container.lemma_elem_tau_ok(i0, ray);
                        let tau = b.container.elem_tau(i0, ray).unwrap();
                        crate::objects::bvh::lemma_rat_floor_lt(tau.0, tau.1);
                    }
                }
                res
            },
            Surface::BoundingBox(b) => {
                let res: Option<crate::basic::Intersection> = b.intersect(ray, t_max);
                match res {
                    None => None,
                    Some(inter) => {
                        proof {
                            crate::objects::aabb::lemma_box_tau_pos(*b, ray.origin,
                                ray.dir.vec());
                            let p = box_tau(*b, ray.origin, ray.dir.vec()).unwrap();
                            crate::objects::bvh::lemma_rat_floor_lt(p.0, p.1);
                        }
                        Some(DelayedIntersection::new(inter.t, inter))
                    },
                }
            },
        }
    }

    /// Checks whether the ray hits the surface within `(EPS, t_max]`.
    pub fn is_hit_by(&self, ray: Ray, t_max: i64) -> (res: bool)
        requires
            surface_wf(self),
            ray_ok(ray),
            0 <= t_max <= T_MAX,
        ensures
            res == surface_would_hit(self, ray, t_max as int),
    {
        match self {
            Surface::Sphere(sp) => sp.is_hit_by(ray, t_max),
            Surface::Plane(p) => p.is_hit_by(ray, t_max),
            Surface::Triangle(t) => t.is_hit_by(ray, t_max),
            Surface::Mesh(b) => b.is_hit_by(ray, t_max),
            Surface::BoundingBox(b) => b.boundary_is_hit_by(ray, t_max),
        }
    }

    /// Returns a finite axis-aligned bounding box, if one exists: the
    /// tight box of a sphere or triangle, the hierarchy's root box for a
    /// fully boxed mesh, none for a plane or a mesh with unbounded
    /// elements.
    pub fn bounding_box(&self) -> (res: Option<Aabb>)
        requires
            surface_wf(self),
        ensures
            self matches Surface::Sphere(sp) ==> res == Some(
                crate::objects::aabb::box_new(
                    Vec3M {
                        x: (sp.center.x - sp.radius) as i64,
                        y: (sp.center.y - sp.radius) as i64,
                        z: (sp.center.z - sp.radius) as i64,
                    },
                    Vec3M {
                        x: (sp.center.x + sp.radius) as i64,
                        y: (sp.center.y + sp.radius) as i64,
                        z: (sp.center.z + sp.radius) as i64,
                    },
                ),
            ),
            self is Plane ==> res.is_none(),
            self matches Surface::Triangle(t) ==> res == Some(
                crate::objects::triangle::triangle_box(t.a, t.b, t.c),
            ),
            self matches Surface::Mesh(b) ==> {
                &&& (res.is_some() <==> forall|i: int|
                    0 <= i < b.container.count_spec() ==> (#[trigger] b.container.elem_box(
                        i,
                    )).is_some())
                &&& res.is_some() ==> res.unwrap() == b.root_node.bounding_box
            },
            self matches Surface::BoundingBox(bx) ==> res == Some(*bx),
    {
        match self {
            Surface::Sphere(sp) => sp.bounding_box(),
            Surface::Plane(p) => p.bounding_box(),
            Surface::Triangle(t) => t.bounding_box(),
            Surface::Mesh(b) => b.bounding_box(),
            Surface::BoundingBox(b) => Some(*b),
        }
    }
}

/// A primitive's reported hit distance rounds its rational hit time
/// down, so every later hit of the same primitive lies at or beyond it.
proof fn lemma_prim_clear(tau: Option<(int, int)>, res: Option<DelayedIntersection>)
    requires
        res.is_some() ==> tau.is_some() && tau.unwrap().1 >= 1 && tau.unwrap().0 > tau.unwrap().1
            && res.unwrap().t == tdiv(tau.unwrap().0, tau.unwrap().1),
    ensures
        res.is_some() ==> tau_ge(tau, res.unwrap().t as int),
{
    if res.is_some() {
        let p = tau.unwrap();
        assert(p.0 >= tdiv(p.0, p.1) * p.1) by (nonlinear_arith)
            requires
                p.0 >= 0,
                p.1 >= 1,
        ;
    }
}

} // verus!

verus! {

/// A surface that reports no hit within the bound is clear below any
/// distance inside that bound.
pub proof fn lemma_surface_clear_from_miss(s: &Surface, r: Ray, m: int, t: int)
    requires
        surface_wf(s),
        ray_ok(r),
        is_unit(r.dir.vec()),
        0 <= t <= m,
        !surface_would_hit(s, r, m),
    ensures
        surface_clear_below(s, r, t),
{
    match s {
        Surface::Sphere(sp) => {
            let tau = sphere_tau(sp.center, sp.radius as int, r.origin, r.dir.vec());
            if tau.is_some() {
                crate::objects::bvh::lemma_rat_int_mono(tau.unwrap().0, tau.unwrap().1, t, m);
            }
        },
        Surface::Plane(p) => {
            let tau = plane_tau(p.normal.vec(), p.offset as int, r.origin, r.dir.vec());
            if tau.is_some() {
                let nd = crate::lin_alg::sdot(p.normal.vec(), r.dir.vec());
                if nd > 0 {
                    assert(nd * 1 == nd) by (nonlinear_arith);
                } else {
                    assert(nd * (-1) == -nd) by (nonlinear_arith);
                }
                crate::objects::bvh::lemma_rat_int_mono(tau.unwrap().0, tau.unwrap().1, t, m);
            }
        },
        Surface::Triangle(tr) => {
            let tau = triangle_tau(tr.a, tr.b, tr.c, r.origin, r.dir.vec());
            if tau.is_some() {
                crate::objects::triangle::lemma_triangle_tau_bounds(tr.a, tr.b, tr.c, r.origin,
                    r.dir.vec());
                crate::objects::bvh::lemma_rat_int_mono(tau.unwrap().0, tau.unwrap().1, t, m);
            }
        },
        Surface::Mesh(b) => {
            assert forall|i: int| 0 <= i < b.container.count_spec() implies tau_ge(
                #[trigger] b.container.elem_tau(i, r),
                t,
            ) by {
                if b.container.elem_tau(i, r).is_some() {
                    b.container.lemma_elem_tau_ok(i, r);
                    let tau = b.container.elem_tau(i, r).unwrap();
                    assert(!tau_accepts(b.container.elem_tau(i, r), m));
                    crate::objects::bvh::lemma_rat_int_mono(tau.0, tau.1, t, m);
                }
            }
        },
        Surface::BoundingBox(b) => {
            match box_tau(*b, r.origin, r.dir.vec()) {
                None => {
                },
                Some(p) => {
                    crate::objects::aabb::lemma_box_tau_pos(*b, r.origin, r.dir.vec());
                    crate::objects::bvh::lemma_rat_int_mono(p.0, p.1, t, m);
                },
            }
        },
    }
}

/// Being clear below a distance carries down to smaller distances.
pub proof fn lemma_surface_clear_mono(s: &Surface, r: Ray, t1: int, t2: int)
    requires
        surface_wf(s),
        ray_ok(r),
        is_unit(r.dir.vec()),
        0 <= t1 <= t2,
        surface_clear_below(s, r, t2),
    ensures
        surface_clear_below(s, r, t1),
{
    match s {
        Surface::Sphere(sp) => {
            let tau = sphere_tau(sp.center, sp.radius as int, r.origin, r.dir.vec());
            if tau.is_some() {
                crate::objects::bvh::lemma_rat_int_mono(tau.unwrap().0, tau.unwrap().1, t1, t2);
            }
        },
        Surface::Plane(p) => {
            let tau = plane_tau(p.normal.vec(), p.offset as int, r.origin, r.dir.vec());
            if tau.is_some() {
                let nd = crate::lin_alg::sdot(p.normal.vec(), r.dir.vec());
                if nd > 0 {
                    assert(nd * 1 == nd) by (nonlinear_arith);
                } else {
                    assert(nd * (-1) == -nd) by (nonlinear_arith);
                }
                crate::objects::bvh::lemma_rat_int_mono(tau.unwrap().0, tau.unwrap().1, t1, t2);
            }
        },
        Surface::Triangle(tr) => {
            let tau = triangle_tau(tr.a, tr.b, tr.c, r.origin, r.dir.vec());
            if tau.is_some() {
                crate::objects::triangle::lemma_triangle_tau_bounds(tr.a, tr.b, tr.c, r.origin,
                    r.dir.vec());
                crate::objects::bvh::lemma_rat_int_mono(tau.unwrap().0, tau.unwrap().1, t1, t2);
            }
        },
        Surface::Mesh(b) => {
            assert forall|i: int| 0 <= i < b.container.count_spec() implies tau_ge(
                #[trigger] b.container.elem_tau(i, r),
                t1,
            ) by {
                if b.container.elem_tau(i, r).is_some() {
                    b.container.lemma_elem_tau_ok(i, r);
                    let tau = b.container.elem_tau(i, r).unwrap();
                    assert(tau_ge(b.container.elem_tau(i, r), t2));
                    crate::objects::bvh::lemma_rat_int_mono(tau.0, tau.1, t1, t2);
                }
            }
        },
        Surface::BoundingBox(b) => {
            match box_tau(*b, r.origin, r.dir.vec()) {
                None => {
                },
                Some(p) => {
                    crate::objects::aabb::lemma_box_tau_pos(*b, r.origin, r.dir.vec());
                    crate::objects::bvh::lemma_rat_int_mono(p.0, p.1, t1, t2);
                },
            }
        },
    }
}

/// A hit within a smaller bound is a hit within a larger one.
pub proof fn lemma_surface_hit_mono(s: &Surface, r: Ray, m1: int, m2: int)
    requires
        surface_wf(s),
        ray_ok(r),
        is_unit(r.dir.vec()),
        0 <= m1 <= m2,
        surface_would_hit(s, r, m1),
    ensures
        surface_would_hit(s, r, m2),
{
    match s {
        Surface::Sphere(sp) => {
            let tau = sphere_tau(sp.center, sp.radius as int, r.origin, r.dir.vec());
            crate::objects::bvh::lemma_rat_int_mono(tau.unwrap().0, tau.unwrap().1, m1, m2);
        },
        Surface::Plane(p) => {
            let tau = plane_tau(p.normal.vec(), p.offset as int, r.origin, r.dir.vec());
            let nd = crate::lin_alg::sdot(p.normal.vec(), r.dir.vec());
            if nd > 0 {
                assert(nd * 1 == nd) by (nonlinear_arith);
            } else {
                assert(nd * (-1) == -nd) by (nonlinear_arith);
            }
            crate::objects::bvh::lemma_rat_int_mono(tau.unwrap().0, tau.unwrap().1, m1, m2);
        },
        Surface::Triangle(tr) => {
            let tau = triangle_tau(tr.a, tr.b, tr.c, r.origin, r.dir.vec());
            crate::objects::triangle::lemma_triangle_tau_bounds(tr.a, tr.b, tr.c, r.origin,
                r.dir.vec());
            crate::objects::bvh::lemma_rat_int_mono(tau.unwrap().0, tau.unwrap().1, m1, m2);
        },
        Surface::Mesh(b) => {
            let i0 = choose|i: int|
                0 <= i < b.container.count_spec() && tau_accepts(
                    #[trigger] b.container.elem_tau(i, r),
                    m1,
                );
            b.container.lemma_elem_tau_ok(i0, r);
            let tau = b.container.elem_tau(i0, r).unwrap();
            crate::objects::bvh::lemma_rat_int_mono(tau.0, tau.1, m1, m2);
            assert(tau_accepts(b.container.elem_tau(i0, r), m2));
        },
        Surface::BoundingBox(b) => {
            match box_tau(*b, r.origin, r.dir.vec()) {
                None => {
                },
                Some(p) => {
                    crate::objects::aabb::lemma_box_tau_pos(*b, r.origin, r.dir.vec());
                    crate::objects::bvh::lemma_rat_int_mono(p.0, p.1, m1, m2);
                },
            }
        },
    }
}

} // verus!

verus! {

/// Whether a surface reports a hit depends on the ray only through its
/// origin and the direction's coordinates.
pub proof fn lemma_would_hit_same_ray(s: &Surface, r1: Ray, r2: Ray, m: int)
    requires
        r1.origin == r2.origin,
        r1.dir.vec() == r2.dir.vec(),
    ensures
        surface_would_hit(s, r1, m) == surface_would_hit(s, r2, m),
{
    match s {
        Surface::Sphere(sp) => {
        },
        Surface::Plane(p) => {
        },
        Surface::Triangle(t) => {
        },
        Surface::Mesh(b) => {
            assert forall|i: int|
                0 <= i < b.container.count_spec() implies #[trigger] b.container.elem_tau(i, r1)
                == b.container.elem_tau(i, r2) by {
                assert(b.container.elem_tau(i, r1) == crate::objects::mesh::mesh_tau(
                    &b.container,
                    i,
                    r1,
                ));
            }
            if scan_any_hit(&b.container, r1, m) {
                let i = choose|i: int|
                    0 <= i < b.container.count_spec() && tau_accepts(
                        #[trigger] b.container.elem_tau(i, r1),
                        m,
                    );
                assert(tau_accepts(b.container.elem_tau(i, r2), m));
            }
            if scan_any_hit(&b.container, r2, m) {
                let i = choose|i: int|
                    0 <= i < b.container.count_spec() && tau_accepts(
                        #[trigger] b.container.elem_tau(i, r2),
                        m,
                    );
                assert(tau_accepts(b.container.elem_tau(i, r1), m));
            }
        },
        Surface::BoundingBox(b) => {
        },
    }
}

} // verus!
