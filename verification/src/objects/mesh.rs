use vstd::prelude::*;

use crate::basic::{DelayedIntersection, Intersection, Ray, ray_at, ray_ok, tau_accepts, tau_t};
use crate::fixed::{COORD_MAX, SCALE, T_MAX, iabs, lemma_mul_bound, lemma_tdiv_abs_le,
    lemma_tdiv_nonneg, tdiv};
use crate::lin_alg::{UnitVec3, Vec3, Vec3M, in_range, is_unit};
use crate::material::{Material, material_ok};
use crate::objects::aabb::{Aabb, box_passes, box_union_all, box_wf, slab_test};
use crate::objects::bvh::{BVH, SurfaceContainer, bvh_wf, scan_any_hit, scan_result_ok};
use crate::objects::triangle::{Triangle, triangle_box, triangle_normal, triangle_normal_exec,
    triangle_tau};

verus! {

/// Represents a triangle mesh: a vertex list and a list of faces, each
/// face the indices of its three corners.  The mesh adapts the triangle
/// soup to the element-container surface of the bounding volume
/// hierarchy.
pub struct Mesh {
    /// The vertex positions.
    pub vertices: Vec<Vec3>,
    /// The faces, as triples of vertex indices.
    pub faces: Vec<(usize, usize, usize)>,
    /// The material of every face.
    pub material: Material,
}

/// A mesh the renderer can hold: in-range vertices, in-range face
/// indices, a shadeable material.
pub open spec fn mesh_wf(m: &Mesh) -> bool {
    &&& forall|k: int| 0 <= k < m.vertices@.len() ==> in_range(#[trigger] m.vertices@[k])
    &&& forall|k: int|
        0 <= k < m.faces@.len() ==> (#[trigger] m.faces@[k]).0 < m.vertices@.len()
            && m.faces@[k].1 < m.vertices@.len() && m.faces@[k].2 < m.vertices@.len()
    &&& material_ok(m.material)
}

/// The corner points of face `i`.
pub open spec fn face_a(m: &Mesh, i: int) -> Vec3M {
    m.vertices@[m.faces@[i].0 as int]
}

pub open spec fn face_b(m: &Mesh, i: int) -> Vec3M {
    m.vertices@[m.faces@[i].1 as int]
}

pub open spec fn face_c(m: &Mesh, i: int) -> Vec3M {
    m.vertices@[m.faces@[i].2 as int]
}

/// The hit time of a ray against face `i`: the exact triangle test,
/// confirmed against the face's bounding box.  This deliberately makes
/// the box check part of the face semantics: a triangle hit whose
/// rational time fails the slab test of the face's own box is
/// discarded.  Exact real arithmetic never produces such a hit (the hit
/// point is a convex combination of the corners, so it lies in their
/// box), but that redundancy is not proved here; the guard is what ties
/// the faces to the boxes the hierarchy prunes by, and the brute-force
/// equivalence of the traversal rests on it.
pub open spec fn mesh_tau(m: &Mesh, i: int, r: Ray) -> Option<(int, int)> {
    match triangle_tau(face_a(m, i), face_b(m, i), face_c(m, i), r.origin, r.dir.vec()) {
        None => None,
        Some(p) => {
            if box_passes(
                triangle_box(face_a(m, i), face_b(m, i), face_c(m, i)),
                r.origin,
                r.dir.vec(),
                p.0,
                p.1,
            ) {
                Some(p)
            } else {
                None
            }
        },
    }
}

/// The boxes of all the faces, in face order.
pub open spec fn mesh_boxes(m: &Mesh) -> Seq<Aabb> {
    Seq::new(m.faces@.len(), |i: int| triangle_box(face_a(m, i), face_b(m, i), face_c(m, i)))
}

impl Mesh {
    /// Builds a mesh from parsed vertex and face lists.
    pub fn new(vertices: Vec<Vec3>, faces: Vec<(usize, usize, usize)>, material: Material) -> (m:
        Mesh)
        requires
            forall|k: int| 0 <= k < vertices@.len() ==> in_range(#[trigger] vertices@[k]),
            forall|k: int|
                0 <= k < faces@.len() ==> (#[trigger] faces@[k]).0 < vertices@.len()
                    && faces@[k].1 < vertices@.len() && faces@[k].2 < vertices@.len(),
            material_ok(material),
        ensures
            mesh_wf(&m),
            m.vertices == vertices,
            m.faces == faces,
            m.material == material,
    {
        Mesh { vertices, faces, material }
    }

    /// The three corner points of face `idx`.
    fn face_vertices(&self, idx: usize) -> (r: (Vec3, Vec3, Vec3))
        requires
            mesh_wf(self),
            idx < self.faces@.len(),
        ensures
            r.0 == face_a(self, idx as int),
            r.1 == face_b(self, idx as int),
            r.2 == face_c(self, idx as int),
            in_range(r.0),
            in_range(r.1),
            in_range(r.2),
    {
        let f: (usize, usize, usize) = self.faces[idx];
        (self.vertices[f.0], self.vertices[f.1], self.vertices[f.2])
    }

    /// The bounding box of face `idx`.
    fn bounding_box_face(&self, idx: usize) -> (r: Aabb)
        requires
            mesh_wf(self),
            idx < self.faces@.len(),
        ensures
            r == triangle_box(face_a(self, idx as int), face_b(self, idx as int), face_c(
                self,
                idx as int,
            )),
            box_wf(r),
    {
        let (a, b, c): (Vec3, Vec3, Vec3) = self.face_vertices(idx);
        let lo: Vec3 = a.min(b).min(c);
        let hi: Vec3 = a.max(b).max(c);
        Aabb::new(lo, hi)
    }

    /// Returns the nearest intersection of the ray with any face within
    /// `(EPS, t_max]`, by a plain linear scan over the faces.
    pub fn intersect(&self, ray: Ray, t_max: i64) -> (res: Option<DelayedIntersection>)
        requires
            mesh_wf(self),
            ray_ok(ray),
            0 <= t_max <= T_MAX,
        ensures
            scan_result_ok(self, ray, t_max as int, res),
    {
        proof {
            use_type_invariant(ray.dir);
        }
        let mut nearest: Option<DelayedIntersection> = None;
        let mut nearest_t: i64 = t_max;
        let mut k: usize = 0;
        let n: usize = self.count();
        while k < n
            invariant
                k <= n,
                mesh_wf(self),
                n == self.count_spec(),
                ray_ok(ray),
                is_unit(ray.dir.vec()),
                0 <= nearest_t <= t_max <= T_MAX,
                nearest.is_none() ==> nearest_t == t_max,
                nearest.is_none() ==> forall|kk: int|
                    0 <= kk < k ==> !tau_accepts(#[trigger] self.elem_tau(kk, ray), t_max as int),
                nearest.is_some() ==> {
                    &&& nearest.unwrap().t == nearest_t
                    &&& exists|i: int|
                        0 <= i < self.count_spec() && tau_accepts(
                            #[trigger] self.elem_tau(i, ray),
                            t_max as int,
                        ) && crate::objects::bvh::elem_hit_data_ok(self, i, ray, nearest.unwrap())
                    &&& forall|kk: int|
                        0 <= kk < k ==> crate::objects::bvh::tau_ge(
                            #[trigger] self.elem_tau(kk, ray),
                            nearest_t as int,
                        )
                },
            decreases n - k,
        {
            let found: Option<DelayedIntersection> = self.elem_intersect(k, ray, nearest_t);
            match found {
                None => {
                    proof {
                        if self.elem_tau(k as int, ray).is_some() {
                            self.lemma_elem_tau_ok(k as int, ray);
                        }
                    }
                },
                Some(di) => {
                    proof {
                        self.lemma_elem_tau_ok(k as int, ray);
                        let tau = self.elem_tau(k as int, ray).unwrap();
                        crate::fixed::lemma_tdiv_nonneg(tau.0, tau.1);
                        crate::objects::bvh::lemma_rat_int_mono(tau.0, tau.1, nearest_t as int,
                            t_max as int);
                        assert(tau.0 >= tdiv(tau.0, tau.1) * tau.1) by (nonlinear_arith)
                            requires
                                tau.0 >= 0,
                                tau.1 >= 1,
                        ;
crate::objects::bvh::lemma_scan_update(self, ray, k as int,
                            nearest_t as int, di.t as int, t_max as int);
                    }
                    nearest = Some(di);
                    nearest_t = di.t;
                },
            }
            k = k + 1;
        }
        nearest
    }

    /// Checks whether the ray hits any face within `(EPS, t_max]`, by a
    /// plain linear scan over the faces.
    pub fn is_hit_by(&self, ray: Ray, t_max: i64) -> (res: bool)
        requires
            mesh_wf(self),
            ray_ok(ray),
            0 <= t_max <= T_MAX,
        ensures
            res == scan_any_hit(self, ray, t_max as int),
    {
        let mut k: usize = 0;
        let n: usize = self.count();
        while k < n
            invariant
                k <= n,
                mesh_wf(self),
                n == self.count_spec(),
                ray_ok(ray),
                0 <= t_max <= T_MAX,
                forall|kk: int|
                    0 <= kk < k ==> !tau_accepts(#[trigger] self.elem_tau(kk, ray), t_max as int),
            decreases n - k,
        {
            if self.elem_is_hit_by(k, ray, t_max) {
                return true;
            }
            k = k + 1;
        }
        false
    }

    /// Returns the box around all the faces, or `None` for a mesh with
    /// no faces.
    pub fn bounding_box(&self) -> (res: Option<Aabb>)
        requires
            mesh_wf(self),
        ensures
            res.is_some() <==> self.faces@.len() > 0,
            res.is_some() ==> res.unwrap() == box_union_all(mesh_boxes(self)),
    {
        if self.faces.len() == 0 {
            return None;
        }
        let mut boxes: Vec<Aabb> = Vec::new();
        let mut k: usize = 0;
        while k < self.faces.len()
            invariant
                k <= self.faces@.len(),
                mesh_wf(self),
                boxes@.len() == k,
                forall|j: int|
                    0 <= j < k ==> #[trigger] boxes@[j] == triangle_box(face_a(self, j), face_b(
                        self,
                        j,
                    ), face_c(self, j)),
            decreases self.faces@.len() - k,
        {
            let bb: Aabb = self.bounding_box_face(k);
            boxes.push(bb);
            k = k + 1;
        }
        proof {
            assert(boxes@ =~= mesh_boxes(self));
        }
        Some(Aabb::union_all(&boxes))
    }

    /// Builds a bounding volume hierarchy over the mesh.
    pub fn into_bvh(self) -> (b: BVH<Mesh>)
        requires
            mesh_wf(&self),
        ensures
            bvh_wf(&b),
            b.container == self,
    {
        BVH::new(self)
    }
}

} // verus!

verus! {

impl SurfaceContainer for Mesh {
    open spec fn count_spec(&self) -> int {
        self.faces@.len() as int
    }

    open spec fn elem_tau(&self, i: int, r: Ray) -> Option<(int, int)> {
        mesh_tau(self, i, r)
    }

    open spec fn elem_normal(&self, i: int, r: Ray) -> Vec3M {
        triangle_normal(face_a(self, i), face_b(self, i), face_c(self, i), r.dir.vec())
    }

    open spec fn elem_material(&self, i: int) -> Material {
        self.material
    }

    open spec fn elem_box(&self, i: int) -> Option<Aabb> {
        Some(triangle_box(face_a(self, i), face_b(self, i), face_c(self, i)))
    }

    open spec fn wf(&self) -> bool {
        mesh_wf(self)
    }

    proof fn lemma_elem_tau_ok(&self, i: int, r: Ray) {
        let a = face_a(self, i);
        let b = face_b(self, i);
        let c = face_c(self, i);
        let o = r.origin;
        let d = r.dir.vec();
        crate::objects::triangle::lemma_triangle_tau_bounds(a, b, c, o, d);
    }

    proof fn lemma_elem_box_ok(&self, i: int) {
    }

    fn count(&self) -> (r: usize) {
        self.faces.len()
    }

    fn elem_intersect(&self, idx: usize, ray: Ray, t_max: i64) -> (res: Option<
        DelayedIntersection,
    >) {
        proof {
            use_type_invariant(ray.dir);
        }
        let (a, b, c): (Vec3, Vec3, Vec3) = self.face_vertices(idx);
        let solved: Option<crate::objects::triangle::TriSolved> =
            crate::objects::triangle::triangle_solve(a, b, c, ray);
        match solved {
            None => None,
            Some(s) => {
                let bb: Aabb = self.bounding_box_face(idx);
                let guard: bool = slab_test(&bb, ray.origin, ray.dir.to(), s.tn, s.den);
                if !guard {
                    return None;
                }
                proof {
                    lemma_mul_bound(t_max as int, s.den as int, T_MAX as int,
                        5_000_000_000_000_000_000_000);
                    assert(T_MAX * 5_000_000_000_000_000_000_000i128 < i128::MAX)
                        by (nonlinear_arith);
                }
                if s.tn > (t_max as i128) * s.den {
                    return None;
                }
                proof {
                    lemma_tdiv_nonneg(s.tn as int, s.den as int);
                    assert(s.tn < (t_max + 1) * s.den) by (nonlinear_arith)
                        requires
                            s.tn <= t_max * s.den,
                            s.den >= 1,
                    ;
                    lemma_tdiv_abs_le(s.tn as int, s.den as int, t_max as int);
                }
                let t: i64 = crate::fixed::tdiv128(s.tn, s.den) as i64;
                let normal: UnitVec3 = triangle_normal_exec(a, b, c, ray.dir);
                Some(DelayedIntersection::new(t, Intersection::new(ray, t, normal, self.material)))
            },
        }
    }

    fn elem_is_hit_by(&self, idx: usize, ray: Ray, t_max: i64) -> (res: bool) {
        proof {
            use_type_invariant(ray.dir);
        }
        let (a, b, c): (Vec3, Vec3, Vec3) = self.face_vertices(idx);
        let solved: Option<crate::objects::triangle::TriSolved> =
            crate::objects::triangle::triangle_solve(a, b, c, ray);
        match solved {
            None => false,
            Some(s) => {
                let bb: Aabb = self.bounding_box_face(idx);
                let guard: bool = slab_test(&bb, ray.origin, ray.dir.to(), s.tn, s.den);
                if !guard {
                    return false;
                }
                proof {
                    lemma_mul_bound(t_max as int, s.den as int, T_MAX as int,
                        5_000_000_000_000_000_000_000);
                    assert(T_MAX * 5_000_000_000_000_000_000_000i128 < i128::MAX)
                        by (nonlinear_arith);
                }
                s.tn <= (t_max as i128) * s.den
            },
        }
    }

    fn elem_bounding_box(&self, idx: usize) -> (res: Option<Aabb>) {
        Some(self.bounding_box_face(idx))
    }
}

} // verus!
