use vstd::prelude::*;

use crate::fixed::{COORD_MAX, SCALE, T_MAX, fmul, iabs, lemma_mul_bound, lemma_tdiv_abs_le, rdiv};
use crate::lin_alg::{UnitVec3, Vec3, Vec3M, in_range, normalize_res};
use crate::material::Material;
use crate::physics::{reflect, reflect_spec, refract, refract_dir, refract_k};

verus! {

/// Structure for representing rays.
#[derive(Clone, Copy, Debug, PartialEq)]
pub struct Ray {
    /// Where the ray comes from.
    pub origin: Vec3,
    /// The direction the ray is traveling (always unit length).
    pub dir: UnitVec3,
}

/// A ray the intersection routines can work on: its origin stays within
/// a few diameters of the world cube, which is where every ray spawned
/// at a hit point of in-range geometry starts.  (Its direction is a unit
/// vector by type.)
pub open spec fn ray_ok(r: Ray) -> bool {
    &&& iabs(r.origin.x as int) <= 8 * COORD_MAX
    &&& iabs(r.origin.y as int) <= 8 * COORD_MAX
    &&& iabs(r.origin.z as int) <= 8 * COORD_MAX
}

impl Ray {
    /// Creates a `Ray`.
    pub fn new(origin: Vec3, dir: UnitVec3) -> (r: Ray)
        ensures
            r == (Ray { origin, dir }),
    {
        Ray { origin, dir }
    }

    /// Creates a `Ray` and normalizes the given direction.
    pub fn newn(origin: Vec3, dir: Vec3) -> (r: Ray)
        requires
            iabs(dir.x as int) <= crate::fixed::NORM_IN_MAX,
            iabs(dir.y as int) <= crate::fixed::NORM_IN_MAX,
            iabs(dir.z as int) <= crate::fixed::NORM_IN_MAX,
            !(dir.x == 0 && dir.y == 0 && dir.z == 0),
        ensures
            r.origin == origin,
            r.dir.vec() == normalize_res(dir),
    {
        Ray { origin, dir: dir.normalize() }
    }
}

/// One component of the epsilon offset: the unit-vector component
/// scaled down to one grid unit, rounded to nearest so that no
/// direction collapses to zero.
pub open spec fn eps_c(c: int) -> int {
    rdiv(c, SCALE as int)
}

/// The hit point shifted by one grid unit along the (possibly negated)
/// normal.
pub open spec fn offset_point(p: Vec3M, n: Vec3M, away: bool) -> Vec3M {
    if away {
        Vec3M {
            x: (p.x + eps_c(n.x as int)) as i64,
            y: (p.y + eps_c(n.y as int)) as i64,
            z: (p.z + eps_c(n.z as int)) as i64,
        }
    } else {
        Vec3M {
            x: (p.x - eps_c(n.x as int)) as i64,
            y: (p.y - eps_c(n.y as int)) as i64,
            z: (p.z - eps_c(n.z as int)) as i64,
        }
    }
}

/// Shifts the intersection point one grid unit along the normal,
/// toward the side the normal points to (`away`) or the far side.
fn offset_exec(p: Vec3, n: Vec3, away: bool) -> (r: Vec3)
    requires
        iabs(p.x as int) <= 210 * COORD_MAX,
        iabs(p.y as int) <= 210 * COORD_MAX,
        iabs(p.z as int) <= 210 * COORD_MAX,
        iabs(n.x as int) <= 2 * SCALE,
        iabs(n.y as int) <= 2 * SCALE,
        iabs(n.z as int) <= 2 * SCALE,
    ensures
        r == offset_point(p, n, away),
{
    let dx: i64 = crate::fixed::rdiv128(n.x as i128, SCALE as i128) as i64;
    let dy: i64 = crate::fixed::rdiv128(n.y as i128, SCALE as i128) as i64;
    let dz: i64 = crate::fixed::rdiv128(n.z as i128, SCALE as i128) as i64;
    proof {
        lemma_tdiv_abs_le(2 * (n.x as int) + SCALE, 2 * SCALE, 3);
        lemma_tdiv_abs_le(2 * (n.x as int) - SCALE, 2 * SCALE, 3);
        lemma_tdiv_abs_le(2 * (n.y as int) + SCALE, 2 * SCALE, 3);
        lemma_tdiv_abs_le(2 * (n.y as int) - SCALE, 2 * SCALE, 3);
        lemma_tdiv_abs_le(2 * (n.z as int) + SCALE, 2 * SCALE, 3);
        lemma_tdiv_abs_le(2 * (n.z as int) - SCALE, 2 * SCALE, 3);
    }
    if away {
        Vec3M { x: p.x + dx, y: p.y + dy, z: p.z + dz }
    } else {
        Vec3M { x: p.x - dx, y: p.y - dy, z: p.z - dz }
    }
}

/// Contains information about the intersection of a ray and an object.
#[derive(Clone, Copy, Debug, PartialEq)]
pub struct Intersection {
    /// Distance of the hit point from the origin of the ray.
    pub t: i64,
    /// The intersection point: `(origin of ray) + t * (direction of ray)`.
    pub point: Vec3,
    /// The normal vector at the intersection point (orthogonal to the
    /// surface, oriented against the incoming ray).
    pub normal: UnitVec3,
    /// The material properties at the intersection point.
    pub material: Material,
}

/// The point a ray reaches after travelling the fixed-point distance `t`.
pub open spec fn ray_at(r: Ray, t: int) -> Vec3M {
    Vec3M {
        x: (r.origin.x + fmul(t, r.dir.vec().x as int)) as i64,
        y: (r.origin.y + fmul(t, r.dir.vec().y as int)) as i64,
        z: (r.origin.z + fmul(t, r.dir.vec().z as int)) as i64,
    }
}

/// Computes the point the ray reaches after the fixed-point distance
/// `t`.
pub fn ray_point_at(r: Ray, t: i64) -> (p: Vec3)
    requires
        ray_ok(r),
        0 <= t <= T_MAX,
    ensures
        p == ray_at(r, t as int),
{
    proof {
        use_type_invariant(r.dir);
    }
    let d: Vec3 = r.dir.to();
    r.origin.add(d.scale(t))
}

impl Intersection {
    /// Constructs an intersection from the hit distance `t` along `ray`,
    /// the surface normal and the material at the hit point.
    pub fn new(ray: Ray, t: i64, normal: UnitVec3, material: Material) -> (r: Intersection)
        requires
            ray_ok(ray),
            0 <= t <= T_MAX,
        ensures
            r.t == t,
            r.point == ray_at(ray, t as int),
            r.normal == normal,
            r.material == material,
    {
        let p: Vec3 = ray_point_at(ray, t);
        Intersection { t, point: p, normal, material }
    }
}

/// Represents partial information about an intersection: the distance is
/// available for comparison and pruning, the full record for shading.
/// (The record is computed eagerly; the pairing is kept so that the
/// traversal code reads the same as with a deferred computation.)
#[derive(Clone, Copy, Debug, PartialEq)]
pub struct DelayedIntersection {
    /// Distance of the hit point from the origin of the ray.
    pub t: i64,
    /// The full record, available on demand.
    pub inter: Intersection,
}

impl DelayedIntersection {
    /// Creates a `DelayedIntersection` from the distance and the record.
    pub fn new(t: i64, inter: Intersection) -> (r: DelayedIntersection)
        ensures
            r.t == t,
            r.inter == inter,
    {
        DelayedIntersection { t, inter }
    }

    /// Produces the full intersection information.
    pub fn eval(self) -> (r: Intersection)
        ensures
            r == self.inter,
    {
        self.inter
    }
}

/// A hit point stays within a small multiple of the world cube, so the
/// epsilon offsets cannot overflow.
pub open spec fn point_in_reach(p: Vec3M) -> bool {
    &&& iabs(p.x as int) <= 210 * COORD_MAX
    &&& iabs(p.y as int) <= 210 * COORD_MAX
    &&& iabs(p.z as int) <= 210 * COORD_MAX
}

pub proof fn lemma_ray_at_in_reach(r: Ray, t: int)
    requires
        ray_ok(r),
        0 <= t <= T_MAX,
        iabs(r.dir.vec().x as int) <= 2 * SCALE,
        iabs(r.dir.vec().y as int) <= 2 * SCALE,
        iabs(r.dir.vec().z as int) <= 2 * SCALE,
    ensures
        point_in_reach(ray_at(r, t)),
{
    lemma_mul_bound(t, r.dir.vec().x as int, T_MAX as int, 2 * SCALE);
    lemma_mul_bound(t, r.dir.vec().y as int, T_MAX as int, 2 * SCALE);
    lemma_mul_bound(t, r.dir.vec().z as int, T_MAX as int, 2 * SCALE);
    assert(T_MAX * (2 * SCALE) == 2 * T_MAX * SCALE) by (nonlinear_arith);
    lemma_tdiv_abs_le(t * (r.dir.vec().x as int), SCALE as int, 2 * T_MAX);
    lemma_tdiv_abs_le(t * (r.dir.vec().y as int), SCALE as int, 2 * T_MAX);
    lemma_tdiv_abs_le(t * (r.dir.vec().z as int), SCALE as int, 2 * T_MAX);
}

/// The hit time of a surface, as an exact rational in fixed-point units:
/// a numerator and a positive denominator.  `None` means the ray misses
/// the surface (or meets it at or before `EPS`).
pub open spec fn tau_accepts(tau: Option<(int, int)>, m: int) -> bool {
    match tau {
        Some(p) => p.0 <= m * p.1,
        None => false,
    }
}

/// The fixed-point distance of a rational hit time, rounded down.
pub open spec fn tau_t(tau: Option<(int, int)>) -> int {
    crate::fixed::tdiv(tau.unwrap().0, tau.unwrap().1)
}

/// Spawned-ray origins stay inside the ray-origin range: the epsilon
/// offset moves each coordinate by at most three grid units.
pub proof fn lemma_offset_in_range(p: Vec3M, n: Vec3M)
    requires
        iabs(p.x as int) <= 8 * COORD_MAX - 3,
        iabs(p.y as int) <= 8 * COORD_MAX - 3,
        iabs(p.z as int) <= 8 * COORD_MAX - 3,
        iabs(n.x as int) <= 2 * SCALE,
        iabs(n.y as int) <= 2 * SCALE,
        iabs(n.z as int) <= 2 * SCALE,
    ensures
        forall|away: bool|
            {
                let q = #[trigger] offset_point(p, n, away);
                iabs(q.x as int) <= 8 * COORD_MAX && iabs(q.y as int) <= 8 * COORD_MAX && iabs(
                    q.z as int,
                ) <= 8 * COORD_MAX
            },
{
    lemma_tdiv_abs_le(2 * (n.x as int) + SCALE, 2 * SCALE, 3);
    lemma_tdiv_abs_le(2 * (n.x as int) - SCALE, 2 * SCALE, 3);
    lemma_tdiv_abs_le(2 * (n.y as int) + SCALE, 2 * SCALE, 3);
    lemma_tdiv_abs_le(2 * (n.y as int) - SCALE, 2 * SCALE, 3);
    lemma_tdiv_abs_le(2 * (n.z as int) + SCALE, 2 * SCALE, 3);
    lemma_tdiv_abs_le(2 * (n.z as int) - SCALE, 2 * SCALE, 3);
}

/// Given a ray intersection and the direction of the light source,
/// computes the shadow ray: it starts one grid unit off the surface, on
/// the side the normal points to.
pub fn shadow_ray(inter: &Intersection, dir: UnitVec3) -> (r: Ray)
    requires
        point_in_reach(inter.point),
    ensures
        r.origin == offset_point(inter.point, inter.normal.vec(), true),
        r.dir == dir,
{
    proof {
        use_type_invariant(inter.normal);
    }
    let point: Vec3 = offset_exec(inter.point, inter.normal.to(), true);
    Ray::new(point, dir)
}

/// Given a ray intersection and the direction of a ray, computes its
/// reflection ray, starting one grid unit off the surface.
pub fn reflect_ray(inter: &Intersection, dir: UnitVec3) -> (r: Ray)
    requires
        point_in_reach(inter.point),
    ensures
        r.origin == offset_point(inter.point, inter.normal.vec(), true),
        r.dir.vec() == reflect_spec(dir.vec(), inter.normal.vec()),
{
    proof {
        use_type_invariant(inter.normal);
    }
    let reflected_dir: UnitVec3 = reflect(dir, inter.normal);
    let point: Vec3 = offset_exec(inter.point, inter.normal.to(), true);
    Ray::new(point, reflected_dir)
}

/// Computes the refracted ray, or `None` in case of total internal
/// reflection.  The refracted ray starts one grid unit behind the
/// surface.  `ior` is the quotient of the refraction index entered over
/// the one exited.
pub fn refract_ray(inter: &Intersection, dir: UnitVec3, ior: i64) -> (r: Option<Ray>)
    requires
        point_in_reach(inter.point),
        1 <= ior <= SCALE * SCALE,
    ensures
        r.is_some() <==> refract_k(dir.vec(), inter.normal.vec(), ior as int) >= 0,
        r.is_some() ==> {
            &&& r.unwrap().origin == offset_point(inter.point, inter.normal.vec(), false)
            &&& r.unwrap().dir.vec() == refract_dir(dir.vec(), inter.normal.vec(), ior as int)
        },
{
    proof {
        use_type_invariant(inter.normal);
    }
    let maybe_refracted_dir: Option<UnitVec3> = refract(dir, inter.normal, ior);
    let point: Vec3 = offset_exec(inter.point, inter.normal.to(), false);
    match maybe_refracted_dir {
        Some(d) => Some(Ray::new(point, d)),
        None => None,
    }
}

} // verus!
