use raydiancy::basic::Ray;
use raydiancy::fixed::{SCALE, T_MAX};
use raydiancy::lin_alg::{Vec3M, appr};
use raydiancy::material::{color_material, reflective_material};
use raydiancy::color::Color;
use raydiancy::objects::aabb::Aabb;
use raydiancy::objects::plane::Plane;
use raydiancy::objects::sphere::Sphere;
use raydiancy::objects::surface::Surface;
use raydiancy::objects::triangle::{Triangle, intersect_triangle, is_triangle_hit_by};

fn blue() -> Color {
    Color::new(0, 0, SCALE)
}

fn unit(x: i64, y: i64, z: i64) -> raydiancy::lin_alg::UnitVec3 {
    Vec3M::new(x, y, z).normalize()
}

#[test]
fn sphere_head_on_hit() {
    // A sphere of radius five at the origin, seen from (10, 0, 0).
    let s = Sphere {
        center: Vec3M::zero(),
        radius: 5 * SCALE,
        material: color_material(blue()),
    };
    let ray = Ray::new(Vec3M::new(10 * SCALE, 0, 0), unit(-SCALE, 0, 0));
    let hit = s.intersect(ray, T_MAX).expect("the ray points at the sphere");
    assert_eq!(hit.t, 5 * SCALE);
    let inter = hit.eval();
    assert_eq!(inter.point, Vec3M::new(5 * SCALE, 0, 0));
    assert_eq!(inter.normal.to(), Vec3M::new(SCALE, 0, 0));
    assert!(s.is_hit_by(ray, T_MAX));
}

#[test]
fn sphere_hit_agrees_with_test() {
    let s = Sphere {
        center: Vec3M::new(2 * SCALE, SCALE, 0),
        radius: SCALE,
        material: color_material(blue()),
    };
    let rays = [
        Ray::new(Vec3M::new(10 * SCALE, SCALE, 0), unit(-SCALE, 0, 0)),
        Ray::new(Vec3M::new(10 * SCALE, SCALE, 0), unit(SCALE, 0, 0)),
        Ray::new(Vec3M::new(0, 0, 0), unit(SCALE, SCALE, 0)),
        Ray::new(Vec3M::new(0, 0, 0), unit(0, 0, SCALE)),
    ];
    for ray in rays {
        assert_eq!(s.is_hit_by(ray, T_MAX), s.intersect(ray, T_MAX).is_some());
        assert_eq!(s.is_hit_by(ray, 3 * SCALE), s.intersect(ray, 3 * SCALE).is_some());
    }
}

#[test]
fn plane_head_on_hit() {
    // The ground plane, seen from five units above.
    let p = Plane {
        normal: unit(0, SCALE, 0),
        offset: 0,
        material: color_material(blue()),
    };
    let ray = Ray::new(Vec3M::new(0, 5 * SCALE, 0), unit(0, -SCALE, 0));
    let hit = p.intersect(ray, T_MAX).expect("the ray points at the plane");
    assert_eq!(hit.t, 5 * SCALE);
    let inter = hit.eval();
    assert_eq!(inter.normal.to(), Vec3M::new(0, SCALE, 0));
    assert!(p.is_hit_by(ray, T_MAX));
    // A parallel ray misses, and both views agree on it.
    let side = Ray::new(Vec3M::new(0, 5 * SCALE, 0), unit(SCALE, 0, 0));
    assert!(!p.is_hit_by(side, T_MAX));
    assert!(p.intersect(side, T_MAX).is_none());
}

#[test]
fn triangle_barycentric_hit() {
    // The unit right triangle in the ground plane, hit from above at
    // (0.2, 0.2).
    let a = Vec3M::zero();
    let b = Vec3M::new(SCALE, 0, 0);
    let c = Vec3M::new(0, SCALE, 0);
    let ray = Ray::new(Vec3M::new(2000, 2000, 5 * SCALE), unit(0, 0, -SCALE));
    let (_e, _f, u, v, t) = intersect_triangle(a, b, c, ray, T_MAX).expect("hit");
    assert_eq!(t, 5 * SCALE);
    assert!(0 <= u && u <= SCALE);
    assert!(0 <= v && v <= SCALE);
    assert!(appr(u, 2000));
    assert!(appr(v, 2000));
    assert!(is_triangle_hit_by(a, b, c, ray, T_MAX));
    // Outside the triangle the test and the intersection agree on a miss.
    let miss = Ray::new(Vec3M::new(9000, 9000, 5 * SCALE), unit(0, 0, -SCALE));
    assert!(!is_triangle_hit_by(a, b, c, miss, T_MAX));
    assert!(intersect_triangle(a, b, c, miss, T_MAX).is_none());
}

#[test]
fn triangle_surface_hit_agrees() {
    let t = Triangle {
        a: Vec3M::zero(),
        b: Vec3M::new(SCALE, 0, 0),
        c: Vec3M::new(0, SCALE, 0),
        material: reflective_material(SCALE / 2, blue()),
    };
    let hit_ray = Ray::new(Vec3M::new(1000, 1000, SCALE), unit(0, 0, -SCALE));
    let miss_ray = Ray::new(Vec3M::new(1000, 1000, SCALE), unit(0, 0, SCALE));
    assert_eq!(t.is_hit_by(hit_ray, T_MAX), t.intersect(hit_ray, T_MAX).is_some());
    assert_eq!(t.is_hit_by(miss_ray, T_MAX), t.intersect(miss_ray, T_MAX).is_some());
    assert!(t.is_hit_by(hit_ray, T_MAX));
    assert!(!t.is_hit_by(miss_ray, T_MAX));
}

#[test]
fn aabb_union_laws() {
    let a = Aabb::new(Vec3M::zero(), Vec3M::new(SCALE, SCALE, SCALE));
    let b = Aabb::new(Vec3M::new(-SCALE, 0, 0), Vec3M::new(0, 2 * SCALE, SCALE));
    let c = Aabb::new(Vec3M::new(5 * SCALE, 5 * SCALE, 5 * SCALE), Vec3M::new(6 * SCALE, 6
        * SCALE, 6 * SCALE));
    // Commutative, associative, with the empty box as identity.
    assert_eq!(a.union(&b), b.union(&a));
    assert_eq!(a.union(&b).union(&c), a.union(&b.union(&c)));
    assert_eq!(Aabb::empty().union(&a), a);
    assert_eq!(a.union(&Aabb::empty()), a);
    // A union contains both arguments.
    assert!(a.union(&b).contains(&a));
    assert!(a.union(&b).contains(&b));
    assert!(a.is_contained(&a.union(&c)));
    // The empty box is contained in everything.
    assert!(a.contains(&Aabb::empty()));
}

#[test]
fn aabb_slab_test() {
    let b = Aabb::new(Vec3M::new(-SCALE, -SCALE, -SCALE), Vec3M::new(SCALE, SCALE, SCALE));
    let toward = Ray::new(Vec3M::new(3 * SCALE, 0, 0), unit(-SCALE, 0, 0));
    let away = Ray::new(Vec3M::new(3 * SCALE, 0, 0), unit(SCALE, 0, 0));
    assert!(b.passes_through(toward, T_MAX));
    assert!(!b.passes_through(away, T_MAX));
    // The entry boundary lies two units along the ray.
    assert_eq!(b.distance(toward, T_MAX), 2 * SCALE);
    assert_eq!(b.distance(away, T_MAX), T_MAX);
    // The debug-box intersection and its hit test agree.
    assert_eq!(b.intersect(toward, T_MAX).is_some(), b.boundary_is_hit_by(toward, T_MAX));
    assert_eq!(b.intersect(away, T_MAX).is_some(), b.boundary_is_hit_by(away, T_MAX));
    let hit = b.intersect(toward, T_MAX).expect("boundary hit");
    assert_eq!(hit.t, 2 * SCALE);
}

#[test]
fn aabb_longest_side() {
    let b = Aabb::new(Vec3M::zero(), Vec3M::new(SCALE, 3 * SCALE, 2 * SCALE));
    let (axis, len) = b.longest_side();
    assert_eq!(axis, 1);
    assert_eq!(len, 3 * SCALE);
}

#[test]
fn surface_hit_agrees_with_intersect() {
    let surfaces = vec![
        Surface::Sphere(Sphere {
            center: Vec3M::zero(),
            radius: 5 * SCALE,
            material: color_material(blue()),
        }),
        Surface::Plane(Plane {
            normal: unit(0, SCALE, 0),
            offset: 0,
            material: color_material(blue()),
        }),
        Surface::Triangle(Triangle {
            a: Vec3M::zero(),
            b: Vec3M::new(SCALE, 0, 0),
            c: Vec3M::new(0, 0, SCALE),
            material: color_material(blue()),
        }),
        Surface::BoundingBox(Aabb::new(
            Vec3M::new(-SCALE, -SCALE, -SCALE),
            Vec3M::new(SCALE, SCALE, SCALE),
        )),
    ];
    let rays = [
        Ray::new(Vec3M::new(2000, 8 * SCALE, 2000), unit(0, -SCALE, 0)),
        Ray::new(Vec3M::new(2000, 8 * SCALE, 2000), unit(0, SCALE, 0)),
        Ray::new(Vec3M::new(8 * SCALE, 3000, 0), unit(-SCALE, 0, 0)),
    ];
    for s in &surfaces {
        for ray in rays {
            assert_eq!(s.is_hit_by(ray, T_MAX), s.intersect(ray, T_MAX).is_some());
            assert_eq!(s.is_hit_by(ray, 6 * SCALE), s.intersect(ray, 6 * SCALE).is_some());
        }
    }
}
