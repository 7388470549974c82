use raydiancy::color::{AColor, Color, black, white};
use raydiancy::fixed::SCALE;
use raydiancy::lin_alg::{Matrix34, Vec3M, appr, appr_cmp, fx_cos, fx_sin, fx_tan_half, PI_FX};
use raydiancy::material::{color_material, glass, neutral_material, reflective_material, vacuum};
use raydiancy::physics::{compute_specular, reflect, refract};

fn unit(x: i64, y: i64, z: i64) -> raydiancy::lin_alg::UnitVec3 {
    Vec3M::new(x, y, z).normalize()
}

fn assert_close(a: i64, b: i64, tol: i64) {
    assert!((a - b).abs() <= tol, "{} vs {} (tolerance {})", a, b, tol);
}

#[test]
fn approximate_comparisons() {
    assert!(appr(0, 1));
    assert!(!appr(0, SCALE));
    assert_eq!(appr_cmp(0, 1), core::cmp::Ordering::Equal);
    assert_eq!(appr_cmp(0, SCALE), core::cmp::Ordering::Less);
    assert_eq!(appr_cmp(SCALE, 0), core::cmp::Ordering::Greater);
}

#[test]
fn normalize_has_unit_norm() {
    // The norm of a normalized vector stays within one grid unit of one.
    let samples = [
        Vec3M::new(3 * SCALE, 4 * SCALE, 0),
        Vec3M::new(SCALE, SCALE, SCALE),
        Vec3M::new(-7, 12, 5),
        Vec3M::new(123_456, -654_321, 999_999),
        Vec3M::new(1, 0, 0),
        Vec3M::new(100_000_000, -100_000_000, 50_000_000),
    ];
    for v in samples {
        let n = v.normalize().to().norm();
        assert_close(n, SCALE, 1);
    }
    // An axis-aligned vector normalizes exactly.
    assert_eq!(Vec3M::new(3 * SCALE, 4 * SCALE, 0).normalize().to(), Vec3M::new(6000, 8000, 0));
}

#[test]
fn cross_is_orthogonal() {
    let v = Vec3M::new(SCALE, 2 * SCALE, 3 * SCALE);
    let w = Vec3M::new(4 * SCALE, 5 * SCALE, 6 * SCALE);
    let c = v.cross(w);
    assert_close(v.dot(c), 0, 2);
    assert_close(w.dot(c), 0, 2);
    assert_eq!(Vec3M::e1().to().cross(Vec3M::e2().to()), Vec3M::e3().to());
}

#[test]
fn reflect_is_involutive() {
    // Reflecting a reflection gives the incoming direction back.
    let n = unit(0, SCALE, 0);
    let i = unit(6000, -8000, 0);
    let r = reflect(i, n);
    assert_eq!(r.to(), Vec3M::new(6000, 8000, 0));
    let back = reflect(r, n);
    let d = back.to();
    assert_close(d.x, i.to().x, 1);
    assert_close(d.y, i.to().y, 1);
    assert_close(d.z, i.to().z, 1);
}

#[test]
fn refract_round_trip() {
    // Straight through a boundary and back with the reciprocal ratio.
    let n = unit(0, SCALE, 0);
    let i = unit(0, -SCALE, 0);
    let ratio = 15000;
    let r1 = refract(i, n, ratio).expect("no total internal reflection head-on");
    assert_eq!(r1.to(), Vec3M::new(0, -SCALE, 0));
    let reciprocal = raydiancy::fixed::tdiv64(SCALE * SCALE, ratio);
    let r2 = refract(r1, n, reciprocal).expect("no total internal reflection head-on");
    assert_close(r2.to().x, i.to().x, 2);
    assert_close(r2.to().y, i.to().y, 2);
    assert_close(r2.to().z, i.to().z, 2);
    // A slanted entry bends, and the reverse passage undoes the bend.
    let s = unit(6000, -8000, 0);
    let s1 = refract(s, n, 12000).expect("below the critical angle");
    let s2 = refract(s1, n, raydiancy::fixed::tdiv64(SCALE * SCALE, 12000)).expect(
        "below the critical angle",
    );
    assert_close(s2.to().x, s.to().x, 50);
    assert_close(s2.to().y, s.to().y, 50);
    assert_close(s2.to().z, s.to().z, 50);
}

#[test]
fn refract_total_internal_reflection() {
    // A grazing passage into a less dense medium has no refraction.
    let n = unit(0, SCALE, 0);
    let i = unit(9900, -1000, 0);
    assert!(refract(i, n, 5000).is_none());
}

#[test]
fn specular_highlight() {
    let n = unit(0, SCALE, 0);
    let view = unit(0, SCALE, 0);
    let light = unit(0, SCALE, 0);
    // A mirror-aligned configuration gives the full highlight.
    let s = compute_specular(view, light, n, 1);
    assert_close(s, SCALE, 20);
    // The highlight falls off with shininess away from alignment.
    let off = unit(SCALE, SCALE, 0);
    let s1 = compute_specular(off, light, n, 1);
    let s8 = compute_specular(off, light, n, 8);
    assert!(s8 <= s1);
}

#[test]
fn trig_series_values() {
    assert_close(fx_sin(0), 0, 1);
    assert_close(fx_cos(0), SCALE, 1);
    assert_close(fx_sin(PI_FX / 2), SCALE, 10);
    assert_close(fx_cos(PI_FX / 2), 0, 10);
    assert_close(fx_sin(PI_FX / 6), 5000, 10);
    // The tangent of half of a 120-degree field of view is sqrt(3).
    assert_close(fx_tan_half(20944), 17321, 30);
}

#[test]
fn matrix_applies_to_points() {
    let v = Vec3M::new(SCALE, 2 * SCALE, 3 * SCALE);
    // Scaling multiplies componentwise; translating shifts.
    let s = Matrix34::scale(v);
    assert_eq!(s.apply(v), Vec3M::new(SCALE, 4 * SCALE, 9 * SCALE));
    let t = Matrix34::translate(Vec3M::new(0, 0, SCALE));
    assert_eq!(t.apply(Vec3M::new(SCALE, 0, 0)), Vec3M::new(SCALE, 0, SCALE));
    assert_eq!(Matrix34::identity().apply(v), v);
    // A quarter turn around the z-axis moves the x-axis onto the y-axis.
    let r = Matrix34::rotate(Vec3M::new(0, 0, SCALE), PI_FX / 2);
    let moved = r.apply(Vec3M::new(SCALE, 0, 0));
    assert!((moved.x - 0).abs() <= 10);
    assert!((moved.y - SCALE).abs() <= 10);
    assert!((moved.z - 0).abs() <= 10);
}

#[test]
fn matrix_identity_neutral() {
    let a = Matrix34::translate(Vec3M::new(SCALE, -2 * SCALE, 3 * SCALE)).mul(
        &Matrix34::scale(Vec3M::new(SCALE, 2 * SCALE, 4 * SCALE)),
    );
    assert_eq!(Matrix34::identity().mul(&a), a);
    assert_eq!(a.mul(&Matrix34::identity()), a);
    assert_eq!(Matrix34::identity().determinant(), SCALE);
}

#[test]
fn matrix_inverse_translate_scale() {
    let v = Vec3M::new(SCALE, 2 * SCALE, 3 * SCALE);
    // Inverting a translation negates it, exactly.
    assert_eq!(Matrix34::translate(v).invert(), Matrix34::translate(v.neg()));
    // A scaling by (1, 2, 4) inverts to (1, 1/2, 1/4).
    let s = Matrix34::scale(Vec3M::new(SCALE, 2 * SCALE, 4 * SCALE));
    assert_eq!(s.invert(), Matrix34::scale(Vec3M::new(SCALE, SCALE / 2, SCALE / 4)));
    // A matrix times its inverse lands on the identity, up to the grid.
    let a = Matrix34::translate(v).mul(&s);
    let prod = a.mul(&a.invert());
    let id = Matrix34::identity();
    assert_close(prod.m00, id.m00, 2);
    assert_close(prod.m11, id.m11, 2);
    assert_close(prod.m22, id.m22, 2);
    assert_close(prod.m03, id.m03, 2);
    assert_close(prod.m13, id.m13, 2);
    assert_close(prod.m23, id.m23, 2);
    assert_close(prod.m01, 0, 2);
    assert_close(prod.m12, 0, 2);
}

#[test]
fn matrix_inverse_rotation() {
    // The inverse of a rotation is the rotation by the opposite angle.
    let axis = Vec3M::new(SCALE, 2 * SCALE, 3 * SCALE);
    let angle = 5000;
    let r = Matrix34::rotate(axis, angle);
    let inv = r.invert();
    let back = Matrix34::rotate(axis, -angle);
    assert_close(inv.m00, back.m00, 20);
    assert_close(inv.m01, back.m01, 20);
    assert_close(inv.m02, back.m02, 20);
    assert_close(inv.m10, back.m10, 20);
    assert_close(inv.m11, back.m11, 20);
    assert_close(inv.m12, back.m12, 20);
    assert_close(inv.m20, back.m20, 20);
    assert_close(inv.m21, back.m21, 20);
    assert_close(inv.m22, back.m22, 20);
    // A rotation by nothing is the identity.
    let still = Matrix34::rotate(Vec3M::new(SCALE, 0, 0), 0);
    assert_close(still.m00, SCALE, 2);
    assert_close(still.m11, SCALE, 2);
    assert_close(still.m22, SCALE, 2);
    assert_close(still.m01, 0, 2);
}

#[test]
fn color_compositing() {
    let c = Color::new(4000, 5000, 6000);
    let d = Color::new(8000, 8000, 8000);
    // Addition is the exact componentwise sum while it stays in range.
    assert_eq!(c.add(Color::new(1000, 2000, 3000)), Color::new(5000, 7000, 9000));
    let x = AColor::new(1000, 2000, 3000);
    let y = AColor::new(4000, 4000, 4000);
    assert_eq!(x.add(y), AColor::new(5000, 6000, 7000));
    // The sum law is order-independent.
    assert_eq!(x.add(y), y.add(x));
    // The saturating accumulator clamps at full intensity instead.
    let sum = c.saturating_add(d);
    assert_eq!(sum, Color::new(SCALE, SCALE, SCALE));
    // Scaling filters each channel, clamping negatives away.
    assert_eq!(c.scale(5000), Color::new(2000, 2500, 3000));
    assert_eq!(c.scale(-5000), black());
    assert_eq!(c.mul(white()), c);
    assert_eq!(c.mul(black()), black());
    let a = AColor::new(4000, 5000, 6000);
    assert_eq!(a.transparency(), 0);
    assert_eq!(AColor::transparent().transparency(), SCALE);
    assert_eq!(a.scale(5000).opaque(), Color::new(2000, 2500, 3000));
    assert_eq!(Color::new_gray(7000), Color::new(7000, 7000, 7000));
    assert_eq!(c.red(), 4000);
    assert_eq!(c.green(), 5000);
    assert_eq!(c.blue(), 6000);
}

#[test]
fn material_presets() {
    let v = vacuum();
    assert_eq!(v.refraction_index, SCALE);
    assert_eq!(v.refractivity, SCALE);
    let g = glass();
    assert_eq!(g.refraction_index, 15000);
    assert_eq!(g.refractivity, 9000);
    let m = reflective_material(9000, black());
    assert_eq!(m.reflectance, 9000);
    assert_eq!(m.diffuse, 0);
    let n = neutral_material();
    assert_eq!(n.ambient, 2000);
    assert_eq!(color_material(white()).color, white());
}

#[test]
fn approximate_vector_and_matrix_comparison() {
    let v = Vec3M::new(SCALE, 2 * SCALE, 3 * SCALE);
    let w = Vec3M::new(SCALE + 1, 2 * SCALE - 1, 3 * SCALE);
    assert!(v.appr_eq(&w));
    assert!(!v.appr_eq(&Vec3M::zero()));
    assert_eq!(v.appr_cmp(&w), Some(core::cmp::Ordering::Equal));
    assert_eq!(v.appr_cmp(&Vec3M::new(2 * SCALE, 2 * SCALE, 4 * SCALE)),
        Some(core::cmp::Ordering::Less));
    assert_eq!(Vec3M::new(2 * SCALE, 2 * SCALE, 4 * SCALE).appr_cmp(&v),
        Some(core::cmp::Ordering::Greater));
    assert_eq!(v.appr_cmp(&Vec3M::new(0, 3 * SCALE, 3 * SCALE)), None);
    let a = Matrix34::translate(v);
    let almost = Matrix34::translate(Vec3M::new(SCALE + 1, 2 * SCALE, 3 * SCALE - 1));
    assert!(a.appr_eq(&almost));
    assert!(!a.appr_eq(&Matrix34::identity()));
}
