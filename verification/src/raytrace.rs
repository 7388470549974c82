use vstd::prelude::*;

use crate::basic::{DelayedIntersection, Intersection, Ray, offset_point, point_in_reach, ray_ok,
    reflect_ray, refract_ray, shadow_ray};
use crate::color::{AColor, Color, acolor_ok, channel_scale, color_ok};
use crate::fixed::{NORM_IN_MAX, SCALE, T_MAX, fdiv, fmul, iabs, lemma_mul_bound,
    lemma_tdiv_abs_le, lemma_tdiv_nonneg, sqrt_floor, tdiv};
use crate::img_output::{Image, image_wf};
use crate::lin_alg::{UnitVec3, Vec3, Vec3M, in_range, is_unit, normalize_res, fx_tan_half,
    TWO_PI_FX};
use crate::material::{Material, material_ok};
use crate::objects::surface::{Surface, surface_clear_below, surface_hit_data, surface_wf,
    surface_would_hit, lemma_surface_clear_from_miss, lemma_surface_clear_mono};
use crate::physics::{compute_specular, fresnel, fresnel_spec};

verus! {

/// Recursive traces stop once the carried intensity falls below this
/// fraction of one (`1/256`): an approximate, not exact, energy cutoff.
pub const INTENSITY_DEN: i64 = 256;

/// The maximum recursion depth of the ray trace.
pub const TRACE_MAX_DEPTH: u32 = 10;

/// Contains information about the camera.
pub struct Camera {
    /// The position of the camera.
    pub pos: Vec3,
    /// A point that the camera looks at.
    pub look_at: Vec3,
    /// A vector pointing upwards, to the top of the image.
    pub up: Vec3,
    /// The horizontal field of view, in fixed-point radians, strictly
    /// between zero and half a turn.
    pub horizontal_fov: i64,
    /// The quotient `width / height` of the image, in fixed point.
    pub aspect_ratio: i64,
    /// The width of the image in pixels.
    pub width: usize,
    /// The height of the image in pixels.
    pub height: usize,
}

/// A camera the renderer can drive.
pub open spec fn camera_wf(c: &Camera) -> bool {
    &&& in_range(c.pos)
    &&& in_range(c.look_at)
    &&& in_range(c.up)
    &&& !(c.up.x == 0 && c.up.y == 0 && c.up.z == 0)
    &&& !(c.look_at.x == c.pos.x && c.look_at.y == c.pos.y && c.look_at.z == c.pos.z)
    &&& 0 < c.horizontal_fov < 2 * PI_ISH
    &&& 100 <= c.aspect_ratio <= 1_000_000
    &&& 1 <= c.width <= 100_000
    &&& 1 <= c.height <= 100_000
    &&& c.width * c.height <= usize::MAX
}

/// Half a turn, rounded up, for the field-of-view range.
pub const PI_ISH: i64 = 31416;

/// Information about a point light source.
pub struct LightSource {
    /// The position of the light.
    pub pos: Vec3,
    /// The color of the light.
    pub col: Color,
}

pub open spec fn light_wf(l: &LightSource) -> bool {
    &&& in_range(l.pos)
    &&& color_ok(l.col)
}

/// Contains all the information about a scene: the camera, the surfaces
/// and the lights, all read-only while rendering.
pub struct Scene {
    /// The camera in the scene.
    pub camera: Camera,
    /// The objects in the scene.
    pub objects: Vec<Surface>,
    /// The lights in the scene.
    pub lights: Vec<LightSource>,
    /// The color of ambient light in the scene.
    pub ambient_color: Color,
}

/// A scene the renderer can trace.
pub open spec fn scene_wf(s: &Scene) -> bool {
    &&& camera_wf(&s.camera)
    &&& forall|j: int| 0 <= j < s.objects@.len() ==> surface_wf(#[trigger] &s.objects@[j])
    &&& forall|j: int| 0 <= j < s.lights@.len() ==> light_wf(#[trigger] &s.lights@[j])
    &&& color_ok(s.ambient_color)
}

/// Whether any surface of the scene reports a hit within `(EPS, m]`.
pub open spec fn scene_would_hit(s: &Scene, r: Ray, m: int) -> bool {
    exists|j: int| 0 <= j < s.objects@.len() && surface_would_hit(#[trigger] &s.objects@[j], r, m)
}

/// The fully transparent result of a trace, scaled by its intensity.
pub open spec fn scaled_transparent(intensity: int) -> AColor {
    AColor {
        c: Color {
            r: channel_scale(intensity, 0) as i64,
            g: channel_scale(intensity, 0) as i64,
            b: channel_scale(intensity, 0) as i64,
        },
        a: channel_scale(intensity, SCALE as int) as i64,
    }
}

impl Scene {
    /// Checks whether the ray hits any surface of the scene within
    /// `(EPS, t_max]` (the shadow test).
    pub fn is_hit_by(&self, ray: Ray, t_max: i64) -> (res: bool)
        requires
            scene_wf(self),
            ray_ok(ray),
            0 <= t_max <= T_MAX,
        ensures
            res == scene_would_hit(self, ray, t_max as int),
    {
        let mut j: usize = 0;
        while j < self.objects.len()
            invariant
                j <= self.objects@.len(),
                scene_wf(self),
                ray_ok(ray),
                0 <= t_max <= T_MAX,
                forall|jj: int|
                    0 <= jj < j ==> !surface_would_hit(#[trigger] &self.objects@[jj], ray,
                        t_max as int),
            decreases self.objects@.len() - j,
        {
            if self.objects[j].is_hit_by(ray, t_max) {
                return true;
            }
            j = j + 1;
        }
        false
    }

    /// Finds the nearest intersection of the ray with the scene within
    /// `(EPS, t_max]`, by scanning the surfaces and narrowing the bound
    /// to the best hit found.
    fn nearest_intersection(&self, ray: Ray, t_max: i64) -> (res: Option<DelayedIntersection>)
        requires
            scene_wf(self),
            ray_ok(ray),
            0 <= t_max <= T_MAX,
        ensures
            res.is_some() == scene_would_hit(self, ray, t_max as int),
            res.is_some() ==> scene_nearest_ok(self, ray, t_max as int, res.unwrap()),
    {
        proof {
            use_type_invariant(ray.dir);
        }
        let mut nearest: Option<DelayedIntersection> = None;
        let mut nearest_t: i64 = t_max;
        let mut j: usize = 0;
        while j < self.objects.len()
            invariant
                j <= self.objects@.len(),
                scene_wf(self),
                ray_ok(ray),
                is_unit(ray.dir.vec()),
                0 <= nearest_t <= t_max <= T_MAX,
                nearest.is_none() ==> nearest_t == t_max,
                nearest.is_none() ==> forall|jj: int|
                    0 <= jj < j ==> !surface_would_hit(#[trigger] &self.objects@[jj], ray,
                        t_max as int),
                nearest.is_some() ==> {
                    &&& nearest.unwrap().t == nearest_t
                    &&& exists|jj: int|
                        0 <= jj < self.objects@.len() && surface_hit_data(
                            #[trigger] &self.objects@[jj],
                            ray,
                            nearest.unwrap(),
                        ) && surface_would_hit(&self.objects@[jj], ray, t_max as int)
                    &&& forall|jj: int|
                        0 <= jj < j ==> surface_clear_below(#[trigger] &self.objects@[jj], ray,
                            nearest_t as int)
                    &&& material_ok(nearest.unwrap().inter.material)
                    &&& nearest.unwrap().inter.t == nearest.unwrap().t
                    &&& nearest.unwrap().inter.point == crate::basic::ray_at(ray,
                        nearest.unwrap().t as int)
                },
            decreases self.objects@.len() - j,
        {
            let found: Option<DelayedIntersection> = self.objects[j].intersect(ray, nearest_t);
            match found {
                None => {
                    proof {
                        if nearest.is_some() {
                            lemma_surface_clear_from_miss(&self.objects@[j as int], ray,
                                nearest_t as int, nearest_t as int);
                        } else {
                        }
                    }
                },
                Some(di) => {
                    proof {
                        assert forall|jj: int| 0 <= jj < j implies surface_clear_below(
                            #[trigger] &self.objects@[jj],
                            ray,
                            di.t as int,
                        ) by {
                            if nearest.is_some() {
                                lemma_surface_clear_mono(&self.objects@[jj], ray, di.t as int,
                                    nearest_t as int);
                            } else {
                                lemma_surface_clear_from_miss(&self.objects@[jj], ray,
                                    t_max as int, di.t as int);
                            }
                        }
                        if nearest.is_some() {
                            crate::objects::surface::lemma_surface_hit_mono(
                                &self.objects@[j as int],
                                ray,
                                nearest_t as int,
                                t_max as int,
                            );
                        }
                        assert(surface_hit_data(&self.objects@[j as int], ray, di));
                        assert(surface_would_hit(&self.objects@[j as int], ray, t_max as int));
                    }
                    nearest = Some(di);
                    nearest_t = di.t;
                },
            }
            j = j + 1;
        }
        proof {
            if nearest.is_some() {
                let jj = choose|jj: int|
                    0 <= jj < self.objects@.len() && surface_hit_data(
                        #[trigger] &self.objects@[jj],
                        ray,
                        nearest.unwrap(),
                    ) && surface_would_hit(&self.objects@[jj], ray, t_max as int);
                assert(scene_would_hit(self, ray, t_max as int));
            }
        }
        nearest
    }
}


} // verus!

verus! {

/// Whether a scaled contribution is still visible: the product of the
/// two fixed-point factors exceeds the `1/256` cutoff.
pub open spec fn above_threshold(a: int, b: int) -> bool {
    256 * a * b > SCALE * SCALE
}

fn above_threshold_exec(a: i64, b: i64) -> (r: bool)
    requires
        0 <= a <= SCALE,
        0 <= b <= SCALE,
    ensures
        r == above_threshold(a as int, b as int),
{
    proof {
        lemma_mul_bound(a as int, b as int, SCALE as int, SCALE as int);
        assert(256 * ((a as int) * (b as int)) == 256 * (a as int) * (b as int))
            by (nonlinear_arith);
    }
    256 * ((a as i128) * (b as i128)) > (SCALE as i128) * (SCALE as i128)
}

/// Clamps a fixed-point value into the unit interval.
pub open spec fn clamp01(x: int) -> int {
    if x < 0 {
        0
    } else if x > SCALE {
        SCALE as int
    } else {
        x
    }
}

fn clamp01_exec(x: i64) -> (r: i64)
    ensures
        r == clamp01(x as int),
        0 <= r <= SCALE,
{
    if x < 0 {
        0
    } else if x > SCALE {
        SCALE
    } else {
        x
    }
}

/// Whether new rays may be spawned at the point: it stays far enough
/// inside the ray-origin range that the epsilon offsets cannot leave it.
/// Hit points on in-range geometry always satisfy this.
pub open spec fn spawn_safe(p: Vec3M) -> bool {
    &&& iabs(p.x as int) <= 8 * crate::fixed::COORD_MAX - 3
    &&& iabs(p.y as int) <= 8 * crate::fixed::COORD_MAX - 3
    &&& iabs(p.z as int) <= 8 * crate::fixed::COORD_MAX - 3
}

fn spawn_safe_exec(p: Vec3) -> (r: bool)
    ensures
        r == spawn_safe(p),
{
    let b: i64 = 8 * crate::fixed::COORD_MAX - 3;
    -b <= p.x && p.x <= b && -b <= p.y && p.y <= b && -b <= p.z && p.z <= b
}

/// The ambient term of the local illumination: the ambient coefficient
/// times the ambient light filtered by the material color.
pub open spec fn ambient_term(s: &Scene, mat: Material) -> AColor {
    AColor {
        c: Color {
            r: channel_scale(mat.ambient as int, channel_scale(s.ambient_color.r as int,
                mat.color.r as int)) as i64,
            g: channel_scale(mat.ambient as int, channel_scale(s.ambient_color.g as int,
                mat.color.g as int)) as i64,
            b: channel_scale(mat.ambient as int, channel_scale(s.ambient_color.b as int,
                mat.color.b as int)) as i64,
        },
        a: 0,
    }
}

impl Scene {
    /// Traces the ray through the scene and returns its color, scaled by
    /// the carried intensity: the shaded nearest hit, or transparency
    /// where nothing is hit.
    pub fn trace_ray(&self, ray: Ray, intensity: i64, depth: u32, t_max: i64) -> (res: AColor)
        requires
            scene_wf(self),
            ray_ok(ray),
            0 <= intensity <= SCALE,
            depth <= TRACE_MAX_DEPTH + 2,
            0 <= t_max <= T_MAX,
        ensures
            acolor_ok(res),
            trace_rel(self, ray, intensity as int, depth as int, t_max as int, res),
            !scene_would_hit(self, ray, t_max as int) ==> res == scaled_transparent(
                intensity as int,
            ),
        decreases TRACE_MAX_DEPTH + 4 - depth, 3int,
    {
        let nearest: Option<DelayedIntersection> = self.nearest_intersection(ray, t_max);
        match nearest {
            Some(di) => {
                let inter: Intersection = di.eval();
                proof {
                    use_type_invariant(ray.dir);
                    crate::basic::lemma_ray_at_in_reach(ray, di.t as int);
                }
                let base: AColor = self.shade(ray, &inter, intensity, depth + 1);
                let res: AColor = base.scale(intensity);
                proof {
                    assert(res == crate::color::acolor_scale_s(intensity as int, base));
                    assert(scene_nearest_ok(self, ray, t_max as int, di) && shade_rel(
                        self,
                        ray,
                        di.inter,
                        intensity as int,
                        depth as int + 1,
                        base,
                    ));
                    assert(witness_hit(di) && witness_color(base));
                    assert(trace_hit_case(self, ray, intensity as int, depth as int,
                        t_max as int, res));
                }
                res
            },
            None => {
                let res: AColor = AColor::transparent().scale(intensity);
                proof {
                    assert(res == crate::color::acolor_scale_s(
                        intensity as int,
                        crate::color::transparent_val(),
                    ));
                }
                res
            },
        }
    }

    /// Determines the color of an intersection point: local illumination
    /// plus mirror reflection and refraction.
    fn shade(&self, ray: Ray, inter: &Intersection, intensity: i64, depth: u32) -> (res: AColor)
        requires
            scene_wf(self),
            0 <= intensity <= SCALE,
            depth <= TRACE_MAX_DEPTH + 3,
            material_ok(inter.material),
            point_in_reach(inter.point),
        ensures
            acolor_ok(res),
            shade_rel(self, ray, *inter, intensity as int, depth as int, res),
        decreases TRACE_MAX_DEPTH + 4 - depth, 2int,
    {
        let local: AColor = self.compute_illuminance(ray.dir, inter);
        let transported: AColor = self.compute_reflection_refraction(ray.dir, inter, intensity,
            depth);
        let res: AColor = local.saturating_add(transported);
        proof {
            assert(res == crate::color::acolor_sadd(illum_spec(self, ray.dir.vec(), *inter),
                transported));
            assert(rr_rel(self, ray.dir.vec(), *inter, intensity as int, depth as int,
                transported));
            assert(witness_color(transported));
            assert(shade_case(self, ray, *inter, intensity as int, depth as int, res));
        }
        res
    }

    /// Computes the illuminance at the intersection point: the ambient
    /// term, plus the diffuse and specular contribution of every light
    /// the point is not shadowed from.
    fn compute_illuminance(&self, dir: UnitVec3, inter: &Intersection) -> (res: AColor)
        requires
            scene_wf(self),
            material_ok(inter.material),
            point_in_reach(inter.point),
        ensures
            res == illum_spec(self, dir.vec(), *inter),
            acolor_ok(res),
    {
        let mat: Material = inter.material;
        let base: Color = self.ambient_color.mul(mat.color);
        let mut color: AColor = base.scale(mat.ambient).with_alpha();
        proof {
            assert(color == ambient_term(self, inter.material));
        }
        if !spawn_safe_exec(inter.point) {
            return color;
        }
        let mut j: usize = 0;
        while j < self.lights.len()
            invariant
                j <= self.lights@.len(),
                scene_wf(self),
                material_ok(inter.material),
                mat == inter.material,
                point_in_reach(inter.point),
                spawn_safe(inter.point),
                acolor_ok(color),
                color == illum_upto(self, dir.vec(), *inter, j as int),
            decreases self.lights@.len() - j,
        {
            proof {
                assert(light_wf(&self.lights@[j as int]));
            }
            let light: LightSource = LightSource {
                pos: self.lights[j].pos,
                col: self.lights[j].col,
            };
            proof {
                assert(light == self.lights@[j as int]);
            }
            let ghost before = color;
            let lv: Vec3 = light.pos.sub(inter.point);
            proof {
                assert(lv == light_vec_of(light, inter.point));
            }
            if !(lv.x == 0 && lv.y == 0 && lv.z == 0) {
                proof {
                    lemma_light_distance(lv);
                }
                let t_light: i64 = lv.norm();
                let light_dir: UnitVec3 = lv.normalize();
                proof {
                    use_type_invariant(inter.normal);
                    crate::basic::lemma_offset_in_range(inter.point, inter.normal.vec());
                }
                let shadow: Ray = shadow_ray(inter, light_dir);
                let blocked: bool = self.is_hit_by(shadow, t_light);
                proof {
                    if blocked {
                        assert(shadow.dir.vec() == normalize_res(light_vec_of(light,
                            inter.point)));
                        assert(shadowed(self, *inter, light));
                    } else {
                        if shadowed(self, *inter, light) {
                            let sr = choose|sr: Ray|
                                sr.origin == offset_point(inter.point, inter.normal.vec(), true)
                                    && (#[trigger] sr.dir.vec()) == normalize_res(light_vec_of(
                                    light,
                                    inter.point,
                                )) && scene_would_hit(self, sr, light_dist_of(light, inter.point));
                            lemma_scene_hit_same_ray(self, sr, shadow, light_dist_of(light,
                                inter.point));
                        }
                    }
                }
                if !blocked {
                    proof {
                        use_type_invariant(light_dir);
                        crate::physics::lemma_udot_bound(light_dir.vec(), inter.normal.vec());
                    }
                    let ln: i64 = light_dir.to().dot(inter.normal.to());
                    let ld: i64 = if ln < 0 {
                        0
                    } else {
                        ln
                    };
                    proof {
                        lemma_mul_bound(mat.diffuse as int, ld as int, 1_000_000, 120_000);
                        crate::fixed::lemma_tdiv_abs_le((mat.diffuse as int) * (ld as int),
                            SCALE as int, 12_000_000_000);
                    }
                    let lambert_c: i64 = crate::fixed::fx_mul(mat.diffuse, ld);
                    let lambert: Color = light.col.mul(mat.color).scale(lambert_c);
                    let ndir: UnitVec3 = dir.neg();
                    proof {
                        assert(ndir.vec() == neg_vec(dir.vec()));
                    }
                    let sp: i64 = compute_specular(ndir, light_dir, inter.normal,
                        mat.shininess);
                    proof {
                        lemma_mul_bound(mat.specular as int, sp as int, 1_000_000, SCALE as int);
                        crate::fixed::lemma_tdiv_abs_le((mat.specular as int) * (sp as int),
                            SCALE as int, 1_000_000);
                    }
                    let specular_c: i64 = crate::fixed::fx_mul(mat.specular, sp);
                    let specular: Color = light.col.scale(specular_c);
                    color = color.saturating_add(lambert.with_alpha()).saturating_add(
                        specular.with_alpha(),
                    );
                    proof {
                        assert(color == illum_step(self, dir.vec(), *inter, before, light));
                    }
                }
            }
            proof {
                assert(color == illum_step(self, dir.vec(), *inter, before, light));
                assert(color == illum_upto(self, dir.vec(), *inter, j + 1));
            }
            j = j + 1;
        }
        color
    }

    /// Computes the refraction for transparent objects and the mirror
    /// reflection for reflective ones, each fired only while its energy
    /// stays visible and the depth budget allows.
    fn compute_reflection_refraction(&self, dir: UnitVec3, inter: &Intersection, intensity: i64,
        depth: u32) -> (res: AColor)
        requires
            scene_wf(self),
            0 <= intensity <= SCALE,
            depth <= TRACE_MAX_DEPTH + 3,
            material_ok(inter.material),
            point_in_reach(inter.point),
        ensures
            acolor_ok(res),
            rr_rel(self, dir.vec(), *inter, intensity as int, depth as int, res),
        decreases TRACE_MAX_DEPTH + 4 - depth, 1int,
    {
        let mat: Material = inter.material;
        let mut color: AColor = AColor::new(0, 0, 0);
        if !spawn_safe_exec(inter.point) {
            proof {
                assert(color == crate::color::black_val());
            }
            return color;
        }
        let rf: bool = mat.reflectance > 0 && above_threshold_exec(mat.reflectance, intensity)
            && depth < TRACE_MAX_DEPTH;
        let gf: bool = mat.refractivity > 0 && above_threshold_exec(mat.refractivity, intensity)
            && depth < TRACE_MAX_DEPTH;
        proof {
            assert(rf == refl_fires(mat, intensity as int, depth as int));
            assert(gf == refr_fires(mat, intensity as int, depth as int));
        }
        let refl_part: Option<(Ray, AColor)> = if rf {
            proof {
                use_type_invariant(inter.normal);
                crate::basic::lemma_offset_in_range(inter.point, inter.normal.vec());
                crate::fixed::lemma_fmul_unit(mat.reflectance as int, intensity as int);
            }
            let reflected: Ray = reflect_ray(inter, dir);
            let ri: i64 = crate::fixed::fx_mul(mat.reflectance, intensity);
            let t1: AColor = self.trace_ray(reflected, ri, depth + 1, T_MAX);
            color = color.saturating_add(t1);
            Some((reflected, t1))
        } else {
            None
        };
        let refr_part: Option<AColor> = if gf {
            let t2: AColor = self.compute_recursive_refraction(dir, inter, intensity, depth);
            color = color.saturating_add(t2);
            Some(t2)
        } else {
            None
        };
        proof {
            let dv = dir.vec();
            let zero = crate::color::black_val();
            if rf && gf {
                let (rray, t1) = refl_part.unwrap();
                let t2 = refr_part.unwrap();
                assert(trace_rel(self, rray, fmul(mat.reflectance as int, intensity as int),
                    depth as int + 1, T_MAX as int, t1));
                assert(recref_rel(self, dv, *inter, intensity as int, depth as int, t2));
                assert(color == crate::color::acolor_sadd(crate::color::acolor_sadd(zero, t1),
                    t2));
                assert(witness_ray(rray) && witness_color(t1) && witness_color(t2));
                assert(rr_both_case(self, dv, *inter, intensity as int, depth as int, color));
            } else if rf {
                let (rray, t1) = refl_part.unwrap();
                assert(trace_rel(self, rray, fmul(mat.reflectance as int, intensity as int),
                    depth as int + 1, T_MAX as int, t1));
                assert(color == crate::color::acolor_sadd(zero, t1));
                assert(witness_ray(rray) && witness_color(t1));
                assert(rr_refl_case(self, dv, *inter, intensity as int, depth as int, color));
            } else if gf {
                let t2 = refr_part.unwrap();
                assert(recref_rel(self, dv, *inter, intensity as int, depth as int, t2));
                assert(color == crate::color::acolor_sadd(zero, t2));
                assert(witness_color(t2));
                assert(rr_refr_case(self, dv, *inter, intensity as int, depth as int, color));
            } else {
                assert(color == zero);
            }
        }
        color
    }

    /// Traces the refracted and the reflected ray at a transparent
    /// surface; under total internal reflection all the refractive
    /// energy goes into the reflected ray.
    fn compute_recursive_refraction(&self, dir: UnitVec3, inter: &Intersection, intensity: i64,
        depth: u32) -> (res: AColor)
        requires
            scene_wf(self),
            0 <= intensity <= SCALE,
            depth < TRACE_MAX_DEPTH,
            material_ok(inter.material),
            point_in_reach(inter.point),
            spawn_safe(inter.point),
        ensures
            acolor_ok(res),
            recref_rel(self, dir.vec(), *inter, intensity as int, depth as int, res),
        decreases TRACE_MAX_DEPTH + 4 - depth, 0int,
    {
        let mat: Material = inter.material;
        proof {
            use_type_invariant(dir);
            use_type_invariant(inter.normal);
            crate::physics::lemma_udot_bound(dir.vec(), inter.normal.vec());
        }
        let dn: i64 = dir.to().dot(inter.normal.to());
        let (ior, normal): (i64, UnitVec3) = if dn < 0 {
            (mat.refraction_index, inter.normal)
        } else {
            proof {
                assert((SCALE as int) * (SCALE as int) / (mat.refraction_index as int) >= 1)
                    by (nonlinear_arith)
                    requires
                        1 <= mat.refraction_index <= 1_000_000,
                        SCALE == 10000,
                ;
                crate::fixed::lemma_tdiv_abs_le((SCALE as int) * (SCALE as int),
                    mat.refraction_index as int, 100_000_000);
            }
            (crate::fixed::fx_div(SCALE, mat.refraction_index), inter.normal.neg())
        };
        proof {
            assert(normal.vec() == refr_normal(dir.vec(), *inter));
            assert(ior == refr_ior(dir.vec(), *inter));
        }
        let inter2: Intersection = Intersection {
            t: inter.t,
            point: inter.point,
            normal,
            material: inter.material,
        };
        proof {
            use_type_invariant(inter2.normal);
            crate::basic::lemma_offset_in_range(inter2.point, inter2.normal.vec());
        }
        let reflected: Ray = reflect_ray(&inter2, dir);
        let refracted: Option<Ray> = refract_ray(&inter2, dir, ior);
        proof {
            crate::fixed::lemma_fmul_unit(intensity as int, mat.refractivity as int);
        }
        let energy: i64 = crate::fixed::fx_mul(intensity, mat.refractivity);
        match refracted {
            None => {
                let traced: AColor = self.trace_ray(reflected, energy, depth + 1, T_MAX);
                proof {
                    assert(crate::physics::refract_k(dir.vec(), refr_normal(dir.vec(), *inter),
                        refr_ior(dir.vec(), *inter)) < 0);
                    assert(trace_rel(self, reflected, refr_energy(*inter, intensity as int),
                        depth as int + 1, T_MAX as int, traced));
                    assert(witness_ray(reflected) && witness_color(traced));
                    assert(recref_tir_case(self, dir.vec(), *inter, intensity as int,
                        depth as int, traced));
                }
                traced
            },
            Some(rr) => {
                let f: i64 = fresnel(dir, normal, ior);
                proof {
                    lemma_fresnel_range(dir.vec(), normal.vec(), ior as int);
                    lemma_mul_bound(energy as int, (SCALE - f) as int, SCALE as int, 300_000);
                    crate::fixed::lemma_tdiv_abs_le((energy as int) * ((SCALE - f) as int),
                        SCALE as int, 300_000_000);
                    lemma_mul_bound(energy as int, f as int, SCALE as int, 300_000);
                    crate::fixed::lemma_tdiv_abs_le((energy as int) * (f as int), SCALE as int,
                        300_000_000);
                }
                let refr_i: i64 = clamp01_exec(crate::fixed::fx_mul(energy, SCALE - f));
                let refl_i: i64 = clamp01_exec(crate::fixed::fx_mul(energy, f));
                proof {
                    assert(refl_i == refr_weight_refl(dir.vec(), *inter, intensity as int));
                    assert(refr_i == refr_weight_refr(dir.vec(), *inter, intensity as int));
                }
                let traced_refl: AColor = self.trace_ray(reflected, refl_i, depth + 1, T_MAX);
                let traced_refr: AColor = self.trace_ray(rr, refr_i, depth + 1, T_MAX);
                let res: AColor = traced_refr.saturating_add(traced_refl);
                proof {
                    assert(crate::physics::refract_k(dir.vec(), refr_normal(dir.vec(), *inter),
                        refr_ior(dir.vec(), *inter)) >= 0);
                    assert(trace_rel(self, reflected, refr_weight_refl(dir.vec(), *inter,
                        intensity as int), depth as int + 1, T_MAX as int, traced_refl));
                    assert(trace_rel(self, rr, refr_weight_refr(dir.vec(), *inter,
                        intensity as int), depth as int + 1, T_MAX as int, traced_refr));
                    assert(res == crate::color::acolor_sadd(traced_refr, traced_refl));
                    assert(witness_ray(reflected) && witness_ray(rr) && witness_color(
                        traced_refl) && witness_color(traced_refr));
                    assert(recref_split_case(self, dir.vec(), *inter, intensity as int,
                        depth as int, res));
                }
                res
            },
        }
    }
}

/// The Fresnel factor stays within a small multiple of one.
proof fn lemma_fresnel_range(i: Vec3M, n: Vec3M, r: int)
    ensures
        iabs(fresnel_spec(i, n, r)) <= 250_000,
{
    let c = -crate::physics::udot(i, n);
    let v = r * r + c * c - (SCALE as int) * (SCALE as int);
    if c < 1 || v < 0 {
    } else {
        let g = sqrt_floor(v as nat) as int;
        let gpc = g + c;
        let gmc = g - c;
        let f1 = crate::physics::clamp2(fdiv(gmc, gpc));
        let den = crate::fixed::fmul(c, gmc) + SCALE;
        if den == 0 {
        } else {
            let f2 = crate::physics::clamp2(fdiv(crate::fixed::fmul(c, gpc) - SCALE, den));
            lemma_mul_bound(f1, f1, 2 * SCALE, 2 * SCALE);
            assert(2 * SCALE * (2 * SCALE) == 4 * SCALE * SCALE) by (nonlinear_arith);
            crate::fixed::lemma_tdiv_abs_le(f1 * f1, SCALE as int, 4 * SCALE);
            lemma_mul_bound(f2, f2, 2 * SCALE, 2 * SCALE);
            crate::fixed::lemma_tdiv_abs_le(f2 * f2, SCALE as int, 4 * SCALE);
            lemma_mul_bound(crate::fixed::fmul(f1, f1), crate::fixed::fmul(f2, f2) + SCALE,
                4 * SCALE, 5 * SCALE);
            assert(4 * SCALE * (5 * SCALE) == 20 * SCALE * SCALE) by (nonlinear_arith);
            crate::fixed::lemma_tdiv_abs_le(crate::fixed::fmul(f1, f1) * (crate::fixed::fmul(
                f2, f2) + SCALE), SCALE as int, 20 * SCALE);
            crate::fixed::lemma_tdiv_abs_le(crate::fixed::fmul(crate::fixed::fmul(f1, f1),
                crate::fixed::fmul(f2, f2) + SCALE), 2, 10 * SCALE);
        }
    }
}

/// The vector from a spawn-safe point to an in-range light is short
/// enough for the shadow test's distance bound.
proof fn lemma_light_distance(lv: Vec3M)
    requires
        iabs(lv.x as int) <= 9 * crate::fixed::COORD_MAX,
        iabs(lv.y as int) <= 9 * crate::fixed::COORD_MAX,
        iabs(lv.z as int) <= 9 * crate::fixed::COORD_MAX,
    ensures
        sqrt_floor((lv.x * lv.x + lv.y * lv.y + lv.z * lv.z) as nat) <= T_MAX,
        iabs(lv.x as int) <= NORM_IN_MAX,
        iabs(lv.y as int) <= NORM_IN_MAX,
        iabs(lv.z as int) <= NORM_IN_MAX,
{
    crate::fixed::lemma_mul_bound(lv.x as int, lv.x as int, 9 * crate::fixed::COORD_MAX,
        9 * crate::fixed::COORD_MAX);
    crate::fixed::lemma_mul_bound(lv.y as int, lv.y as int, 9 * crate::fixed::COORD_MAX,
        9 * crate::fixed::COORD_MAX);
    crate::fixed::lemma_mul_bound(lv.z as int, lv.z as int, 9 * crate::fixed::COORD_MAX,
        9 * crate::fixed::COORD_MAX);
    crate::fixed::lemma_square(lv.x as int);
    crate::fixed::lemma_square(lv.y as int);
    crate::fixed::lemma_square(lv.z as int);
    assert(9 * crate::fixed::COORD_MAX * (9 * crate::fixed::COORD_MAX)
        == 810_000_000_000_000_000) by (nonlinear_arith);
    let n = (lv.x * lv.x + lv.y * lv.y + lv.z * lv.z) as nat;
    crate::fixed::lemma_sqrt_floor(n);
    let s = sqrt_floor(n);
    if s > T_MAX {
        assert((s as int) * (s as int) > 2_430_000_000_000_000_000) by (nonlinear_arith)
            requires
                s as int > T_MAX,
                T_MAX == 10_000_000_000,
        ;
    }
}

} // verus!

verus! {

/// A basis-vector component scaled by the clamped view factor stays an
/// in-range coordinate.
proof fn lemma_basis_scale(k: int, c: int)
    requires
        iabs(k) <= crate::fixed::COORD_MAX,
        iabs(c) <= 2 * SCALE,
    ensures
        iabs(crate::fixed::fmul(k, c)) <= 2 * crate::fixed::COORD_MAX,
{
    lemma_mul_bound(k, c, crate::fixed::COORD_MAX as int, 2 * SCALE);
    assert(crate::fixed::COORD_MAX * (2 * SCALE) == 2_000_000_000_000) by (nonlinear_arith);
    crate::fixed::lemma_tdiv_abs_le(k * c, SCALE as int, 2 * crate::fixed::COORD_MAX);
}

/// A basis vector scaled by a pixel coordinate inside the image square
/// stays an in-range coordinate.
proof fn lemma_pixel_scale(k: int, c: int)
    requires
        iabs(k) <= SCALE,
        iabs(c) <= 2 * crate::fixed::COORD_MAX,
    ensures
        iabs(crate::fixed::fmul(k, c)) <= 2 * crate::fixed::COORD_MAX,
{
    lemma_mul_bound(k, c, SCALE as int, 2 * crate::fixed::COORD_MAX);
    assert(SCALE * (2 * crate::fixed::COORD_MAX) == 2_000_000_000_000) by (nonlinear_arith);
    crate::fixed::lemma_tdiv_abs_le(k * c, SCALE as int, 2 * crate::fixed::COORD_MAX);
}

/// Pixels written earlier in the scan never share a buffer slot with
/// the one being written.
proof fn lemma_row_index(yy: int, xx: int, y: int, x: int, w: int)
    requires
        0 <= xx < w,
        0 <= x,
        0 <= yy <= y,
        yy < y || xx < x,
    ensures
        0 <= yy * w + xx < y * w + x,
{
    assert(0 <= yy * w + xx < y * w + x) by (nonlinear_arith)
        requires
            0 <= xx < w,
            0 <= x,
            0 <= yy <= y,
            yy < y || xx < x,
    ;
}

impl Scene {
    /// Renders the scene: for each pixel a primary ray is built from the
    /// camera basis and traced with full intensity.
    #[verifier::rlimit(100)]
    pub fn render(&self) -> (img: Image)
        requires
            scene_wf(self),
        ensures
            image_wf(&img),
            img.width == self.camera.width,
            img.height == self.camera.height,
            forall|yy: int, xx: int|
                0 <= yy < self.camera.height && 0 <= xx < self.camera.width
                    ==> pixel_color_rel(
                    self,
                    xx,
                    yy,
                    #[trigger] img.pixels@[yy * self.camera.width + xx],
                ),
    {
        let cam: &Camera = &self.camera;
        let h0: i64 = fx_tan_half(cam.horizontal_fov);
        let horizontal: i64 = if h0 < 1 {
            1
        } else if h0 > crate::fixed::COORD_MAX {
            crate::fixed::COORD_MAX
        } else {
            h0
        };
        proof {
            assert(horizontal == cam_horizontal(cam));
        }
        let dirv: Vec3 = cam.look_at.sub(cam.pos);
        let camera_dir: UnitVec3 = dirv.normalize();
        proof {
            use_type_invariant(camera_dir);
            assert(camera_dir.vec() == cam_forward(cam));
            crate::lin_alg::lemma_cross_fits(camera_dir.vec(), cam.up);
        }
        let r0v: Vec3 = camera_dir.to().cross(cam.up);
        let right_u: UnitVec3 = if r0v.x == 0 && r0v.y == 0 && r0v.z == 0 {
            Vec3M::e1()
        } else {
            r0v.normalize()
        };
        proof {
            use_type_invariant(right_u);
            assert(right_u.vec() == cam_right_unit(cam));
            lemma_basis_scale(horizontal as int, right_u.vec().x as int);
            lemma_basis_scale(horizontal as int, right_u.vec().y as int);
            lemma_basis_scale(horizontal as int, right_u.vec().z as int);
        }
        let right: Vec3 = right_u.to().scale(horizontal);
        proof {
            assert(right == cam_right(cam));
            crate::lin_alg::lemma_cross_fits(right, camera_dir.vec());
        }
        let upv: Vec3 = right.cross(camera_dir.to());
        let up_u: UnitVec3 = if upv.x == 0 && upv.y == 0 && upv.z == 0 {
            Vec3M::e2()
        } else {
            upv.normalize()
        };
        proof {
            crate::fixed::lemma_tdiv_abs_le(horizontal as int * SCALE, cam.aspect_ratio as int,
                10_000_000_000);
            lemma_mul_bound(horizontal as int, SCALE as int, crate::fixed::COORD_MAX as int,
                SCALE as int);
        }
        let vfac0: i64 = crate::fixed::fx_div(horizontal, cam.aspect_ratio);
        let vfac: i64 = if vfac0 < 1 {
            1
        } else if vfac0 > crate::fixed::COORD_MAX {
            crate::fixed::COORD_MAX
        } else {
            vfac0
        };
        proof {
            use_type_invariant(up_u);
            assert(up_u.vec() == cam_up_unit(cam));
            assert(vfac == cam_vfac(cam));
            lemma_basis_scale(vfac as int, up_u.vec().x as int);
            lemma_basis_scale(vfac as int, up_u.vec().y as int);
            lemma_basis_scale(vfac as int, up_u.vec().z as int);
        }
        let vert: Vec3 = up_u.to().scale(vfac);
        proof {
            assert(vert == cam_vert(cam));
        }
        let mut img: Image = Image::new(cam.width, cam.height);
        let mut y: usize = 0;
        while y < cam.height
            invariant
                y <= cam.height,
                scene_wf(self),
                cam == &self.camera,
                image_wf(&img),
                img.width == cam.width,
                img.height == cam.height,
                iabs(right.x as int) <= 2 * crate::fixed::COORD_MAX,
                iabs(right.y as int) <= 2 * crate::fixed::COORD_MAX,
                iabs(right.z as int) <= 2 * crate::fixed::COORD_MAX,
                iabs(vert.x as int) <= 2 * crate::fixed::COORD_MAX,
                iabs(vert.y as int) <= 2 * crate::fixed::COORD_MAX,
                iabs(vert.z as int) <= 2 * crate::fixed::COORD_MAX,
                is_unit(camera_dir.vec()),
                camera_dir.vec() == cam_forward(cam),
                right == cam_right(cam),
                vert == cam_vert(cam),
                forall|yy: int, xx: int|
                    0 <= yy < y && 0 <= xx < cam.width ==> pixel_color_rel(
                        self,
                        xx,
                        yy,
                        #[trigger] img.pixels@[yy * cam.width + xx],
                    ),
            decreases cam.height - y,
        {
            let mut x: usize = 0;
            while x < cam.width
                invariant
                    x <= cam.width,
                    y < cam.height,
                    scene_wf(self),
                    cam == &self.camera,
                    image_wf(&img),
                    img.width == cam.width,
                    img.height == cam.height,
                    iabs(right.x as int) <= 2 * crate::fixed::COORD_MAX,
                    iabs(right.y as int) <= 2 * crate::fixed::COORD_MAX,
                    iabs(right.z as int) <= 2 * crate::fixed::COORD_MAX,
                    iabs(vert.x as int) <= 2 * crate::fixed::COORD_MAX,
                    iabs(vert.y as int) <= 2 * crate::fixed::COORD_MAX,
                    iabs(vert.z as int) <= 2 * crate::fixed::COORD_MAX,
                    is_unit(camera_dir.vec()),
                    camera_dir.vec() == cam_forward(cam),
                    right == cam_right(cam),
                    vert == cam_vert(cam),
                    forall|yy: int, xx: int|
                        0 <= yy < y && 0 <= xx < cam.width ==> pixel_color_rel(
                            self,
                            xx,
                            yy,
                            #[trigger] img.pixels@[yy * cam.width + xx],
                        ),
                    forall|xx: int|
                        0 <= xx < x ==> pixel_color_rel(
                            self,
                            xx,
                            y as int,
                            #[trigger] img.pixels@[y * cam.width + xx],
                        ),
                decreases cam.width - x,
            {
                proof {
                    lemma_mul_bound(x as int, SCALE as int, 100_000, SCALE as int);
                    lemma_mul_bound(y as int, SCALE as int, 100_000, SCALE as int);
                    crate::fixed::lemma_tdiv_abs_le((x as int) * SCALE, cam.width as int,
                        1_000_000_000);
                    crate::fixed::lemma_tdiv_abs_le((y as int) * SCALE, cam.height as int,
                        1_000_000_000);
                }
                let sx: i64 = crate::fixed::tdiv64((x as i64) * SCALE, cam.width as i64) - SCALE
                    / 2;
                let sy: i64 = SCALE / 2 - crate::fixed::tdiv64((y as i64) * SCALE,
                    cam.height as i64);
                let sxc: i64 = if sx < -SCALE {
                    -SCALE
                } else if sx > SCALE {
                    SCALE
                } else {
                    sx
                };
                let syc: i64 = if sy < -SCALE {
                    -SCALE
                } else if sy > SCALE {
                    SCALE
                } else {
                    sy
                };
                proof {
                    assert(sxc == pixel_sx(cam, x as int));
                    assert(syc == pixel_sy(cam, y as int));
                    lemma_pixel_scale(sxc as int, right.x as int);
                    lemma_pixel_scale(sxc as int, right.y as int);
                    lemma_pixel_scale(sxc as int, right.z as int);
                    lemma_pixel_scale(syc as int, vert.x as int);
                    lemma_pixel_scale(syc as int, vert.y as int);
                    lemma_pixel_scale(syc as int, vert.z as int);
                }
                let dirp: Vec3 = camera_dir.to().add(right.scale(sxc)).add(vert.scale(syc));
                proof {
                    assert(dirp == pixel_dir(cam, x as int, y as int));
                }
                let pixel: AColor = if dirp.x == 0 && dirp.y == 0 && dirp.z == 0 {
                    AColor::transparent()
                } else {
                    let ray: Ray = Ray::newn(cam.pos, dirp);
                    let traced: AColor = self.trace_ray(ray, SCALE, 0, T_MAX);
                    proof {
                        assert(witness_ray(ray));
                        assert(pixel_color_rel(self, x as int, y as int, traced));
                    }
                    traced
                };
                proof {
                    assert(pixel_color_rel(self, x as int, y as int, pixel));
                }
                let ghost oldpix = img.pixels@;
                img.set(x, y, pixel);
                proof {
                    assert(y * cam.width + x < cam.width * cam.height) by (nonlinear_arith)
                        requires
                            x < cam.width,
                            y < cam.height,
                    ;
                    assert forall|yy: int, xx: int|
                        0 <= yy < y && 0 <= xx < cam.width implies pixel_color_rel(
                        self,
                        xx,
                        yy,
                        #[trigger] img.pixels@[yy * cam.width + xx],
                    ) by {
                        lemma_row_index(yy, xx, y as int, x as int, cam.width as int);
                        assert(img.pixels@[yy * cam.width + xx] == oldpix[yy * cam.width + xx]);
                    }
                    assert forall|xx: int| 0 <= xx < x + 1 implies pixel_color_rel(
                        self,
                        xx,
                        y as int,
                        #[trigger] img.pixels@[y * cam.width + xx],
                    ) by {
                        if xx < x {
                            lemma_row_index(y as int, xx, y as int, x as int, cam.width as int);
                            assert(img.pixels@[y * cam.width + xx] == oldpix[y * cam.width + xx]);
                        } else {
                            assert(img.pixels@[y * cam.width + xx] == pixel);
                        }
                    }
                }
                x = x + 1;
            }
            y = y + 1;
        }
        img
    }
}

} // verus!

verus! {

/// Whether the scene reports a hit depends on the ray only through its
/// origin and the direction's coordinates.
pub proof fn lemma_scene_hit_same_ray(s: &Scene, r1: Ray, r2: Ray, m: int)
    requires
        r1.origin == r2.origin,
        r1.dir.vec() == r2.dir.vec(),
    ensures
        scene_would_hit(s, r1, m) == scene_would_hit(s, r2, m),
{
    assert forall|j: int| 0 <= j < s.objects@.len() implies surface_would_hit(
        #[trigger] &s.objects@[j],
        r1,
        m,
    ) == surface_would_hit(&s.objects@[j], r2, m) by {
        crate::objects::surface::lemma_would_hit_same_ray(&s.objects@[j], r1, r2, m);
    }
    if scene_would_hit(s, r1, m) {
        let j = choose|j: int|
            0 <= j < s.objects@.len() && surface_would_hit(#[trigger] &s.objects@[j], r1, m);
        assert(surface_would_hit(&s.objects@[j], r2, m));
    }
    if scene_would_hit(s, r2, m) {
        let j = choose|j: int|
            0 <= j < s.objects@.len() && surface_would_hit(#[trigger] &s.objects@[j], r2, m);
        assert(surface_would_hit(&s.objects@[j], r1, m));
    }
}

/// The opposite of a direction's coordinates.
pub open spec fn neg_vec(v: Vec3M) -> Vec3M {
    Vec3M { x: (-v.x) as i64, y: (-v.y) as i64, z: (-v.z) as i64 }
}

/// The vector from the intersection point to a light.
pub open spec fn light_vec_of(l: LightSource, p: Vec3M) -> Vec3M {
    Vec3M { x: (l.pos.x - p.x) as i64, y: (l.pos.y - p.y) as i64, z: (l.pos.z - p.z) as i64 }
}

/// The fixed-point distance to a light.
pub open spec fn light_dist_of(l: LightSource, p: Vec3M) -> int {
    let lv = light_vec_of(l, p);
    crate::fixed::sqrt_floor(crate::lin_alg::sdot(lv, lv) as nat) as int
}

/// Whether the light is occluded as seen from the intersection point:
/// some surface blocks the ray from the epsilon-offset hit point toward
/// the light before the light's distance.  (Any ray with that origin and
/// direction serves; the hit predicates read nothing else of it.)
pub open spec fn shadowed(s: &Scene, inter: Intersection, l: LightSource) -> bool {
    exists|sr: Ray|
        sr.origin == offset_point(inter.point, inter.normal.vec(), true) && (#[trigger] sr.dir.vec())
            == normalize_res(light_vec_of(l, inter.point)) && scene_would_hit(
            s,
            sr,
            light_dist_of(l, inter.point),
        )
}

/// One light's worth of local illumination folded onto the running
/// color: nothing for a light at the hit point itself or a shadowed one,
/// otherwise the Lambertian diffuse and the Blinn-Phong specular terms.
pub open spec fn illum_step(s: &Scene, dirv: Vec3M, inter: Intersection, acc: AColor,
    l: LightSource) -> AColor {
    let lv = light_vec_of(l, inter.point);
    if lv.x == 0 && lv.y == 0 && lv.z == 0 {
        acc
    } else if shadowed(s, inter, l) {
        acc
    } else {
        let mat = inter.material;
        let ld = normalize_res(lv);
        let dln = crate::physics::udot(ld, inter.normal.vec());
        let lambert_c = fmul(
            mat.diffuse as int,
            if dln < 0 {
                0
            } else {
                dln
            },
        );
        let lambert = crate::color::color_scale_s(lambert_c, crate::color::color_mul_s(l.col,
            mat.color));
        let specular_c = fmul(
            mat.specular as int,
            crate::physics::specular_spec(neg_vec(dirv), ld, inter.normal.vec(),
                mat.shininess as nat),
        );
        let specular = crate::color::color_scale_s(specular_c, l.col);
        crate::color::acolor_sadd(
            crate::color::acolor_sadd(acc, AColor { c: lambert, a: 0 }),
            AColor { c: specular, a: 0 },
        )
    }
}

/// The local illumination folded over the first `k` lights.
pub open spec fn illum_upto(s: &Scene, dirv: Vec3M, inter: Intersection, k: int) -> AColor
    decreases k,
{
    if k <= 0 {
        ambient_term(s, inter.material)
    } else {
        illum_step(s, dirv, inter, illum_upto(s, dirv, inter, k - 1), s.lights@[k - 1])
    }
}

/// What `compute_illuminance` returns: the ambient term plus every
/// unshadowed light's diffuse and specular contribution (only the
/// ambient term where the hit point cannot spawn shadow rays).
pub open spec fn illum_spec(s: &Scene, dirv: Vec3M, inter: Intersection) -> AColor {
    if !spawn_safe(inter.point) {
        ambient_term(s, inter.material)
    } else {
        illum_upto(s, dirv, inter, s.lights@.len() as int)
    }
}

/// Trigger anchors for the witnesses of the trace relations: the
/// recursive relations themselves cannot serve as instantiation
/// patterns, so each witness is marked by one of these.
pub open spec fn witness_color(c: AColor) -> bool {
    true
}

pub open spec fn witness_ray(r: Ray) -> bool {
    true
}

pub open spec fn witness_hit(d: DelayedIntersection) -> bool {
    true
}

/// What a nearest intersection of the scene holds: genuine hit data of
/// one of the surfaces, no surface hit strictly before it, within the
/// bound, with a shadeable material and the point on the ray.
pub open spec fn scene_nearest_ok(s: &Scene, ray: Ray, m: int, d: DelayedIntersection) -> bool {
    &&& exists|j: int|
        0 <= j < s.objects@.len() && surface_hit_data(#[trigger] &s.objects@[j], ray, d)
    &&& forall|j: int|
        0 <= j < s.objects@.len() ==> surface_clear_below(#[trigger] &s.objects@[j], ray,
            d.t as int)
    &&& 0 <= d.t <= m
    &&& material_ok(d.inter.material)
    &&& d.inter.t == d.t
    &&& d.inter.point == crate::basic::ray_at(ray, d.t as int)
}

/// What tracing a ray may return, defined by recursion on the remaining
/// depth budget alongside the tracer itself: the intensity-scaled
/// transparent color on a miss, else the intensity-scaled shade of some
/// nearest hit.  (Equally near hits leave the choice of record open;
/// everything else is pinned.)
pub open spec fn trace_rel(s: &Scene, ray: Ray, intensity: int, depth: int, t_max: int,
    res: AColor) -> bool
    decreases TRACE_MAX_DEPTH + 4 - depth, 7int,
{
    if depth > TRACE_MAX_DEPTH + 2 {
        true
    } else if !scene_would_hit(s, ray, t_max) {
        res == crate::color::acolor_scale_s(intensity, crate::color::transparent_val())
    } else {
        trace_hit_case(s, ray, intensity, depth, t_max, res)
    }
}

/// The hit case of a trace: the intensity-scaled shade of some nearest
/// hit of the scene.
pub open spec fn trace_hit_case(s: &Scene, ray: Ray, intensity: int, depth: int, t_max: int,
    res: AColor) -> bool
    decreases TRACE_MAX_DEPTH + 4 - depth, 6int,
{
    if depth > TRACE_MAX_DEPTH + 2 {
        true
    } else {
        exists|d: DelayedIntersection, base: AColor|
            #![trigger witness_hit(d), witness_color(base)]
            {
                &&& scene_nearest_ok(s, ray, t_max, d)
                &&& shade_rel(s, ray, d.inter, intensity, depth + 1, base)
                &&& res == crate::color::acolor_scale_s(intensity, base)
            }
    }
}

/// What shading an intersection may return: the local illumination
/// composited with some transported (reflected/refracted) contribution.
pub open spec fn shade_rel(s: &Scene, ray: Ray, inter: Intersection, intensity: int, depth: int,
    res: AColor) -> bool
    decreases TRACE_MAX_DEPTH + 4 - depth, 5int,
{
    if depth > TRACE_MAX_DEPTH + 3 {
        true
    } else {
        shade_case(s, ray, inter, intensity, depth, res)
    }
}

/// The body of a shade: the local illumination composited with some
/// transported contribution.
pub open spec fn shade_case(s: &Scene, ray: Ray, inter: Intersection, intensity: int, depth: int,
    res: AColor) -> bool
    decreases TRACE_MAX_DEPTH + 4 - depth, 4int,
{
    if depth > TRACE_MAX_DEPTH + 3 {
        true
    } else {
        exists|tr: AColor|
            #[trigger] witness_color(tr) && rr_rel(s, ray.dir.vec(), inter, intensity, depth, tr)
                && res == crate::color::acolor_sadd(illum_spec(s, ray.dir.vec(), inter), tr)
    }
}

/// Whether the mirror reflection fires: reflective material, energy
/// above the cutoff, depth budget left.
pub open spec fn refl_fires(mat: Material, intensity: int, depth: int) -> bool {
    mat.reflectance > 0 && above_threshold(mat.reflectance as int, intensity) && depth
        < TRACE_MAX_DEPTH
}

/// Whether the refraction path fires.
pub open spec fn refr_fires(mat: Material, intensity: int, depth: int) -> bool {
    mat.refractivity > 0 && above_threshold(mat.refractivity as int, intensity) && depth
        < TRACE_MAX_DEPTH
}

/// What the reflection/refraction transport may return: each path
/// contributes exactly when it fires, the reflected trace along the
/// mirror direction with reflectance-scaled intensity, the refraction
/// path through `recref_rel`; nothing is spawned from an unsafe point.
pub open spec fn rr_rel(s: &Scene, dirv: Vec3M, inter: Intersection, intensity: int, depth: int,
    res: AColor) -> bool
    decreases TRACE_MAX_DEPTH + 4 - depth, 3int,
{
    if depth > TRACE_MAX_DEPTH + 3 {
        true
    } else if !spawn_safe(inter.point) {
        res == crate::color::black_val()
    } else {
        let rf = refl_fires(inter.material, intensity, depth);
        let gf = refr_fires(inter.material, intensity, depth);
        if rf && gf {
            rr_both_case(s, dirv, inter, intensity, depth, res)
        } else if rf {
            rr_refl_case(s, dirv, inter, intensity, depth, res)
        } else if gf {
            rr_refr_case(s, dirv, inter, intensity, depth, res)
        } else {
            res == crate::color::black_val()
        }
    }
}

/// Both paths fire: the reflected trace and the refraction transport,
/// composited in that order.
pub open spec fn rr_both_case(s: &Scene, dirv: Vec3M, inter: Intersection, intensity: int,
    depth: int, res: AColor) -> bool
    decreases TRACE_MAX_DEPTH + 4 - depth, 2int,
{
    if depth > TRACE_MAX_DEPTH + 3 {
        true
    } else {
        exists|rray: Ray, t1: AColor, t2: AColor|
            #![trigger witness_ray(rray), witness_color(t1), witness_color(t2)]
            {
                &&& rray.origin == offset_point(inter.point, inter.normal.vec(), true)
                &&& rray.dir.vec() == crate::physics::reflect_spec(dirv, inter.normal.vec())
                &&& trace_rel(s, rray, fmul(inter.material.reflectance as int, intensity),
                    depth + 1, T_MAX as int, t1)
                &&& recref_rel(s, dirv, inter, intensity, depth, t2)
                &&& res == crate::color::acolor_sadd(
                    crate::color::acolor_sadd(crate::color::black_val(), t1),
                    t2,
                )
            }
    }
}

/// Only the mirror reflection fires.
pub open spec fn rr_refl_case(s: &Scene, dirv: Vec3M, inter: Intersection, intensity: int,
    depth: int, res: AColor) -> bool
    decreases TRACE_MAX_DEPTH + 4 - depth, 2int,
{
    if depth > TRACE_MAX_DEPTH + 3 {
        true
    } else {
        exists|rray: Ray, t1: AColor|
            #![trigger witness_ray(rray), witness_color(t1)]
            {
                &&& rray.origin == offset_point(inter.point, inter.normal.vec(), true)
                &&& rray.dir.vec() == crate::physics::reflect_spec(dirv, inter.normal.vec())
                &&& trace_rel(s, rray, fmul(inter.material.reflectance as int, intensity),
                    depth + 1, T_MAX as int, t1)
                &&& res == crate::color::acolor_sadd(crate::color::black_val(), t1)
            }
    }
}

/// Only the refraction path fires.
pub open spec fn rr_refr_case(s: &Scene, dirv: Vec3M, inter: Intersection, intensity: int,
    depth: int, res: AColor) -> bool
    decreases TRACE_MAX_DEPTH + 4 - depth, 2int,
{
    if depth > TRACE_MAX_DEPTH + 3 {
        true
    } else {
        exists|t2: AColor|
            #[trigger] witness_color(t2) && recref_rel(s, dirv, inter, intensity, depth, t2)
                && res == crate::color::acolor_sadd(crate::color::black_val(), t2)
    }
}

/// The normal used by the refraction transport/// The normal used by the refraction transport: the surface normal on
/// entry, its opposite on exit.
pub open spec fn refr_normal(dirv: Vec3M, inter: Intersection) -> Vec3M {
    if crate::physics::udot(dirv, inter.normal.vec()) < 0 {
        inter.normal.vec()
    } else {
        neg_vec(inter.normal.vec())
    }
}

/// The index-of-refraction ratio used by the transport: the material's
/// index on entry, its reciprocal on exit.
pub open spec fn refr_ior(dirv: Vec3M, inter: Intersection) -> int {
    if crate::physics::udot(dirv, inter.normal.vec()) < 0 {
        inter.material.refraction_index as int
    } else {
        crate::fixed::fdiv(SCALE as int, inter.material.refraction_index as int)
    }
}

/// The refractivity-scaled energy entering the transport.
pub open spec fn refr_energy(inter: Intersection, intensity: int) -> int {
    fmul(intensity, inter.material.refractivity as int)
}

/// The weight of the refracted trace: the non-reflected share of the
/// energy under the Fresnel factor, clamped to the unit range.
pub open spec fn refr_weight_refr(dirv: Vec3M, inter: Intersection, intensity: int) -> int {
    clamp01(
        fmul(
            refr_energy(inter, intensity),
            SCALE - crate::physics::fresnel_spec(dirv, refr_normal(dirv, inter),
                refr_ior(dirv, inter)),
        ),
    )
}

/// The weight of the reflected trace under the Fresnel factor.
pub open spec fn refr_weight_refl(dirv: Vec3M, inter: Intersection, intensity: int) -> int {
    clamp01(
        fmul(
            refr_energy(inter, intensity),
            crate::physics::fresnel_spec(dirv, refr_normal(dirv, inter), refr_ior(dirv, inter)),
        ),
    )
}

/// What the refraction transport may return (spec 4.7): the medium and
/// normal are picked by the travel side; under total internal reflection
/// all refractivity-scaled energy goes into one reflected trace;
/// otherwise the energy splits by the Fresnel factor into a reflected
/// and a refracted trace.
pub open spec fn recref_rel(s: &Scene, dirv: Vec3M, inter: Intersection, intensity: int,
    depth: int, res: AColor) -> bool
    decreases TRACE_MAX_DEPTH + 4 - depth, 1int,
{
    if depth > TRACE_MAX_DEPTH + 3 {
        true
    } else if crate::physics::refract_k(dirv, refr_normal(dirv, inter), refr_ior(dirv, inter))
        < 0 {
        recref_tir_case(s, dirv, inter, intensity, depth, res)
    } else {
        recref_split_case(s, dirv, inter, intensity, depth, res)
    }
}

/// Total internal reflection: one reflected trace carries all the
/// refractivity-scaled energy.
pub open spec fn recref_tir_case(s: &Scene, dirv: Vec3M, inter: Intersection, intensity: int,
    depth: int, res: AColor) -> bool
    decreases TRACE_MAX_DEPTH + 4 - depth, 0int,
{
    if depth > TRACE_MAX_DEPTH + 3 {
        true
    } else {
        exists|rray: Ray, t1: AColor|
            #![trigger witness_ray(rray), witness_color(t1)]
            {
                &&& rray.origin == offset_point(inter.point, refr_normal(dirv, inter), true)
                &&& rray.dir.vec() == crate::physics::reflect_spec(dirv, refr_normal(dirv, inter))
                &&& trace_rel(s, rray, refr_energy(inter, intensity), depth + 1, T_MAX as int, t1)
                &&& res == t1
            }
    }
}

/// The Fresnel split: a reflected and a refracted trace, each with its
/// share of the refractivity-scaled energy.
pub open spec fn recref_split_case(s: &Scene, dirv: Vec3M, inter: Intersection, intensity: int,
    depth: int, res: AColor) -> bool
    decreases TRACE_MAX_DEPTH + 4 - depth, 0int,
{
    if depth > TRACE_MAX_DEPTH + 3 {
        true
    } else {
        exists|rray: Ray, fray: Ray, t1: AColor, t2: AColor|
            #![trigger witness_ray(rray), witness_ray(fray), witness_color(t1), witness_color(t2)]
            {
                &&& rray.origin == offset_point(inter.point, refr_normal(dirv, inter), true)
                &&& rray.dir.vec() == crate::physics::reflect_spec(dirv, refr_normal(dirv, inter))
                &&& trace_rel(s, rray, refr_weight_refl(dirv, inter, intensity), depth + 1,
                    T_MAX as int, t1)
                &&& fray.origin == offset_point(inter.point, refr_normal(dirv, inter), false)
                &&& fray.dir.vec() == crate::physics::refract_dir(dirv, refr_normal(dirv, inter),
                    refr_ior(dirv, inter))
                &&& trace_rel(s, fray, refr_weight_refr(dirv, inter, intensity), depth + 1,
                    T_MAX as int, t2)
                &&& res == crate::color::acolor_sadd(t2, t1)
            }
    }
}

} // verus!

verus! {

/// The clamped tangent-derived horizontal half-extent of the view.
pub open spec fn cam_horizontal(c: &Camera) -> int {
    let h0 = crate::lin_alg::tan_half_spec(c.horizontal_fov as int);
    if h0 < 1 {
        1
    } else if h0 > crate::fixed::COORD_MAX {
        crate::fixed::COORD_MAX as int
    } else {
        h0
    }
}

/// The forward direction of the camera.
pub open spec fn cam_forward(c: &Camera) -> Vec3M {
    normalize_res(
        Vec3M {
            x: (c.look_at.x - c.pos.x) as i64,
            y: (c.look_at.y - c.pos.y) as i64,
            z: (c.look_at.z - c.pos.z) as i64,
        },
    )
}

/// The unit vector to the right of the view (the x-axis where the
/// camera looks along its own up vector).
pub open spec fn cam_right_unit(c: &Camera) -> Vec3M {
    let f = cam_forward(c);
    let r0 = Vec3M {
        x: crate::lin_alg::cross_x(f, c.up) as i64,
        y: crate::lin_alg::cross_y(f, c.up) as i64,
        z: crate::lin_alg::cross_z(f, c.up) as i64,
    };
    if r0.x == 0 && r0.y == 0 && r0.z == 0 {
        Vec3M { x: SCALE, y: 0, z: 0 }
    } else {
        normalize_res(r0)
    }
}

/// The right basis vector, scaled to the horizontal half-extent.
pub open spec fn cam_right(c: &Camera) -> Vec3M {
    let u = cam_right_unit(c);
    Vec3M {
        x: fmul(cam_horizontal(c), u.x as int) as i64,
        y: fmul(cam_horizontal(c), u.y as int) as i64,
        z: fmul(cam_horizontal(c), u.z as int) as i64,
    }
}

/// The unit vector to the top of the view (the y-axis where the scaled
/// right vector degenerates).
pub open spec fn cam_up_unit(c: &Camera) -> Vec3M {
    let r = cam_right(c);
    let f = cam_forward(c);
    let u0 = Vec3M {
        x: crate::lin_alg::cross_x(r, f) as i64,
        y: crate::lin_alg::cross_y(r, f) as i64,
        z: crate::lin_alg::cross_z(r, f) as i64,
    };
    if u0.x == 0 && u0.y == 0 && u0.z == 0 {
        Vec3M { x: 0, y: SCALE, z: 0 }
    } else {
        normalize_res(u0)
    }
}

/// The clamped vertical half-extent: the horizontal one over the aspect
/// ratio.
pub open spec fn cam_vfac(c: &Camera) -> int {
    let v0 = fdiv(cam_horizontal(c), c.aspect_ratio as int);
    if v0 < 1 {
        1
    } else if v0 > crate::fixed::COORD_MAX {
        crate::fixed::COORD_MAX as int
    } else {
        v0
    }
}

/// The up basis vector, scaled to the vertical half-extent.
pub open spec fn cam_vert(c: &Camera) -> Vec3M {
    let u = cam_up_unit(c);
    Vec3M {
        x: fmul(cam_vfac(c), u.x as int) as i64,
        y: fmul(cam_vfac(c), u.y as int) as i64,
        z: fmul(cam_vfac(c), u.z as int) as i64,
    }
}

/// The clamped view-square coordinate of a pixel column.
pub open spec fn pixel_sx(c: &Camera, x: int) -> int {
    let s0 = tdiv(x * SCALE, c.width as int) - 5000;
    if s0 < -SCALE {
        -(SCALE as int)
    } else if s0 > SCALE {
        SCALE as int
    } else {
        s0
    }
}

/// The clamped view-square coordinate of a pixel row.
pub open spec fn pixel_sy(c: &Camera, y: int) -> int {
    let s0 = 5000 - tdiv(y * SCALE, c.height as int);
    if s0 < -SCALE {
        -(SCALE as int)
    } else if s0 > SCALE {
        SCALE as int
    } else {
        s0
    }
}

/// The unnormalized direction of the primary ray through a pixel.
pub open spec fn pixel_dir(c: &Camera, x: int, y: int) -> Vec3M {
    let f = cam_forward(c);
    let r = cam_right(c);
    let v = cam_vert(c);
    Vec3M {
        x: (f.x + fmul(pixel_sx(c, x), r.x as int) + fmul(pixel_sy(c, y), v.x as int)) as i64,
        y: (f.y + fmul(pixel_sx(c, x), r.y as int) + fmul(pixel_sy(c, y), v.y as int)) as i64,
        z: (f.z + fmul(pixel_sx(c, x), r.z as int) + fmul(pixel_sy(c, y), v.z as int)) as i64,
    }
}

/// What a rendered pixel holds: the trace of the pixel's primary ray
/// from the camera position at full intensity (transparent where the
/// pixel direction degenerates to zero).
pub open spec fn pixel_color_rel(s: &Scene, x: int, y: int, res: AColor) -> bool {
    let d = pixel_dir(&s.camera, x, y);
    if d.x == 0 && d.y == 0 && d.z == 0 {
        res == crate::color::transparent_val()
    } else {
        exists|pr: Ray|
            #[trigger] witness_ray(pr) && pr.origin == s.camera.pos && pr.dir.vec()
                == normalize_res(d) && trace_rel(s, pr, SCALE as int, 0, T_MAX as int, res)
    }
}

} // verus!
