use vstd::prelude::*;

use crate::color::{Color, black, color_ok, white};
use crate::fixed::SCALE;

verus! {

/// Represents a material of an object.  The scalar attributes are plain
/// fixed-point values; no range is enforced beyond storage.
#[derive(Clone, Copy, Debug, PartialEq, Eq, Structural)]
pub struct Material {
    /// Color of the material.
    pub color: Color,
    /// Ambient reflection constant.
    pub ambient: i64,
    /// Diffuse reflection constant.
    pub diffuse: i64,
    /// Specular reflection constant.
    pub specular: i64,
    /// Shininess/specular exponent: larger for smoother, mirror-like
    /// surfaces (kept as a whole number so the power is an iterated
    /// product).
    pub shininess: u32,
    /// Mirror reflectance: `0` means no reflection, `SCALE` a perfect
    /// mirror.
    pub reflectance: i64,
    /// Refractivity: `0` means no refraction, `SCALE` only refraction.
    pub refractivity: i64,
    /// Refraction index; `SCALE` (one) is vacuum.
    pub refraction_index: i64,
}

/// A material the renderer can shade without leaving the fixed-point
/// ranges: the color is a unit color and the blending attributes stay
/// within one.
pub open spec fn material_ok(m: Material) -> bool {
    &&& color_ok(m.color)
    &&& 0 <= m.reflectance <= SCALE
    &&& 0 <= m.refractivity <= SCALE
    &&& 1 <= m.refraction_index <= 1_000_000
    &&& crate::fixed::iabs(m.ambient as int) <= 1_000_000
    &&& crate::fixed::iabs(m.diffuse as int) <= 1_000_000
    &&& crate::fixed::iabs(m.specular as int) <= 1_000_000
}

/// Creates a material that behaves like nothing.
pub fn vacuum() -> (m: Material)
    ensures
        m.color == (Color { r: 0, g: 0, b: 0 }),
        m.ambient == 0,
        m.diffuse == 0,
        m.specular == 0,
        m.shininess == 1,
        m.reflectance == 0,
        m.refractivity == SCALE,
        m.refraction_index == SCALE,
        material_ok(m),
{
    Material {
        color: black(),
        ambient: 0,
        diffuse: 0,
        specular: 0,
        shininess: 1,
        reflectance: 0,
        refractivity: SCALE,
        refraction_index: SCALE,
    }
}

/// Creates a mirror-like material of the given `reflectance` with the
/// given `color`.
pub fn reflective_material(reflectance: i64, color: Color) -> (m: Material)
    requires
        0 <= reflectance <= SCALE,
        color_ok(color),
    ensures
        m.color == color,
        m.ambient == 0,
        m.diffuse == 9 * SCALE / 10 - reflectance,
        m.specular == SCALE / 10,
        m.shininess == 50,
        m.reflectance == reflectance,
        m.refractivity == 0,
        m.refraction_index == SCALE,
        material_ok(m),
{
    let base: Material = vacuum();
    Material {
        color,
        reflectance,
        diffuse: 9 * SCALE / 10 - reflectance,
        specular: SCALE / 10,
        shininess: 50,
        refractivity: 0,
        ..base
    }
}

/// Creates a material that looks like glass.
pub fn glass() -> (m: Material)
    ensures
        m.color == (Color { r: SCALE, g: SCALE, b: SCALE }),
        m.ambient == 0,
        m.diffuse == 0,
        m.specular == SCALE / 10,
        m.shininess == 200,
        m.reflectance == 0,
        m.refractivity == 9 * SCALE / 10,
        m.refraction_index == 3 * SCALE / 2,
        material_ok(m),
{
    let base: Material = vacuum();
    Material {
        refraction_index: 3 * SCALE / 2,
        refractivity: 9 * SCALE / 10,
        specular: SCALE / 10,
        shininess: 200,
        color: white(),
        ..base
    }
}

/// Creates a diffuse black material.
pub fn neutral_material() -> (m: Material)
    ensures
        m.color == (Color { r: 0, g: 0, b: 0 }),
        m.ambient == 2 * SCALE / 10,
        m.diffuse == 6 * SCALE / 10,
        m.specular == 2 * SCALE / 10,
        m.shininess == 10,
        m.reflectance == 0,
        m.refractivity == 0,
        m.refraction_index == SCALE,
        material_ok(m),
{
    Material {
        color: black(),
        ambient: 2 * SCALE / 10,
        diffuse: 6 * SCALE / 10,
        specular: 2 * SCALE / 10,
        shininess: 10,
        reflectance: 0,
        refractivity: 0,
        refraction_index: SCALE,
    }
}

/// Creates a diffuse material of the given color.
pub fn color_material(c: Color) -> (m: Material)
    requires
        color_ok(c),
    ensures
        m == (Material {
            color: c,
            ambient: 2000i64,
            diffuse: 6000i64,
            specular: 2000i64,
            shininess: 10,
            reflectance: 0,
            refractivity: 0,
            refraction_index: SCALE,
        }),
        material_ok(m),
{
    let base: Material = neutral_material();
    Material { color: c, ..base }
}

} // verus!
