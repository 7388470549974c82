use vstd::prelude::*;

use crate::fixed::{SCALE, T_MAX, fmul, iabs, lemma_mul_bound, lemma_tdiv_abs_le, tdiv};

verus! {

/// A color channel holds a fixed-point value between `0` and `SCALE`
/// (zero and full intensity).
pub open spec fn channel_ok(c: int) -> bool {
    0 <= c <= SCALE
}

/// Channel addition saturates at full intensity, so that compositing many
/// contributions can never leave the unit range.
pub open spec fn channel_add(a: int, b: int) -> int {
    if a + b > SCALE {
        SCALE as int
    } else {
        a + b
    }
}

/// Channel scaling clamps the rescaled product back into the unit range
/// (scale factors may exceed one or be negative).
pub open spec fn channel_scale(k: int, c: int) -> int {
    let p = fmul(k, c);
    if p < 0 {
        0
    } else if p > SCALE {
        SCALE as int
    } else {
        p
    }
}

/// Represents an RGB color; each channel ranges between `0` and `SCALE`.
#[derive(Clone, Copy, Debug, PartialEq, Eq, Structural)]
pub struct Color {
    pub r: i64,
    pub g: i64,
    pub b: i64,
}

/// All three channels lie in the unit range.
pub open spec fn color_ok(c: Color) -> bool {
    channel_ok(c.r as int) && channel_ok(c.g as int) && channel_ok(c.b as int)
}

/// Clamps one rescaled channel product.
fn scale_channel(k: i64, c: i64) -> (r: i64)
    requires
        iabs(k as int) <= T_MAX,
        channel_ok(c as int),
    ensures
        r == channel_scale(k as int, c as int),
{
    proof {
        lemma_mul_bound(k as int, c as int, T_MAX as int, SCALE as int);
        lemma_tdiv_abs_le((k as int) * (c as int), SCALE as int, T_MAX as int);
    }
    let p: i128 = (k as i128) * (c as i128);
    let q: i128 = crate::fixed::tdiv128(p, SCALE as i128);
    if q < 0 {
        0
    } else if q > SCALE as i128 {
        SCALE
    } else {
        q as i64
    }
}

impl Color {
    /// Creates a new color given the red, green, blue channel values.
    pub fn new(r: i64, g: i64, b: i64) -> (c: Color)
        requires
            channel_ok(r as int),
            channel_ok(g as int),
            channel_ok(b as int),
        ensures
            c == (Color { r, g, b }),
    {
        Color { r, g, b }
    }

    /// Creates a gray color with the given brightness.
    pub fn new_gray(b: i64) -> (c: Color)
        requires
            channel_ok(b as int),
        ensures
            c == (Color { r: b, g: b, b }),
    {
        Color { r: b, g: b, b }
    }

    /// Returns the red channel of the color.
    pub fn red(&self) -> (r: i64)
        ensures
            r == self.r,
    {
        self.r
    }

    /// Returns the green channel of the color.
    pub fn green(&self) -> (r: i64)
        ensures
            r == self.g,
    {
        self.g
    }

    /// Returns the blue channel of the color.
    pub fn blue(&self) -> (r: i64)
        ensures
            r == self.b,
    {
        self.b
    }

    /// Converts to an opaque color with alpha channel.
    pub fn with_alpha(self) -> (c: AColor)
        ensures
            c == (AColor { c: self, a: 0 }),
    {
        AColor { c: self, a: 0 }
    }

    /// Componentwise sum.  The channels of the two colors must together
    /// stay inside the unit range, as the displayed-color law asks.
    pub fn add(self, o: Color) -> (c: Color)
        requires
            color_ok(self),
            color_ok(o),
            self.r + o.r <= SCALE,
            self.g + o.g <= SCALE,
            self.b + o.b <= SCALE,
        ensures
            c.r == self.r + o.r,
            c.g == self.g + o.g,
            c.b == self.b + o.b,
            color_ok(c),
    {
        Color { r: self.r + o.r, g: self.g + o.g, b: self.b + o.b }
    }

    /// Componentwise sum, saturating at full intensity: the total
    /// accumulator the shader uses, so that compositing many
    /// contributions can never leave the unit range.  Where the channel
    /// sums stay inside the range it agrees with `add`.
    pub fn saturating_add(self, o: Color) -> (c: Color)
        requires
            color_ok(self),
            color_ok(o),
        ensures
            c.r == channel_add(self.r as int, o.r as int),
            c.g == channel_add(self.g as int, o.g as int),
            c.b == channel_add(self.b as int, o.b as int),
            color_ok(c),
    {
        Color {
            r: if self.r + o.r > SCALE {
                SCALE
            } else {
                self.r + o.r
            },
            g: if self.g + o.g > SCALE {
                SCALE
            } else {
                self.g + o.g
            },
            b: if self.b + o.b > SCALE {
                SCALE
            } else {
                self.b + o.b
            },
        }
    }

    /// The color scaled by the fixed-point factor `k`, clamped to the
    /// unit range.
    pub fn scale(self, k: i64) -> (c: Color)
        requires
            color_ok(self),
            iabs(k as int) <= T_MAX,
        ensures
            c.r == channel_scale(k as int, self.r as int),
            c.g == channel_scale(k as int, self.g as int),
            c.b == channel_scale(k as int, self.b as int),
            color_ok(c),
    {
        Color {
            r: scale_channel(k, self.r),
            g: scale_channel(k, self.g),
            b: scale_channel(k, self.b),
        }
    }

    /// Componentwise (filtering) product of two colors.
    pub fn mul(self, o: Color) -> (c: Color)
        requires
            color_ok(self),
            color_ok(o),
        ensures
            c.r == channel_scale(self.r as int, o.r as int),
            c.g == channel_scale(self.g as int, o.g as int),
            c.b == channel_scale(self.b as int, o.b as int),
            color_ok(c),
    {
        Color {
            r: scale_channel(self.r, o.r),
            g: scale_channel(self.g, o.g),
            b: scale_channel(self.b, o.b),
        }
    }
}

/// The black color.
pub fn black() -> (c: Color)
    ensures
        c == (Color { r: 0, g: 0, b: 0 }),
{
    Color { r: 0, g: 0, b: 0 }
}

/// The white color.
pub fn white() -> (c: Color)
    ensures
        c == (Color { r: SCALE, g: SCALE, b: SCALE }),
{
    Color { r: SCALE, g: SCALE, b: SCALE }
}

/// Represents an RGB color with transparency.
/// For a background color `b`, the displayed color is `c + a * b`.
#[derive(Clone, Copy, Debug, PartialEq, Eq, Structural)]
pub struct AColor {
    pub c: Color,
    pub a: i64,
}

/// The channels and the transparency all lie in the unit range.
pub open spec fn acolor_ok(c: AColor) -> bool {
    color_ok(c.c) && channel_ok(c.a as int)
}

impl AColor {
    /// Creates a new (opaque) color given the red, green, blue values.
    pub fn new(r: i64, g: i64, b: i64) -> (c: AColor)
        requires
            channel_ok(r as int),
            channel_ok(g as int),
            channel_ok(b as int),
        ensures
            c == (AColor { c: Color { r, g, b }, a: 0 }),
    {
        AColor { c: Color { r, g, b }, a: 0 }
    }

    /// Returns the opaque part of the color.
    pub fn opaque(&self) -> (r: Color)
        ensures
            r == self.c,
    {
        self.c
    }

    /// Returns the transparency of the color: `0` means opaque, `SCALE`
    /// means fully transparent.
    pub fn transparency(&self) -> (r: i64)
        ensures
            r == self.a,
    {
        self.a
    }

    /// Creates a color that is completely transparent.
    pub fn transparent() -> (c: AColor)
        ensures
            c == (AColor { c: Color { r: 0, g: 0, b: 0 }, a: SCALE }),
    {
        AColor { c: Color { r: 0, g: 0, b: 0 }, a: SCALE }
    }

    /// Componentwise sum of color and transparency: the compositing law
    /// `(c1, a1) + (c2, a2) == (c1 + c2, a1 + a2)`, for summands that
    /// together stay inside the unit range.
    pub fn add(self, o: AColor) -> (c: AColor)
        requires
            acolor_ok(self),
            acolor_ok(o),
            self.c.r + o.c.r <= SCALE,
            self.c.g + o.c.g <= SCALE,
            self.c.b + o.c.b <= SCALE,
            self.a + o.a <= SCALE,
        ensures
            c.c.r == self.c.r + o.c.r,
            c.c.g == self.c.g + o.c.g,
            c.c.b == self.c.b + o.c.b,
            c.a == self.a + o.a,
            acolor_ok(c),
    {
        AColor { c: self.c.add(o.c), a: self.a + o.a }
    }

    /// Componentwise sum of color and transparency, saturating at the
    /// unit range: the total accumulator the shader composites with.
    /// Where the sums stay inside the range it agrees with `add`; the
    /// original compositing would fail outside it.
    pub fn saturating_add(self, o: AColor) -> (c: AColor)
        requires
            acolor_ok(self),
            acolor_ok(o),
        ensures
            c.c.r == channel_add(self.c.r as int, o.c.r as int),
            c.c.g == channel_add(self.c.g as int, o.c.g as int),
            c.c.b == channel_add(self.c.b as int, o.c.b as int),
            c.a == channel_add(self.a as int, o.a as int),
            acolor_ok(c),
    {
        AColor {
            c: self.c.saturating_add(o.c),
            a: if self.a + o.a > SCALE {
                SCALE
            } else {
                self.a + o.a
            },
        }
    }

    /// The color and its transparency scaled by `k`, clamped to the unit
    /// range.
    pub fn scale(self, k: i64) -> (c: AColor)
        requires
            acolor_ok(self),
            iabs(k as int) <= T_MAX,
        ensures
            c.c.r == channel_scale(k as int, self.c.r as int),
            c.c.g == channel_scale(k as int, self.c.g as int),
            c.c.b == channel_scale(k as int, self.c.b as int),
            c.a == channel_scale(k as int, self.a as int),
            acolor_ok(c),
    {
        AColor { c: self.c.scale(k), a: scale_channel(k, self.a) }
    }
}

/// The compositing sum does not depend on the order of its arguments.
pub proof fn lemma_acolor_add_comm(a: AColor, b: AColor)
    ensures
        (AColor {
            c: Color {
                r: (a.c.r + b.c.r) as i64,
                g: (a.c.g + b.c.g) as i64,
                b: (a.c.b + b.c.b) as i64,
            },
            a: (a.a + b.a) as i64,
        }) == (AColor {
            c: Color {
                r: (b.c.r + a.c.r) as i64,
                g: (b.c.g + a.c.g) as i64,
                b: (b.c.b + a.c.b) as i64,
            },
            a: (b.a + a.a) as i64,
        }),
{
}

/// The compositing sum can be grouped either way while the sums stay
/// inside the unit range.
pub proof fn lemma_acolor_add_assoc(a: AColor, b: AColor, c: AColor)
    requires
        acolor_ok(a),
        acolor_ok(b),
        acolor_ok(c),
        a.c.r + b.c.r + c.c.r <= SCALE,
        a.c.g + b.c.g + c.c.g <= SCALE,
        a.c.b + b.c.b + c.c.b <= SCALE,
        a.a + b.a + c.a <= SCALE,
    ensures
        (AColor {
            c: Color {
                r: ((a.c.r + b.c.r) + c.c.r) as i64,
                g: ((a.c.g + b.c.g) + c.c.g) as i64,
                b: ((a.c.b + b.c.b) + c.c.b) as i64,
            },
            a: ((a.a + b.a) + c.a) as i64,
        }) == (AColor {
            c: Color {
                r: (a.c.r + (b.c.r + c.c.r)) as i64,
                g: (a.c.g + (b.c.g + c.c.g)) as i64,
                b: (a.c.b + (b.c.b + c.c.b)) as i64,
            },
            a: (a.a + (b.a + c.a)) as i64,
        }),
{
}

} // verus!

verus! {

/// The saturating compositing sum, as a value.
pub open spec fn acolor_sadd(a: AColor, b: AColor) -> AColor {
    AColor {
        c: Color {
            r: channel_add(a.c.r as int, b.c.r as int) as i64,
            g: channel_add(a.c.g as int, b.c.g as int) as i64,
            b: channel_add(a.c.b as int, b.c.b as int) as i64,
        },
        a: channel_add(a.a as int, b.a as int) as i64,
    }
}

/// The clamped scaling of a color with transparency, as a value.
pub open spec fn acolor_scale_s(k: int, c: AColor) -> AColor {
    AColor {
        c: Color {
            r: channel_scale(k, c.c.r as int) as i64,
            g: channel_scale(k, c.c.g as int) as i64,
            b: channel_scale(k, c.c.b as int) as i64,
        },
        a: channel_scale(k, c.a as int) as i64,
    }
}

/// The clamped channelwise product of two colors, as a value.
pub open spec fn color_mul_s(a: Color, b: Color) -> Color {
    Color {
        r: channel_scale(a.r as int, b.r as int) as i64,
        g: channel_scale(a.g as int, b.g as int) as i64,
        b: channel_scale(a.b as int, b.b as int) as i64,
    }
}

/// The clamped scaling of a color, as a value.
pub open spec fn color_scale_s(k: int, c: Color) -> Color {
    Color {
        r: channel_scale(k, c.r as int) as i64,
        g: channel_scale(k, c.g as int) as i64,
        b: channel_scale(k, c.b as int) as i64,
    }
}

/// The fully transparent color, as a value.
pub open spec fn transparent_val() -> AColor {
    AColor { c: Color { r: 0, g: 0, b: 0 }, a: SCALE }
}

/// The fully opaque black, as a value.
pub open spec fn black_val() -> AColor {
    AColor { c: Color { r: 0, g: 0, b: 0 }, a: 0 }
}

} // verus!
