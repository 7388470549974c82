use vstd::prelude::*;

use crate::color::AColor;

verus! {

/// Stores an image and its dimensions.  The color buffer is plain data;
/// turning it into an encoded file (including gamma correction and
/// quantization) is the image sink's business, outside this crate.
pub struct Image {
    /// The width of the image in pixels.
    pub width: usize,
    /// The height of the image in pixels.
    pub height: usize,
    /// The colors of each pixel, stored line by line.
    pub pixels: Vec<AColor>,
}

/// The buffer holds exactly one color per pixel.
pub open spec fn image_wf(img: &Image) -> bool {
    &&& img.pixels@.len() == img.width * img.height
    &&& img.width * img.height <= usize::MAX
}

impl Image {
    /// Creates a new (fully transparent) image of the given dimensions.
    pub fn new(width: usize, height: usize) -> (img: Image)
        requires
            width * height <= usize::MAX,
        ensures
            image_wf(&img),
            img.width == width,
            img.height == height,
            forall|k: int|
                0 <= k < img.pixels@.len() ==> #[trigger] img.pixels@[k] == (AColor {
                    c: crate::color::Color { r: 0, g: 0, b: 0 },
                    a: crate::fixed::SCALE,
                }),
    {
        let mut pixels: Vec<AColor> = Vec::new();
        let n: usize = width * height;
        let mut k: usize = 0;
        while k < n
            invariant
                k <= n,
                pixels@.len() == k,
                forall|j: int|
                    0 <= j < k ==> #[trigger] pixels@[j] == (AColor {
                        c: crate::color::Color { r: 0, g: 0, b: 0 },
                        a: crate::fixed::SCALE,
                    }),
            decreases n - k,
        {
            pixels.push(AColor::transparent());
            k = k + 1;
        }
        Image { width, height, pixels }
    }

    /// Returns the color of the pixel at `(x, y)`.
    pub fn get(&self, x: usize, y: usize) -> (c: AColor)
        requires
            image_wf(self),
            x < self.width,
            y < self.height,
        ensures
            c == self.pixels@[y * self.width + x],
    {
        proof {
            assert(y * self.width + x < self.width * self.height) by (nonlinear_arith)
                requires
                    x < self.width,
                    y < self.height,
            ;
            assert(y * self.width + x < self.pixels@.len());
        }
        self.pixels[y * self.width + x]
    }

    /// Changes the pixel at `(x, y)` to the given color.
    pub fn set(&mut self, x: usize, y: usize, c: AColor)
        requires
            image_wf(old(self)),
            x < old(self).width,
            y < old(self).height,
        ensures
            image_wf(final(self)),
            final(self).width == old(self).width,
            final(self).height == old(self).height,
            final(self).pixels@ == old(self).pixels@.update((y * old(self).width + x) as int, c),
    {
        proof {
            assert(y * self.width + x < self.width * self.height) by (nonlinear_arith)
                requires
                    x < self.width,
                    y < self.height,
            ;
            assert(y * self.width + x < self.pixels@.len());
        }
        let idx: usize = y * self.width + x;
        self.pixels.set(idx, c);
    }
}

} // verus!
