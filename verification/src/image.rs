//! The raster: integer RGB pixels in row-major order.

use vstd::prelude::*;

verus! {

#[derive(Clone, Copy, PartialEq, Eq, Structural, Debug)]
pub struct Pixel {
    pub r: i32,
    pub g: i32,
    pub b: i32,
}

impl Pixel {
    /// A black pixel.
    pub fn new() -> (p: Pixel)
        ensures
            p.r == 0 && p.g == 0 && p.b == 0,
    {
        Self { r: 0, g: 0, b: 0 }
    }

    pub fn from(r: i32, g: i32, b: i32) -> (p: Pixel)
        ensures
            p.r == r && p.g == g && p.b == b,
    {
        Self { r, g, b }
    }

    pub fn to_tuple(&self) -> (t: (i32, i32, i32))
        ensures
            t.0 == self.r && t.1 == self.g && t.2 == self.b,
    {
        (self.r, self.g, self.b)
    }
}

pub struct Image {
    pub width: usize,
    pub height: usize,
    pub pixels: Vec<Pixel>,
}

/// The pixel buffer covers the full raster, row-major, and the raster
/// size stays within the supported range.
pub open spec fn image_wf(im: Image) -> bool {
    &&& im.pixels@.len() == im.width * im.height
    &&& im.width * im.height <= 0x10000000
}

impl Image {
    /// A black image of the given dimensions.
    pub fn new(width: usize, height: usize) -> (im: Image)
        requires
            width * height <= 0x10000000,
        ensures
            im.width == width,
            im.height == height,
            image_wf(im),
            forall|k: int| 0 <= k < im.pixels@.len()
                ==> #[trigger] im.pixels@[k] == (Pixel { r: 0i32, g: 0i32, b: 0i32 }),
    {
        let total: usize = width * height;
        let mut pixels: Vec<Pixel> = Vec::new();
        let mut k: usize = 0;
        while k < total
            invariant
                0 <= k <= total,
                pixels@.len() == k,
                forall|j: int| 0 <= j < k
                    ==> #[trigger] pixels@[j] == (Pixel { r: 0i32, g: 0i32, b: 0i32 }),
            decreases total - k,
        {
            pixels.push(Pixel { r: 0, g: 0, b: 0 });
            k = k + 1;
        }
        Image { width, height, pixels }
    }

    /// Overwrite the pixel at `(row, col)`.
    pub fn set_pixel(&mut self, row: usize, col: usize, p: Pixel)
        requires
            image_wf(*old(self)),
            row < old(self).height,
            col < old(self).width,
        ensures
            image_wf(*final(self)),
            final(self).width == old(self).width,
            final(self).height == old(self).height,
            final(self).pixels@ == old(self).pixels@.update(
                row * old(self).width + col,
                p,
            ),
    {
        proof {
            assert((row as int) * (self.width as int) + (col as int)
                < (self.width as int) * (self.height as int)) by (nonlinear_arith)
                requires
                    (row as int) < self.height as int,
                    (col as int) < self.width as int,
                    0 <= row as int,
                    0 <= col as int;
        }
        let idx: usize = row * self.width + col;
        self.pixels.set(idx, p);
    }

    /// Read the pixel at `(row, col)`.
    pub fn get_pixel(&self, row: usize, col: usize) -> (p: Pixel)
        requires
            image_wf(*self),
            row < self.height,
            col < self.width,
        ensures
            p == self.pixels@[row * self.width + col],
    {
        proof {
            assert((row as int) * (self.width as int) + (col as int)
                < (self.width as int) * (self.height as int)) by (nonlinear_arith)
                requires
                    (row as int) < self.height as int,
                    (col as int) < self.width as int,
                    0 <= row as int,
                    0 <= col as int;
        }
        let idx: usize = row * self.width + col;
        self.pixels[idx]
    }
}

} // verus!
