use vstd::prelude::*;

verus! {

/// Horizontal part of the fixed image aspect ratio.
pub const ASPECT_WIDTH: u32 = 16;

/// Vertical part of the fixed image aspect ratio.
pub const ASPECT_HEIGHT: u32 = 9;

/// Height of an image of the given width at the fixed aspect ratio.
pub open spec fn height_for(width: int) -> int {
    width * ASPECT_HEIGHT as int / ASPECT_WIDTH as int
}

/// The pixel grid of a rendered image, in pixels. Column `i` runs left to
/// right, row `j` bottom to top.
#[derive(Clone, Copy, Debug, PartialEq, Eq)]
pub struct Frame {
    pub width: u32,
    pub height: u32,
}

/// Column and row of the `k`-th pixel in render order: rows from the top
/// one down, each row from left to right.
pub open spec fn pixel_at_spec(f: Frame, k: int) -> (u32, u32) {
    ((k % f.width as int) as u32, (f.height as int - 1 - k / f.width as int) as u32)
}

/// Position in render order of the pixel at column `i`, row `j`.
pub open spec fn order_of_spec(f: Frame, i: int, j: int) -> int {
    (f.height as int - 1 - j) * f.width as int + i
}

impl Frame {
    /// Number of pixels in the grid.
    pub open spec fn area(self) -> int {
        self.width as int * self.height as int
    }

    /// A frame of the given width whose height follows from the aspect ratio.
    pub fn from_width(width: u32) -> (r: Frame)
        ensures
            r.width == width,
            r.height == height_for(width as int),
    {
        let w: u64 = width as u64;
        let h: u64 = w * 9 / 16;
        assert(h <= w);
        Frame { width, height: h as u32 }
    }

    /// Number of pixels in the grid.
    pub fn pixel_count(&self) -> (r: u64)
        ensures
            r == self.area(),
    {
        assert(self.width as int * self.height as int <= u32::MAX as int * u32::MAX as int)
            by (nonlinear_arith);
        self.width as u64 * self.height as u64
    }

    /// Length of the row-major buffer of three 8-bit channels per pixel.
    pub fn byte_len(&self) -> (r: usize)
        requires
            3 * self.area() <= usize::MAX,
        ensures
            r == 3 * self.area(),
    {
        let n: u64 = self.pixel_count();
        3 * (n as usize)
    }

    /// The pixel written `k`-th: the render walks rows from the top one down,
    /// and each row from left to right.
    pub fn pixel_at(&self, k: u64) -> (r: (u32, u32))
        requires
            k < self.area(),
        ensures
            r == pixel_at_spec(*self, k as int),
            r.0 < self.width,
            r.1 < self.height,
    {
        let w: u64 = self.width as u64;
        let h: u64 = self.height as u64;
        assert(w > 0) by (nonlinear_arith)
            requires k < w * h, k >= 0, h >= 0;
        let row: u64 = k / w;
        assert(row < self.height) by (nonlinear_arith)
            requires
                k < w * self.height as int,
                w > 0,
                row == k / w,
        ;
        ((k % w) as u32, self.height - 1 - row as u32)
    }

    /// Position in render order of the pixel at column `i`, row `j`; its
    /// channels start at three times this position in the output buffer.
    pub fn order_of(&self, i: u32, j: u32) -> (r: u64)
        requires
            i < self.width,
            j < self.height,
        ensures
            r == order_of_spec(*self, i as int, j as int),
            r < self.area(),
    {
        let up: u64 = (self.height - 1 - j) as u64;
        let w: u64 = self.width as u64;
        let h: u64 = self.height as u64;
        assert(up * w + i < w * h) by (nonlinear_arith)
            requires
                up < h,
                i < w,
        ;
        assert(w * h <= u32::MAX as int * u32::MAX as int) by (nonlinear_arith)
            requires
                w <= u32::MAX as int,
                h <= u32::MAX as int,
        ;
        up * w + i as u64
    }
}

/// Render order visits each pixel once: the position of the `k`-th pixel is
/// `k`, and the pixel at the position of `(i, j)` is `(i, j)`.
pub proof fn lemma_render_order_bijective(f: Frame, k: int, i: int, j: int)
    requires
        0 <= k < f.area(),
        0 <= i < f.width,
        0 <= j < f.height,
    ensures
        order_of_spec(f, pixel_at_spec(f, k).0 as int, pixel_at_spec(f, k).1 as int) == k,
        pixel_at_spec(f, order_of_spec(f, i, j)) == (i as u32, j as u32),
{
    let w = f.width as int;
    let h = f.height as int;
    assert(w > 0) by (nonlinear_arith)
        requires k < w * h, k >= 0, w >= 0, h >= 0;
    assert(k / w < h) by (nonlinear_arith)
        requires k < w * h, w > 0, k >= 0;
    assert(k == (k / w) * w + k % w) by (nonlinear_arith)
        requires w > 0;
    let p = (h - 1 - j) * w + i;
    assert(p / w == h - 1 - j && p % w == i) by (nonlinear_arith)
        requires p == (h - 1 - j) * w + i, 0 <= i < w, 0 <= h - 1 - j;
}

} // verus!
