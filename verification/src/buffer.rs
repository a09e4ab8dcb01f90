//! A rectangular grid of RGBA pixels, stored row-major, with verified
//! accessors and a verified rectangle copy.

use vstd::prelude::*;

verus! {

/// One RGBA pixel: four unsigned 8-bit channels.
#[derive(Clone, Copy, PartialEq, Eq, Structural, Debug)]
pub struct Pixel {
    pub r: u8,
    pub g: u8,
    pub b: u8,
    pub a: u8,
}

impl Pixel {
    /// The fully transparent pixel that a fresh canvas is filled with.
    pub open spec fn zero() -> Pixel {
        Pixel { r: 0, g: 0, b: 0, a: 0 }
    }
}

/// A `width` x `height` grid of pixels; the pixel at column `x`, row `y`
/// sits at index `y * width + x` of `data`.
pub struct PixelBuffer {
    pub width: u32,
    pub height: u32,
    pub data: Vec<Pixel>,
}

/// Row-major index arithmetic: a coordinate inside the grid lands inside
/// the backing storage.
pub proof fn lemma_index_in_bounds(x: int, y: int, w: int, h: int)
    requires
        0 <= x < w,
        0 <= y < h,
    ensures
        0 <= y * w + x < w * h,
{
    assert(0 <= y * w + x < w * h) by (nonlinear_arith)
        requires
            0 <= x < w,
            0 <= y < h,
    ;
}

/// Distinct coordinates of one grid occupy distinct storage indices.
pub proof fn lemma_index_injective(x1: int, y1: int, x2: int, y2: int, w: int)
    requires
        0 <= x1 < w,
        0 <= x2 < w,
        0 <= y1,
        0 <= y2,
        !(x1 == x2 && y1 == y2),
    ensures
        y1 * w + x1 != y2 * w + x2,
{
    assert(y1 * w + x1 != y2 * w + x2) by (nonlinear_arith)
        requires
            0 <= x1 < w,
            0 <= x2 < w,
            0 <= y1,
            0 <= y2,
            !(x1 == x2 && y1 == y2),
    ;
}

impl PixelBuffer {
    /// The storage holds exactly one pixel per coordinate of the grid.
    pub open spec fn wf(self) -> bool {
        self.data@.len() == self.width * self.height
    }

    /// The pixel at column `x`, row `y`.
    pub open spec fn pixel(self, x: int, y: int) -> Pixel {
        self.data@[y * self.width + x]
    }

    /// Allocate a canvas of the given size, every pixel fully transparent.
    pub fn new(width: u32, height: u32) -> (b: PixelBuffer)
        requires
            width * height <= usize::MAX,
        ensures
            b.wf(),
            b.width == width,
            b.height == height,
            forall|x: int, y: int|
                0 <= x < width && 0 <= y < height ==> b.pixel(x, y) == Pixel::zero(),
    {
        let n64: u64 = (width as u64) * (height as u64);
        let n: usize = n64 as usize;
        let mut data: Vec<Pixel> = Vec::new();
        let mut i: usize = 0;
        while i < n
            invariant
                i <= n,
                n == width * height,
                data@.len() == i,
                forall|k: int| 0 <= k < i ==> data@[k] == Pixel::zero(),
            decreases n - i,
        {
            data.push(Pixel { r: 0, g: 0, b: 0, a: 0 });
            i = i + 1;
        }
        let b = PixelBuffer { width, height, data };
        proof {
            assert forall|x: int, y: int|
                0 <= x < width && 0 <= y < height implies b.pixel(x, y) == Pixel::zero() by {
                lemma_index_in_bounds(x, y, width as int, height as int);
            }
        }
        b
    }

    /// Read the pixel at column `x`, row `y`.
    pub fn get(&self, x: u32, y: u32) -> (p: Pixel)
        requires
            self.wf(),
            x < self.width,
            y < self.height,
        ensures
            p == self.pixel(x as int, y as int),
    {
        proof {
            lemma_index_in_bounds(x as int, y as int, self.width as int, self.height as int);
        }
        let n: usize = self.data.len();
        assert(y * self.width + x < n);
        let idx: usize = (y as usize) * (self.width as usize) + (x as usize);
        self.data[idx]
    }

    /// Overwrite the pixel at column `x`, row `y`; every other pixel, and the
    /// dimensions, are untouched.
    pub fn set(&mut self, x: u32, y: u32, p: Pixel)
        requires
            old(self).wf(),
            x < old(self).width,
            y < old(self).height,
        ensures
            final(self).wf(),
            final(self).width == old(self).width,
            final(self).height == old(self).height,
            final(self).pixel(x as int, y as int) == p,
            forall|x2: int, y2: int|
                0 <= x2 < old(self).width && 0 <= y2 < old(self).height
                    && !(x2 == x && y2 == y)
                    ==> final(self).pixel(x2, y2) == old(self).pixel(x2, y2),
    {
        proof {
            lemma_index_in_bounds(x as int, y as int, self.width as int, self.height as int);
        }
        let n: usize = self.data.len();
        assert(y * self.width + x < n);
        let idx: usize = (y as usize) * (self.width as usize) + (x as usize);
        self.data[idx] = p;
        proof {
            assert forall|x2: int, y2: int|
                0 <= x2 < self.width && 0 <= y2 < self.height && !(x2 == x && y2 == y)
                    implies self.pixel(x2, y2) == old(self).pixel(x2, y2) by {
                lemma_index_in_bounds(x2, y2, self.width as int, self.height as int);
                lemma_index_injective(x2, y2, x as int, y as int, self.width as int);
            }
        }
    }
}

/// `(px, py)` lies in the axis-aligned rectangle whose top-left corner is
/// `(dx, dy)` and whose size is `w` x `h`.
pub open spec fn in_rect(px: int, py: int, dx: int, dy: int, w: int, h: int) -> bool {
    dx <= px < dx + w && dy <= py < dy + h
}

/// Copy `src` into `dst` so that `src`'s top-left corner lands at
/// `(dx, dy)`; destination pixels are overwritten, never blended, and every
/// pixel outside the copied rectangle keeps its value.
pub fn blit(dst: &mut PixelBuffer, src: &PixelBuffer, dx: u32, dy: u32)
    requires
        old(dst).wf(),
        src.wf(),
        dx + src.width <= old(dst).width,
        dy + src.height <= old(dst).height,
    ensures
        final(dst).wf(),
        final(dst).width == old(dst).width,
        final(dst).height == old(dst).height,
        forall|x: int, y: int|
            0 <= x < src.width && 0 <= y < src.height
                ==> final(dst).pixel(dx + x, dy + y) == #[trigger] src.pixel(x, y),
        forall|px: int, py: int|
            0 <= px < old(dst).width && 0 <= py < old(dst).height
                && !in_rect(px, py, dx as int, dy as int, src.width as int, src.height as int)
                ==> final(dst).pixel(px, py) == old(dst).pixel(px, py),
{
    let ghost dst0: PixelBuffer = *dst;
    let mut y: u32 = 0;
    while y < src.height
        invariant
            dst.wf(),
            src.wf(),
            dst.width == dst0.width,
            dst.height == dst0.height,
            dx + src.width <= dst0.width,
            dy + src.height <= dst0.height,
            y <= src.height,
            forall|x2: int, y2: int|
                0 <= x2 < src.width && 0 <= y2 < y
                    ==> dst.pixel(dx + x2, dy + y2) == #[trigger] src.pixel(x2, y2),
            forall|px: int, py: int|
                0 <= px < dst0.width && 0 <= py < dst0.height
                    && !in_rect(px, py, dx as int, dy as int, src.width as int, y as int)
                    ==> dst.pixel(px, py) == dst0.pixel(px, py),
        decreases src.height - y,
    {
        let mut x: u32 = 0;
        while x < src.width
            invariant
                dst.wf(),
                src.wf(),
                dst.width == dst0.width,
                dst.height == dst0.height,
                dx + src.width <= dst0.width,
                dy + src.height <= dst0.height,
                y < src.height,
                x <= src.width,
                forall|x2: int, y2: int|
                    0 <= x2 < src.width && 0 <= y2 < y
                        ==> dst.pixel(dx + x2, dy + y2) == #[trigger] src.pixel(x2, y2),
                forall|x2: int|
                    0 <= x2 < x ==> dst.pixel(dx + x2, dy + y) == #[trigger] src.pixel(x2, y as int),
                forall|px: int, py: int|
                    0 <= px < dst0.width && 0 <= py < dst0.height
                        && !in_rect(px, py, dx as int, dy as int, src.width as int, y as int)
                        && !(py == dy + y && dx <= px < dx + x)
                        ==> dst.pixel(px, py) == dst0.pixel(px, py),
            decreases src.width - x,
        {
            let p = src.get(x, y);
            dst.set(dx + x, dy + y, p);
            x = x + 1;
        }
        y = y + 1;
    }
}

} // verus!
