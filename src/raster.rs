use vstd::prelude::*;
use crate::color::Rgba;

verus! {

/// An RGBA raster: `width * height` pixels, row by row, four bytes each.
pub struct Image {
    pub width: u32,
    pub height: u32,
    pub data: Vec<u8>,
}

/// Index of the first byte of pixel `(x, y)` in a raster of width `w`.
pub open spec fn byte_index(w: int, x: int, y: int) -> int {
    4 * (y * w + x)
}

/// The pixel whose bytes start at `k` in `data`.
pub open spec fn pixel_in(data: Seq<u8>, k: int) -> Rgba {
    Rgba { r: data[k], g: data[k + 1], b: data[k + 2], a: data[k + 3] }
}

/// `v` clamped to `[0, n - 1]`.
pub open spec fn clamp(v: int, n: int) -> int {
    if v < 0 {
        0
    } else if v > n - 1 {
        n - 1
    } else {
        v
    }
}

proof fn lemma_index_in_bounds(w: int, h: int, x: int, y: int)
    requires
        0 <= x < w,
        0 <= y < h,
    ensures
        0 <= y * w + x < w * h,
        0 <= byte_index(w, x, y),
        byte_index(w, x, y) + 4 <= 4 * (w * h),
{
    assert(0 <= y * w + x < w * h) by (nonlinear_arith)
        requires
            0 <= x < w,
            0 <= y < h,
    ;
}

proof fn lemma_distinct_pixels(w: int, x: int, y: int, x2: int, y2: int)
    requires
        0 <= x < w,
        0 <= x2 < w,
        0 <= y,
        0 <= y2,
        x != x2 || y != y2,
    ensures
        byte_index(w, x, y) + 4 <= byte_index(w, x2, y2) || byte_index(w, x2, y2) + 4
            <= byte_index(w, x, y),
{
    if y < y2 {
        assert(y * w + w <= y2 * w) by (nonlinear_arith)
            requires
                y < y2,
                0 <= w,
        ;
    } else if y2 < y {
        assert(y2 * w + w <= y * w) by (nonlinear_arith)
            requires
                y2 < y,
                0 <= w,
        ;
    }
}

impl Image {
    /// The byte length matches the dimensions.
    pub open spec fn wf(&self) -> bool {
        self.data@.len() == 4 * (self.width * self.height)
    }

    pub open spec fn pixel(&self, x: int, y: int) -> Rgba {
        pixel_in(self.data@, byte_index(self.width as int, x, y))
    }

    /// A transparent black raster of the given size.
    pub fn new(width: u32, height: u32) -> (r: Image)
        requires
            4 * (width * height) <= usize::MAX,
        ensures
            r.width == width,
            r.height == height,
            r.wf(),
            forall|k: int| 0 <= k < r.data@.len() ==> r.data@[k] == 0u8,
            forall|x: int, y: int|
                0 <= x < width && 0 <= y < height ==> #[trigger] r.pixel(x, y) == (Rgba {
                    r: 0,
                    g: 0,
                    b: 0,
                    a: 0,
                }),
    {
        proof {
            assert(0 <= width * height) by (nonlinear_arith);
        }
        let n: usize = 4 * (width as usize * height as usize);
        let data: Vec<u8> = vec![0u8; n];
        let r = Image { width, height, data };
        proof {
            assert forall|x: int, y: int| 0 <= x < width && 0 <= y < height implies #[trigger] r.pixel(
                x,
                y,
            ) == (Rgba { r: 0, g: 0, b: 0, a: 0 }) by {
                lemma_index_in_bounds(width as int, height as int, x, y);
            }
        }
        r
    }

    /// The pixel at `(x, y)`.
    pub fn get_pixel(&self, x: u32, y: u32) -> (r: Rgba)
        requires
            self.wf(),
            x < self.width,
            y < self.height,
        ensures
            r == self.pixel(x as int, y as int),
    {
        let _len: usize = self.data.len();
        proof {
            lemma_index_in_bounds(self.width as int, self.height as int, x as int, y as int);
            assert(0 <= y * self.width <= y * self.width + x) by (nonlinear_arith);
        }
        let k: usize = 4 * (y as usize * self.width as usize + x as usize);
        Rgba { r: self.data[k], g: self.data[k + 1], b: self.data[k + 2], a: self.data[k + 3] }
    }

    /// Overwrites the pixel at `(x, y)`.
    pub fn put_pixel(&mut self, x: u32, y: u32, c: Rgba)
        requires
            old(self).wf(),
            x < old(self).width,
            y < old(self).height,
        ensures
            final(self).width == old(self).width,
            final(self).height == old(self).height,
            final(self).wf(),
            final(self).pixel(x as int, y as int) == c,
            forall|x2: int, y2: int|
                0 <= x2 < old(self).width && 0 <= y2 < old(self).height && (x2 != x || y2 != y)
                    ==> #[trigger] final(self).pixel(x2, y2) == old(self).pixel(x2, y2),
            forall|k: int|
                0 <= k < old(self).data@.len() && !(byte_index(
                    old(self).width as int,
                    x as int,
                    y as int,
                ) <= k < byte_index(old(self).width as int, x as int, y as int) + 4)
                    ==> final(self).data@[k] == old(self).data@[k],
    {
        let _len: usize = self.data.len();
        proof {
            lemma_index_in_bounds(self.width as int, self.height as int, x as int, y as int);
            assert(0 <= y * self.width <= y * self.width + x) by (nonlinear_arith);
        }
        let k: usize = 4 * (y as usize * self.width as usize + x as usize);
        self.data.set(k, c.r);
        self.data.set(k + 1, c.g);
        self.data.set(k + 2, c.b);
        self.data.set(k + 3, c.a);
        proof {
            assert forall|x2: int, y2: int|
                0 <= x2 < self.width && 0 <= y2 < self.height && (x2 != x || y2 != y) implies
                    #[trigger] self.pixel(x2, y2) == old(self).pixel(x2, y2) by {
                lemma_distinct_pixels(self.width as int, x as int, y as int, x2, y2);
                lemma_index_in_bounds(self.width as int, self.height as int, x2, y2);
            }
        }
    }
}

/// `v + d` clamped to `[0, n - 1]`, for `d` in `-1..=1`.
pub fn clamp_step(v: u32, d: i8, n: u32) -> (r: u32)
    requires
        v < n,
        -1 <= d <= 1,
    ensures
        r == clamp(v + d, n as int),
{
    if d < 0 {
        if v == 0 {
            0
        } else {
            v - 1
        }
    } else if d > 0 {
        if v >= n - 1 {
            n - 1
        } else {
            v + 1
        }
    } else {
        v
    }
}

} // verus!
