use vstd::prelude::*;
use crate::color::{Rgba, color_delta, color_delta_spec};
use crate::raster::{Image, clamp, clamp_step};

verus! {

/// Offsets of the eight neighbours, column by column:
/// `(-1,-1) (-1,0) (-1,1) (0,-1) (0,1) (1,-1) (1,0) (1,1)`.
pub open spec fn offset(k: int) -> (int, int) {
    let j = if k < 4 { k } else { k + 1 };
    (j / 3 - 1, j % 3 - 1)
}

/// Coordinates of neighbour `k` of `(x, y)`, clamped to the raster.
pub open spec fn neighbor(img: Image, x: int, y: int, k: int) -> (int, int) {
    (clamp(x + offset(k).0, img.width as int), clamp(y + offset(k).1, img.height as int))
}

/// What the scan of the first `k` neighbours has seen: how many have the
/// centre's brightness, and the darkest and brightest ones.
pub struct ScanState {
    pub zeroes: nat,
    pub min: int,
    pub min_at: (int, int),
    pub max: int,
    pub max_at: (int, int),
}

pub open spec fn scan(img: Image, x: int, y: int, k: nat) -> ScanState
    decreases k,
{
    if k == 0 {
        ScanState { zeroes: 0, min: 0, min_at: (0, 0), max: 0, max_at: (0, 0) }
    } else {
        let s = scan(img, x, y, (k - 1) as nat);
        let at = neighbor(img, x, y, k - 1);
        let d = color_delta_spec(img.pixel(x, y), img.pixel(at.0, at.1), true);
        if d == 0 {
            ScanState { zeroes: s.zeroes + 1, ..s }
        } else if d < s.min {
            ScanState { min: d, min_at: at, ..s }
        } else if d > s.max {
            ScanState { max: d, max_at: at, ..s }
        } else {
            s
        }
    }
}

/// How many of the first `k` neighbours of `(x, y)` equal it exactly.
pub open spec fn count_same(img: Image, x: int, y: int, k: nat) -> nat
    decreases k,
{
    if k == 0 {
        0
    } else {
        let at = neighbor(img, x, y, k - 1);
        count_same(img, x, y, (k - 1) as nat) + if img.pixel(at.0, at.1) == img.pixel(x, y) {
            1nat
        } else {
            0nat
        }
    }
}

/// `(x, y)` has three or more neighbours of exactly its colour.
pub open spec fn many_siblings(img: Image, x: int, y: int) -> bool {
    count_same(img, x, y, 8) > 2
}

/// `(x, y)` of `img1` looks like anti-aliasing: its neighbourhood has
/// at most two pixels of its brightness, a darker and a brighter one, and
/// the darkest or the brightest of them sits in a flat area of both images.
#[verifier::opaque]
pub open spec fn antialiased_spec(img1: Image, img2: Image, x: int, y: int) -> bool {
    let s = scan(img1, x, y, 8);
    if s.zeroes > 2 || s.min == 0 || s.max == 0 {
        false
    } else {
        (many_siblings(img1, s.min_at.0, s.min_at.1) && many_siblings(
            img2,
            s.min_at.0,
            s.min_at.1,
        )) || (many_siblings(img1, s.max_at.0, s.max_at.1) && many_siblings(
            img2,
            s.max_at.0,
            s.max_at.1,
        ))
    }
}

proof fn lemma_zeroes_grow(img: Image, x: int, y: int, j: nat, k: nat)
    requires
        j <= k,
    ensures
        scan(img, x, y, j).zeroes <= scan(img, x, y, k).zeroes,
    decreases k - j,
{
    if j < k {
        lemma_zeroes_grow(img, x, y, j, (k - 1) as nat);
    }
}

proof fn lemma_same_grows(img: Image, x: int, y: int, j: nat, k: nat)
    requires
        j <= k,
    ensures
        count_same(img, x, y, j) <= count_same(img, x, y, k),
    decreases k - j,
{
    if j < k {
        lemma_same_grows(img, x, y, j, (k - 1) as nat);
    }
}

proof fn lemma_scan_in_bounds(img: Image, x: int, y: int, k: nat)
    requires
        0 <= x < img.width,
        0 <= y < img.height,
    ensures
        0 <= scan(img, x, y, k).min_at.0 < img.width,
        0 <= scan(img, x, y, k).min_at.1 < img.height,
        0 <= scan(img, x, y, k).max_at.0 < img.width,
        0 <= scan(img, x, y, k).max_at.1 < img.height,
    decreases k,
{
    if k > 0 {
        lemma_scan_in_bounds(img, x, y, (k - 1) as nat);
    }
}

/// Coordinates of neighbour `k` of `(x, y)`.
fn neighbor_at(img: &Image, x: u32, y: u32, k: u32) -> (r: (u32, u32))
    requires
        x < img.width,
        y < img.height,
        k < 8,
    ensures
        r.0 == neighbor(*img, x as int, y as int, k as int).0,
        r.1 == neighbor(*img, x as int, y as int, k as int).1,
        r.0 < img.width,
        r.1 < img.height,
{
    let j: u32 = if k < 4 {
        k
    } else {
        k + 1
    };
    let dx: i8 = (j / 3) as i8 - 1;
    let dy: i8 = (j % 3) as i8 - 1;
    (clamp_step(x, dx, img.width), clamp_step(y, dy, img.height))
}

/// Whether `(x, y)` has three or more neighbours of exactly its colour.
pub fn has_many_siblings(img: &Image, x: u32, y: u32) -> (r: bool)
    requires
        img.wf(),
        x < img.width,
        y < img.height,
    ensures
        r == many_siblings(*img, x as int, y as int),
{
    let center = img.get_pixel(x, y);
    let mut zeroes: u8 = 0;
    let mut k: u32 = 0;
    while k < 8
        invariant
            img.wf(),
            x < img.width,
            y < img.height,
            k <= 8,
            center == img.pixel(x as int, y as int),
            zeroes == count_same(*img, x as int, y as int, k as nat),
            zeroes <= 2,
        decreases 8 - k,
    {
        let (nx, ny) = neighbor_at(img, x, y, k);
        if img.get_pixel(nx, ny) == center {
            zeroes = zeroes + 1;
        }
        k = k + 1;
        if zeroes > 2 {
            proof {
                lemma_same_grows(*img, x as int, y as int, k as nat, 8);
            }
            return true;
        }
    }
    false
}

/// Whether `(x, y)` of `img1` looks like anti-aliasing, with `img2` as the
/// cross-reference (see `antialiased_spec`).
pub fn antialiased(img1: &Image, x: u32, y: u32, img2: &Image) -> (r: bool)
    requires
        img1.wf(),
        img2.wf(),
        img1.width == img2.width,
        img1.height == img2.height,
        x < img1.width,
        y < img1.height,
    ensures
        r == antialiased_spec(*img1, *img2, x as int, y as int),
{
    let center: Rgba = img1.get_pixel(x, y);
    let mut zeroes: u8 = 0;
    let mut min: i128 = 0;
    let mut max: i128 = 0;
    let mut min_x: u32 = 0;
    let mut min_y: u32 = 0;
    let mut max_x: u32 = 0;
    let mut max_y: u32 = 0;
    let mut k: u32 = 0;
    while k < 8
        invariant
            img1.wf(),
            x < img1.width,
            y < img1.height,
            k <= 8,
            center == img1.pixel(x as int, y as int),
            zeroes <= 2,
            ({
                let s = scan(*img1, x as int, y as int, k as nat);
                &&& s.zeroes == zeroes
                &&& s.min == min
                &&& s.max == max
                &&& s.min_at == (min_x as int, min_y as int)
                &&& s.max_at == (max_x as int, max_y as int)
            }),
        decreases 8 - k,
    {
        let (nx, ny) = neighbor_at(img1, x, y, k);
        let delta = color_delta(center, img1.get_pixel(nx, ny), true);
        k = k + 1;
        if delta == 0 {
            zeroes = zeroes + 1;
            if zeroes > 2 {
                proof {
                    lemma_zeroes_grow(*img1, x as int, y as int, k as nat, 8);
                    reveal(antialiased_spec);
                }
                return false;
            }
        } else if delta < min {
            min = delta;
            min_x = nx;
            min_y = ny;
        } else if delta > max {
            max = delta;
            max_x = nx;
            max_y = ny;
        }
    }
    proof {
        reveal(antialiased_spec);
    }
    if min == 0 || max == 0 {
        return false;
    }
    proof {
        lemma_scan_in_bounds(*img1, x as int, y as int, 8);
    }
    (has_many_siblings(img1, min_x, min_y) && has_many_siblings(img2, min_x, min_y))
        || (has_many_siblings(img1, max_x, max_y) && has_many_siblings(img2, max_x, max_y))
}

} // verus!
