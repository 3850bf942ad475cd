use vstd::prelude::*;

verus! {

/// One pixel: four 8-bit channels.
#[derive(Clone, Copy, PartialEq, Eq, Structural, Debug)]
pub struct Rgba {
    pub r: u8,
    pub g: u8,
    pub b: u8,
    pub a: u8,
}

/// A channel composited over white, scaled by 255:
/// `255 * (255 + (c - 255) * a / 255)`.
pub open spec fn blend_spec(c: u8, a: u8) -> int {
    65025 + (c - 255) * a
}

/// Luma `Y` of a (composited) colour, scaled by `255 * 10^8`.
pub open spec fn luma_of(r: int, g: int, b: int) -> int {
    29889531 * r + 58662247 * g + 11448223 * b
}

/// In-phase chroma `I`, scaled like `luma_of`.
pub open spec fn in_phase_of(r: int, g: int, b: int) -> int {
    59597799 * r - 27417610 * g - 32180189 * b
}

/// Quadrature chroma `Q`, scaled like `luma_of`.
pub open spec fn quadrature_of(r: int, g: int, b: int) -> int {
    21147017 * r - 52261711 * g + 31114694 * b
}

pub open spec fn luma(p: Rgba) -> int {
    luma_of(blend_spec(p.r, p.a), blend_spec(p.g, p.a), blend_spec(p.b, p.a))
}

pub open spec fn in_phase(p: Rgba) -> int {
    in_phase_of(blend_spec(p.r, p.a), blend_spec(p.g, p.a), blend_spec(p.b, p.a))
}

pub open spec fn quadrature(p: Rgba) -> int {
    quadrature_of(blend_spec(p.r, p.a), blend_spec(p.g, p.a), blend_spec(p.b, p.a))
}

/// The weighted squared YIQ distance, scaled by `10^4 * (255 * 10^8)^2`.
#[verifier::opaque]
pub open spec fn distance(p1: Rgba, p2: Rgba) -> int {
    let y = luma(p1) - luma(p2);
    let i = in_phase(p1) - in_phase(p2);
    let q = quadrature(p1) - quadrature(p2);
    5053 * (y * y) + 2990 * (i * i) + 1957 * (q * q)
}

/// Signed perceptual distance: zero for identical colours; with
/// `y_only` the luma difference; otherwise the distance, negative when
/// the first colour is the brighter one.
pub open spec fn color_delta_spec(p1: Rgba, p2: Rgba, y_only: bool) -> int {
    if p1 == p2 {
        0
    } else if y_only {
        luma(p1) - luma(p2)
    } else if luma(p1) > luma(p2) {
        -distance(p1, p2)
    } else {
        distance(p1, p2)
    }
}

/// The largest magnitude of `color_delta_spec`: `35215` in the metric's
/// natural units, times `10^4 * (255 * 10^8)^2`.
pub const DELTA_BOUND: i128 = 228_985_537_500_000_000_000_000_000_000;

/// Largest magnitude of `luma`, `in_phase` and `quadrature` differences.
pub const CHANNEL_BOUND: i64 = 8_000_000_000_000;

proof fn lemma_blend_bounds(c: u8, a: u8)
    ensures
        0 <= blend_spec(c, a) <= 65025,
{
    assert(-65025 <= (c - 255) * a <= 0) by (nonlinear_arith)
        requires
            0 <= c <= 255,
            0 <= a <= 255,
    ;
}

proof fn lemma_yiq_bounds(p: Rgba)
    ensures
        0 <= luma(p) <= 6502500065025,
        -4000000000000 <= in_phase(p) <= 4000000000000,
        -4000000000000 <= quadrature(p) <= 4000000000000,
{
    lemma_blend_bounds(p.r, p.a);
    lemma_blend_bounds(p.g, p.a);
    lemma_blend_bounds(p.b, p.a);
}

fn blend(c: u8, a: u8) -> (r: i64)
    ensures
        r == blend_spec(c, a),
        0 <= r <= 65025,
{
    proof {
        lemma_blend_bounds(c, a);
    }
    65025 + (c as i64 - 255) * (a as i64)
}

/// The luma, in-phase and quadrature components of a colour.
fn rgb2yiq(p: Rgba) -> (r: (i64, i64, i64))
    ensures
        r.0 == luma(p),
        r.1 == in_phase(p),
        r.2 == quadrature(p),
{
    proof {
        lemma_yiq_bounds(p);
    }
    let r = blend(p.r, p.a);
    let g = blend(p.g, p.a);
    let b = blend(p.b, p.a);
    (
        29889531 * r + 58662247 * g + 11448223 * b,
        59597799 * r - 27417610 * g - 32180189 * b,
        21147017 * r - 52261711 * g + 31114694 * b,
    )
}

proof fn lemma_square_bound(d: int)
    requires
        -CHANNEL_BOUND <= d <= CHANNEL_BOUND,
    ensures
        0 <= d * d <= 64_000_000_000_000_000_000_000_000,
{
    assert(0 <= d * d <= CHANNEL_BOUND * CHANNEL_BOUND) by (nonlinear_arith)
        requires
            -CHANNEL_BOUND <= d <= CHANNEL_BOUND,
    ;
}

/// The weighted square of a YIQ difference.
spec fn form(y: int, i: int, q: int) -> int {
    5053 * (y * y) + 2990 * (i * i) + 1957 * (q * q)
}

/// The distance for differences `(u, v, w)` of the composited channels.
spec fn form_of_rgb(u: int, v: int, w: int) -> int {
    form(luma_of(u, v, w), in_phase_of(u, v, w), quadrature_of(u, v, w))
}

proof fn lemma_square_expand(k: int, z: int, c: int)
    ensures
        (k * z + c) * (k * z + c) == (k * k) * (z * z) + (2 * (k * c)) * z + c * c,
{
    assert((k * z + c) * (k * z + c) == (k * k) * (z * z) + (2 * (k * c)) * z + c * c)
        by (nonlinear_arith);
}

proof fn lemma_weighted_sum(a: int, b: int, c: int, p: int)
    ensures
        5053 * (a * p) + 2990 * (b * p) + 1957 * (c * p) == (5053 * a + 2990 * b + 1957 * c) * p,
{
    assert(5053 * (a * p) + 2990 * (b * p) + 1957 * (c * p) == (5053 * a + 2990 * b + 1957 * c)
        * p) by (nonlinear_arith);
}

proof fn lemma_expand(ky: int, ki: int, kq: int, y0: int, i0: int, q0: int, z: int)
    ensures
        form(ky * z + y0, ki * z + i0, kq * z + q0) == (5053 * (ky * ky) + 2990 * (ki * ki) + 1957
            * (kq * kq)) * (z * z) + (5053 * (2 * (ky * y0)) + 2990 * (2 * (ki * i0)) + 1957 * (2
            * (kq * q0))) * z + form(y0, i0, q0),
{
    lemma_square_expand(ky, z, y0);
    lemma_square_expand(ki, z, i0);
    lemma_square_expand(kq, z, q0);
    lemma_weighted_sum(ky * ky, ki * ki, kq * kq, z * z);
    lemma_weighted_sum(2 * (ky * y0), 2 * (ki * i0), 2 * (kq * q0), z);
}

/// Along one channel the distance is a convex parabola: it is largest at
/// one end of the interval.
proof fn lemma_parabola(ky: int, ki: int, kq: int, y0: int, i0: int, q0: int, u: int, t: int)
    requires
        -t <= u <= t,
    ensures
        form(ky * u + y0, ki * u + i0, kq * u + q0) <= form(ky * t + y0, ki * t + i0, kq * t + q0)
            || form(ky * u + y0, ki * u + i0, kq * u + q0) <= form(
            ky * (-t) + y0,
            ki * (-t) + i0,
            kq * (-t) + q0,
        ),
{
    let a = 5053 * (ky * ky) + 2990 * (ki * ki) + 1957 * (kq * kq);
    let b = 5053 * (2 * (ky * y0)) + 2990 * (2 * (ki * i0)) + 1957 * (2 * (kq * q0));
    let c = form(y0, i0, q0);
    lemma_expand(ky, ki, kq, y0, i0, q0, u);
    lemma_expand(ky, ki, kq, y0, i0, q0, t);
    lemma_expand(ky, ki, kq, y0, i0, q0, -t);
    assert(0 <= a) by (nonlinear_arith)
        requires
            a == 5053 * (ky * ky) + 2990 * (ki * ki) + 1957 * (kq * kq),
    ;
    assert(a * (u * u) <= a * (t * t)) by (nonlinear_arith)
        requires
            0 <= a,
            -t <= u <= t,
    ;
    assert(a * (t * t) == a * ((-t) * (-t))) by (nonlinear_arith);
    if b >= 0 {
        assert(b * u <= b * t) by (nonlinear_arith)
            requires
                0 <= b,
                u <= t,
        ;
    } else {
        assert(b * u <= b * (-t)) by (nonlinear_arith)
            requires
                b < 0,
                -t <= u,
        ;
    }
}

proof fn lemma_vertex(u: int, v: int, w: int, y: int, i: int, q: int)
    requires
        luma_of(u, v, w) == y,
        in_phase_of(u, v, w) == i,
        quadrature_of(u, v, w) == q,
        5053 * (y * y) + 2990 * (i * i) + 1957 * (q * q) <= DELTA_BOUND,
    ensures
        form_of_rgb(u, v, w) <= DELTA_BOUND,
{
}

proof fn lemma_corner_w(u: int, v: int, w: int)
    requires
        u == 65025 || u == -65025,
        v == 65025 || v == -65025,
        -65025 <= w <= 65025,
    ensures
        form_of_rgb(u, v, w) <= DELTA_BOUND,
{
    lemma_parabola(
        11448223,
        -32180189,
        31114694,
        29889531 * u + 58662247 * v,
        59597799 * u - 27417610 * v,
        21147017 * u - 52261711 * v,
        w,
        65025,
    );
    lemma_vertex(65025, 65025, 65025, 6502500065025, 0, 0);
    lemma_vertex(65025, 65025, -65025, 5013658663875, 4185033579450, -4046465954700);
    lemma_vertex(65025, -65025, 65025, -1126525157325, 3565660180500, 6796635515550);
    lemma_vertex(65025, -65025, -65025, -2615366558475, 7750693759950, 2750169560850);
    lemma_vertex(-65025, 65025, 65025, 2615366558475, -7750693759950, -2750169560850);
    lemma_vertex(-65025, 65025, -65025, 1126525157325, -3565660180500, -6796635515550);
    lemma_vertex(-65025, -65025, 65025, -5013658663875, -4185033579450, 4046465954700);
    lemma_vertex(-65025, -65025, -65025, -6502500065025, 0, 0);
}

proof fn lemma_corner_v(u: int, v: int, w: int)
    requires
        u == 65025 || u == -65025,
        -65025 <= v <= 65025,
        -65025 <= w <= 65025,
    ensures
        form_of_rgb(u, v, w) <= DELTA_BOUND,
{
    lemma_parabola(
        58662247,
        -27417610,
        -52261711,
        29889531 * u + 11448223 * w,
        59597799 * u - 32180189 * w,
        21147017 * u + 31114694 * w,
        v,
        65025,
    );
    lemma_corner_w(u, 65025, w);
    lemma_corner_w(u, -65025, w);
}

proof fn lemma_distance_bound(p1: Rgba, p2: Rgba)
    ensures
        0 <= distance(p1, p2) <= DELTA_BOUND,
{
    reveal(distance);
    lemma_blend_bounds(p1.r, p1.a);
    lemma_blend_bounds(p1.g, p1.a);
    lemma_blend_bounds(p1.b, p1.a);
    lemma_blend_bounds(p2.r, p2.a);
    lemma_blend_bounds(p2.g, p2.a);
    lemma_blend_bounds(p2.b, p2.a);
    let u = blend_spec(p1.r, p1.a) - blend_spec(p2.r, p2.a);
    let v = blend_spec(p1.g, p1.a) - blend_spec(p2.g, p2.a);
    let w = blend_spec(p1.b, p1.a) - blend_spec(p2.b, p2.a);
    assert(distance(p1, p2) == form_of_rgb(u, v, w));
    lemma_parabola(
        29889531,
        59597799,
        21147017,
        58662247 * v + 11448223 * w,
        -27417610 * v - 32180189 * w,
        -52261711 * v + 31114694 * w,
        u,
        65025,
    );
    lemma_corner_v(65025, v, w);
    lemma_corner_v(-65025, v, w);
    let y = luma(p1) - luma(p2);
    let i = in_phase(p1) - in_phase(p2);
    let q = quadrature(p1) - quadrature(p2);
    assert(0 <= y * y && 0 <= i * i && 0 <= q * q) by (nonlinear_arith);
}

/// Signed perceptual distance between two colours (see `color_delta_spec`).
pub fn color_delta(p1: Rgba, p2: Rgba, y_only: bool) -> (r: i128)
    ensures
        r == color_delta_spec(p1, p2, y_only),
        -DELTA_BOUND <= r <= DELTA_BOUND,
{
    if p1 == p2 {
        return 0;
    }
    proof {
        lemma_yiq_bounds(p1);
        lemma_yiq_bounds(p2);
    }
    let (y1, i1, q1) = rgb2yiq(p1);
    let (y2, i2, q2) = rgb2yiq(p2);
    let y = (y1 - y2) as i128;
    if y_only {
        return y;
    }
    let i = (i1 - i2) as i128;
    let q = (q1 - q2) as i128;
    proof {
        lemma_square_bound(y as int);
        lemma_square_bound(i as int);
        lemma_square_bound(q as int);
    }
    let delta = 5053 * (y * y) + 2990 * (i * i) + 1957 * (q * q);
    proof {
        reveal(distance);
        lemma_distance_bound(p1, p2);
    }
    if y1 > y2 {
        -delta
    } else {
        delta
    }
}

} // verus!
