//! Arithmetic that decides the shape of a grid: rounded-up division, the
//! integer square root, and the passage between a pixel's linear index and
//! its coordinates.

use vstd::prelude::*;

verus! {

/// `a / b` rounded up, for `b > 0`.
pub open spec fn ceil_div(a: int, b: int) -> int {
    (a + b - 1) / b
}

/// Whether `q` is `a / b` rounded up: the least `q` with `q * b >= a`.
pub open spec fn is_ceil_div(a: int, b: int, q: int) -> bool {
    b > 0 && (q - 1) * b < a <= q * b
}

/// `ceil_div(a, b)` is `a / b` rounded up.
pub proof fn lemma_ceil_div_is_least(a: int, b: int)
    requires
        b > 0,
    ensures
        is_ceil_div(a, b, ceil_div(a, b)),
{
    let q = ceil_div(a, b);
    let r = (a + b - 1) % b;
    assert(a + b - 1 == b * q + r && 0 <= r < b) by {
        vstd::arithmetic::div_mod::lemma_fundamental_div_mod(a + b - 1, b);
    }
    assert(q * b == b * q && (q - 1) * b == b * q - b) by (nonlinear_arith);
}

/// Nothing but `ceil_div(a, b)` is `a / b` rounded up.
pub proof fn lemma_ceil_div_unique(a: int, b: int, q: int)
    requires
        is_ceil_div(a, b, q),
    ensures
        ceil_div(a, b) == q,
{
    lemma_ceil_div_is_least(a, b);
    let c = ceil_div(a, b);
    assert(c == q) by (nonlinear_arith)
        requires
            b > 0,
            (q - 1) * b < a <= q * b,
            (c - 1) * b < a <= c * b,
    ;
}

/// Divides, rounding any remainder up to a whole unit.
pub fn divide_rounding_up(dividend: usize, divisor: usize) -> (q: usize)
    requires
        divisor > 0,
    ensures
        q == ceil_div(dividend as int, divisor as int),
        is_ceil_div(dividend as int, divisor as int, q as int),
{
    let whole: usize = dividend / divisor;
    let rest: usize = dividend % divisor;
    proof {
        let a = dividend as int;
        let b = divisor as int;
        vstd::arithmetic::div_mod::lemma_fundamental_div_mod(a, b);
        assert(b * whole == whole * b) by (nonlinear_arith);
        if rest == 0 {
            assert((whole - 1) * b == whole * b - b) by (nonlinear_arith);
            assert(is_ceil_div(a, b, whole as int));
            lemma_ceil_div_unique(a, b, whole as int);
        } else {
            assert((whole + 1) * b == whole * b + b) by (nonlinear_arith);
            assert(is_ceil_div(a, b, whole + 1));
            lemma_ceil_div_unique(a, b, whole + 1);
            assert(whole + 1 <= usize::MAX) by (nonlinear_arith)
                requires
                    b >= 2,
                    whole * b <= usize::MAX,
                    whole >= 0,
                    usize::MAX >= 1,
            ;
        }
    }
    if rest == 0 {
        whole
    } else {
        whole + 1
    }
}

/// Whether `r` is the square root of `n`, rounded down.
pub open spec fn is_floor_sqrt(n: nat, r: nat) -> bool {
    r * r <= n < (r + 1) * (r + 1)
}

/// The square root of `n`, rounded down.
pub open spec fn floor_sqrt(n: nat) -> nat {
    choose|r: nat| is_floor_sqrt(n, r)
}

proof fn floor_sqrt_witness(n: nat) -> (r: nat)
    ensures
        is_floor_sqrt(n, r),
    decreases n,
{
    if n == 0 {
        assert(is_floor_sqrt(0, 0)) by (nonlinear_arith);
        0
    } else {
        let r = floor_sqrt_witness((n - 1) as nat);
        let s = r + 1;
        if s * s <= n {
            assert(s * s < (s + 1) * (s + 1)) by (nonlinear_arith);
            s
        } else {
            r
        }
    }
}

/// Every natural number has a rounded-down square root.
pub proof fn lemma_floor_sqrt_exists(n: nat)
    ensures
        is_floor_sqrt(n, floor_sqrt(n)),
{
    let r = floor_sqrt_witness(n);
}

/// A natural number has only one rounded-down square root.
pub proof fn lemma_floor_sqrt_unique(n: nat, r: nat)
    requires
        is_floor_sqrt(n, r),
    ensures
        floor_sqrt(n) == r,
{
    let s = floor_sqrt(n);
    assert(r == s) by (nonlinear_arith)
        requires
            r * r <= n < (r + 1) * (r + 1),
            s * s <= n < (s + 1) * (s + 1),
    ;
}

/// The square root of `n`, rounded down.
pub fn integer_sqrt(n: usize) -> (r: usize)
    ensures
        r == floor_sqrt(n as nat),
        is_floor_sqrt(n as nat, r as nat),
{
    let mut lo: u64 = 0;
    let mut hi: u64 = 0x1_0000_0000;
    assert(0x1_0000_0000 * 0x1_0000_0000 > u64::MAX) by (nonlinear_arith);
    while hi - lo > 1
        invariant
            lo < hi <= 0x1_0000_0000,
            lo * lo <= n < hi * hi,
        decreases hi - lo,
    {
        let mid: u64 = lo + (hi - lo) / 2;
        assert(mid * mid <= u64::MAX) by (nonlinear_arith)
            requires
                mid < 0x1_0000_0000,
        ;
        if mid * mid <= n as u64 {
            lo = mid;
        } else {
            hi = mid;
        }
    }
    proof {
        assert(lo <= n) by (nonlinear_arith)
            requires
                lo * lo <= n,
                lo >= 0,
        ;
        lemma_floor_sqrt_unique(n as nat, lo as nat);
    }
    lo as usize
}

/// The number of pixels that a payload of `n` bytes takes: one for the
/// length header, then one for every four bytes, the last group rounded up
/// to a whole pixel.
pub open spec fn pixel_count(n: nat) -> nat {
    (1 + ceil_div(n as int, 4)) as nat
}

/// The width of the grid for a payload of `n` bytes: the square root of the
/// pixel count, rounded down. It is never below 1.
pub open spec fn width_for(n: nat) -> nat {
    floor_sqrt(pixel_count(n))
}

/// The height of the grid for a payload of `n` bytes: as many rows of
/// `width_for(n)` pixels as it takes to hold the pixel count.
pub open spec fn height_for(n: nat) -> nat {
    ceil_div(pixel_count(n) as int, width_for(n) as int) as nat
}

/// The grid for `n` bytes is at least one pixel wide, has room for every
/// pixel that the payload takes, has no row that is wholly unused, and is
/// roughly square: at least as high as wide, and higher by two rows at most.
pub proof fn lemma_grid_shape(n: nat)
    ensures
        pixel_count(n) >= 1,
        n <= 4 * (pixel_count(n) - 1) < n + 4,
        1 <= width_for(n) <= pixel_count(n),
        1 <= height_for(n) <= pixel_count(n),
        width_for(n) * width_for(n) <= pixel_count(n),
        pixel_count(n) <= width_for(n) * height_for(n) < pixel_count(n) + width_for(n),
        width_for(n) <= height_for(n) <= width_for(n) + 2,
{
    let pc = pixel_count(n);
    let w = width_for(n);
    let h = ceil_div(pc as int, w as int);
    lemma_ceil_div_is_least(n as int, 4);
    lemma_floor_sqrt_exists(pc);
    assert(w >= 1) by (nonlinear_arith)
        requires
            pc >= 1,
            pc < (w + 1) * (w + 1),
    ;
    assert(w <= pc) by (nonlinear_arith)
        requires
            w * w <= pc,
            w >= 1,
    ;
    lemma_ceil_div_is_least(pc as int, w as int);
    assert(1 <= h <= pc && w * h == h * w && (h - 1) * w == h * w - w) by (nonlinear_arith)
        requires
            w >= 1,
            pc >= 1,
            h * w >= pc,
            (h - 1) * w < pc,
    ;
    assert(w <= h <= w + 2) by (nonlinear_arith)
        requires
            w >= 1,
            w * w <= pc < (w + 1) * (w + 1),
            (h - 1) * w < pc <= h * w,
    ;
}

/// The sizing rule fixes the grid: `width` and `height` are the dimensions
/// for `n` bytes as soon as `width` is the rounded-down square root of the
/// pixel count and `height` is the least number of such rows that holds it.
pub proof fn lemma_dimensions_are(n: nat, width: nat, height: nat)
    requires
        is_floor_sqrt(pixel_count(n), width),
        is_ceil_div(pixel_count(n) as int, width as int, height as int),
    ensures
        width_for(n) == width,
        height_for(n) == height,
{
    lemma_floor_sqrt_unique(pixel_count(n), width);
    lemma_ceil_div_unique(pixel_count(n) as int, width as int, height as int);
}

/// The dimensions `(width, height)` of the grid for a payload of `n` bytes.
pub fn grid_dimensions(n: usize) -> (d: (usize, usize))
    ensures
        d.0 == width_for(n as nat),
        d.1 == height_for(n as nat),
        is_floor_sqrt(pixel_count(n as nat), d.0 as nat),
        is_ceil_div(pixel_count(n as nat) as int, d.0 as int, d.1 as int),
{
    proof {
        lemma_grid_shape(n as nat);
    }
    let pixels: usize = 1 + divide_rounding_up(n, 4);
    let width: usize = integer_sqrt(pixels);
    let height: usize = divide_rounding_up(pixels, width);
    (width, height)
}

/// The coordinates `(x, y)` of the pixel that stands at `idx` when the rows
/// of a grid `width` pixels wide are laid end to end.
pub open spec fn xy_of(idx: int, width: int) -> (int, int) {
    (idx % width, idx / width)
}

/// The coordinates `(x, y)` of the pixel at linear index `idx` in a grid
/// that is `width` pixels wide.
pub fn linear_to_xy(idx: usize, width: usize) -> (xy: (usize, usize))
    requires
        width > 0,
    ensures
        (xy.0 as int, xy.1 as int) == xy_of(idx as int, width as int),
{
    (idx % width, idx / width)
}

/// The linear index of the pixel at `(x, y)` in a grid `width` pixels wide.
pub open spec fn linear_index(x: int, y: int, width: int) -> int {
    y * width + x
}

/// Row-major order: the pixel at linear index `idx` of a grid of `width` by
/// `height` pixels lies inside the grid, and its linear index is `idx`.
pub proof fn lemma_xy_of(idx: int, width: int, height: int)
    requires
        width > 0,
        0 <= idx < width * height,
    ensures
        0 <= xy_of(idx, width).0 < width,
        0 <= xy_of(idx, width).1 < height,
        linear_index(xy_of(idx, width).0, xy_of(idx, width).1, width) == idx,
{
    let x = idx % width;
    let y = idx / width;
    vstd::arithmetic::div_mod::lemma_fundamental_div_mod(idx, width);
    assert(width * y == y * width) by (nonlinear_arith);
    assert(0 <= y < height) by (nonlinear_arith)
        requires
            width > 0,
            0 <= x < width,
            0 <= y * width + x < width * height,
    ;
}

/// The pixel at `(x, y)` is the only one with its linear index.
pub proof fn lemma_linear_index(x: int, y: int, width: int)
    requires
        0 <= x < width,
    ensures
        xy_of(linear_index(x, y, width), width) == (x, y),
{
    let idx = y * width + x;
    vstd::arithmetic::div_mod::lemma_fundamental_div_mod(idx, width);
    let x0 = idx % width;
    let y0 = idx / width;
    assert(y == y0) by (nonlinear_arith)
        requires
            0 <= x < width,
            0 <= x0 < width,
            y * width + x == width * y0 + x0,
    ;
    assert(y0 * width == width * y0) by (nonlinear_arith);
}

} // verus!
