//! The Gaussian blur, approximated by three passes of a box blur.

use vstd::prelude::*;
use crate::apply::{lemma_row_done, lemma_write_step};
use crate::filters::maps_into;
use crate::pixel::{ColorChannel, Rgba, is_bytes, pack_pixel, spec_pack, spec_unpack, unpack_pixel};
use crate::surface::{Surface, SurfaceView, spec_min};

verus! {

/// Channel `k` of `c`: red, green, blue, then alpha.
pub open spec fn channel_of(c: Rgba, k: int) -> int {
    if k == 0 {
        c.r as int
    } else if k == 1 {
        c.g as int
    } else if k == 2 {
        c.b as int
    } else {
        c.a as int
    }
}

/// The sum of channel `k` of `f(j)` for `j` in `lo..hi`.
pub open spec fn line_sum(f: spec_fn(int) -> Rgba, k: int, lo: int, hi: int) -> int
    decreases hi - lo,
{
    if hi <= lo {
        0
    } else {
        line_sum(f, k, lo, hi - 1) + channel_of(f(hi - 1), k)
    }
}

/// First position of the window of a box of size `n` that writes position `o`.
pub open spec fn window_lo(o: int, n: int) -> int {
    if o + n / 2 - n + 1 < 0 {
        0
    } else {
        o + n / 2 - n + 1
    }
}

/// End of that window, within a line of `len` positions.
pub open spec fn window_hi(o: int, n: int, len: int) -> int {
    if o + n / 2 + 1 > len {
        len
    } else {
        o + n / 2 + 1
    }
}

/// Position `o` of the box blur of size `n` of the line `f` of `len`
/// positions: the sums of the window, each divided by `n`.
pub open spec fn spec_box_value(f: spec_fn(int) -> Rgba, len: int, n: int, o: int) -> Rgba {
    let lo = window_lo(o, n);
    let hi = window_hi(o, n, len);
    Rgba {
        r: (line_sum(f, 0, lo, hi) / n) as u32,
        g: (line_sum(f, 1, lo, hi) / n) as u32,
        b: (line_sum(f, 2, lo, hi) / n) as u32,
        a: (line_sum(f, 3, lo, hi) / n) as u32,
    }
}

/// Every row of the image `img`, `w` wide, blurred by a box of size `n`.
pub open spec fn spec_blur_rows(img: spec_fn(int, int) -> Rgba, w: int, n: int) -> spec_fn(int, int) -> Rgba {
    |x: int, y: int| spec_box_value(|j: int| img(j, y), w, n, x)
}

/// Every column of the image `img`, `h` high, blurred by a box of size `n`.
pub open spec fn spec_blur_cols(img: spec_fn(int, int) -> Rgba, h: int, n: int) -> spec_fn(int, int) -> Rgba {
    |x: int, y: int| spec_box_value(|j: int| img(x, j), h, n, y)
}

/// One box blur: the rows by `kw`, then the columns by `kh`; a size of zero
/// leaves that direction alone.
pub open spec fn spec_box_blur(
    img: spec_fn(int, int) -> Rgba,
    w: int,
    h: int,
    kw: int,
    kh: int,
) -> spec_fn(int, int) -> Rgba {
    let rows = if kw > 0 {
        spec_blur_rows(img, w, kw)
    } else {
        img
    };
    if kh > 0 {
        spec_blur_cols(rows, h, kh)
    } else {
        rows
    }
}

/// Three box blurs in a row.
pub open spec fn spec_triple_box_blur(
    img: spec_fn(int, int) -> Rgba,
    w: int,
    h: int,
    kw: int,
    kh: int,
) -> spec_fn(int, int) -> Rgba {
    spec_box_blur(spec_box_blur(spec_box_blur(img, w, h, kw, kh), w, h, kw, kh), w, h, kw, kh)
}

/// The largest kernel size that a blur uses.
pub const MAX_KERNEL_SIZE: u32 = 512;

/// `floor(sigma * 1.8799712059732503 + 0.5)` for `sigma` in fixed point
/// (millionths), at least 0 and at most `u32::MAX`.
pub open spec fn spec_kernel_size(std_deviation: int) -> int {
    let v = std_deviation * 18799712059732503 + 5_000_000_000_000_000_000_000;
    if v < 0 {
        0
    } else if v / 10_000_000_000_000_000_000_000 > u32::MAX {
        u32::MAX as int
    } else {
        v / 10_000_000_000_000_000_000_000
    }
}

/// The box size that approximates a Gaussian of standard deviation
/// `std_deviation` (fixed point, millionths).
pub fn calc_kernel_size(std_deviation: i64) -> (r: u32)
    ensures
        r == spec_kernel_size(std_deviation as int),
{
    let v: i128 = std_deviation as i128 * 18799712059732503i128 + 5_000_000_000_000_000_000_000i128;
    if v < 0 {
        0
    } else {
        let q = v as u128 / 10_000_000_000_000_000_000_000u128;
        if q > u32::MAX as u128 {
            u32::MAX
        } else {
            q as u32
        }
    }
}

/// A sum can also be taken apart at its first term.
proof fn lemma_line_sum_front(f: spec_fn(int) -> Rgba, k: int, lo: int, hi: int)
    requires
        lo < hi,
    ensures
        line_sum(f, k, lo, hi) == channel_of(f(lo), k) + line_sum(f, k, lo + 1, hi),
    decreases hi - lo,
{
    if lo + 1 < hi {
        lemma_line_sum_front(f, k, lo, hi - 1);
    } else {
        assert(line_sum(f, k, lo, lo) == 0);
        assert(line_sum(f, k, lo + 1, hi) == 0);
    }
}

/// A sum of bytes over `hi - lo` pixels is at most `255 * (hi - lo)`.
pub(crate) proof fn lemma_line_sum_bound(f: spec_fn(int) -> Rgba, k: int, lo: int, hi: int)
    requires
        lo <= hi,
        forall|j: int| lo <= j < hi ==> is_bytes(#[trigger] f(j)),
    ensures
        0 <= line_sum(f, k, lo, hi) <= 255 * (hi - lo),
    decreases hi - lo,
{
    if lo < hi {
        lemma_line_sum_bound(f, k, lo, hi - 1);
    }
}

/// Sums over two lines that agree on the range are equal.
proof fn lemma_line_sum_ext(f: spec_fn(int) -> Rgba, g: spec_fn(int) -> Rgba, k: int, lo: int, hi: int)
    requires
        forall|j: int| lo <= j < hi ==> #[trigger] f(j) == g(j),
    ensures
        line_sum(f, k, lo, hi) == line_sum(g, k, lo, hi),
    decreases hi - lo,
{
    if lo < hi {
        lemma_line_sum_ext(f, g, k, lo, hi - 1);
    }
}

/// Box values of two lines that agree on the whole line are equal.
pub proof fn lemma_box_value_ext(f: spec_fn(int) -> Rgba, g: spec_fn(int) -> Rgba, len: int, n: int, o: int)
    requires
        forall|j: int| 0 <= j < len ==> #[trigger] f(j) == g(j),
    ensures
        spec_box_value(f, len, n, o) == spec_box_value(g, len, n, o),
{
    let lo = window_lo(o, n);
    let hi = window_hi(o, n, len);
    lemma_line_sum_ext(f, g, 0, lo, hi);
    lemma_line_sum_ext(f, g, 1, lo, hi);
    lemma_line_sum_ext(f, g, 2, lo, hi);
    lemma_line_sum_ext(f, g, 3, lo, hi);
}

/// Sum of `n` values of at most 255, divided by `n`, is a byte.
proof fn lemma_average_byte(sum: int, n: int)
    requires
        0 <= sum <= 255 * n,
        n >= 1,
    ensures
        0 <= sum / n <= 255,
{
    vstd::arithmetic::div_mod::lemma_div_is_ordered(sum, 255 * n, n);
    vstd::arithmetic::div_mod::lemma_div_multiples_vanish(255, n);
    vstd::arithmetic::div_mod::lemma_div_pos_is_pos(sum, n);
}

/// The running sums of the blur: the window `lo..hi` of `line`, for every channel.
pub open spec fn sums_are(line: Seq<Rgba>, sums: (u32, u32, u32, u32), lo: int, hi: int) -> bool {
    &&& sums.0 == line_sum(|j: int| line[j], 0, lo, hi)
    &&& sums.1 == line_sum(|j: int| line[j], 1, lo, hi)
    &&& sums.2 == line_sum(|j: int| line[j], 2, lo, hi)
    &&& sums.3 == line_sum(|j: int| line[j], 3, lo, hi)
}

/// One line blurred by a box of size `n`, with a running sum over a sliding
/// window: while the window fills (`x < n`) pixels only enter it, in the
/// steady state one enters as one leaves, and past the end (`x >= len`)
/// pixels only leave. Position `x - n / 2` is written once it lies in the line.
pub fn box_blur_line(line: &Vec<Rgba>, n: usize) -> (out: Vec<Rgba>)
    requires
        1 <= n <= line.len(),
        n <= MAX_KERNEL_SIZE,
        line.len() <= u32::MAX,
        forall|j: int| 0 <= j < line.len() ==> is_bytes(#[trigger] line@[j]),
    ensures
        out.len() == line.len(),
        forall|o: int|
            0 <= o < line.len() ==> #[trigger] out@[o] == spec_box_value(
                |j: int| line@[j],
                line.len() as int,
                n as int,
                o,
            ),
        forall|o: int| 0 <= o < line.len() ==> is_bytes(#[trigger] out@[o]),
{
    let len = line.len() as u64;
    let n = n as u64;
    let half = n / 2;
    let mut out: Vec<Rgba> = Vec::new();
    let mut sr: u32 = 0;
    let mut sg: u32 = 0;
    let mut sb: u32 = 0;
    let mut sa: u32 = 0;
    let mut x: u64 = 0;
    while x < len + n
        invariant
            len == line.len(),
            len <= u32::MAX,
            1 <= n <= len,
            n <= MAX_KERNEL_SIZE,
            half == n / 2,
            x <= len + n,
            forall|j: int| 0 <= j < line.len() ==> is_bytes(#[trigger] line@[j]),
            sums_are(
                line@,
                (sr, sg, sb, sa),
                if x < n {
                    0
                } else {
                    x - n
                },
                if x < len {
                    x as int
                } else {
                    len as int
                },
            ),
            out.len() == if x < half {
                0
            } else if x - half < len {
                x - half
            } else {
                len as int
            },
            forall|o: int|
                0 <= o < out.len() ==> #[trigger] out@[o] == spec_box_value(
                    |j: int| line@[j],
                    len as int,
                    n as int,
                    o,
                ),
            forall|o: int| 0 <= o < out.len() ==> is_bytes(#[trigger] out@[o]),
        decreases len + n - x,
    {
        let ghost f = |j: int| line@[j];
        let ghost lo: int = if x < n {
            0
        } else {
            x - n
        };
        let ghost hi: int = if x < len {
            x as int
        } else {
            len as int
        };
        proof {
            lemma_line_sum_bound(f, 0, lo, hi);
            lemma_line_sum_bound(f, 1, lo, hi);
            lemma_line_sum_bound(f, 2, lo, hi);
            lemma_line_sum_bound(f, 3, lo, hi);
        }
        if x >= n {
            let c = line[(x - n) as usize];
            proof {
                lemma_line_sum_front(f, 0, lo, hi);
                lemma_line_sum_front(f, 1, lo, hi);
                lemma_line_sum_front(f, 2, lo, hi);
                lemma_line_sum_front(f, 3, lo, hi);
                lemma_line_sum_bound(f, 0, lo + 1, hi);
                lemma_line_sum_bound(f, 1, lo + 1, hi);
                lemma_line_sum_bound(f, 2, lo + 1, hi);
                lemma_line_sum_bound(f, 3, lo + 1, hi);
            }
            sr = sr - c.r;
            sg = sg - c.g;
            sb = sb - c.b;
            sa = sa - c.a;
        }
        let ghost lo2: int = if x + 1 < n {
            0
        } else {
            x + 1 - n
        };
        assert(sums_are(line@, (sr, sg, sb, sa), lo2, hi));
        if x < len {
            let c = line[x as usize];
            proof {
                lemma_line_sum_bound(f, 0, lo2, hi);
                lemma_line_sum_bound(f, 1, lo2, hi);
                lemma_line_sum_bound(f, 2, lo2, hi);
                lemma_line_sum_bound(f, 3, lo2, hi);
            }
            sr = sr + c.r;
            sg = sg + c.g;
            sb = sb + c.b;
            sa = sa + c.a;
        }
        let ghost hi2: int = if x + 1 < len {
            x + 1
        } else {
            len as int
        };
        assert(sums_are(line@, (sr, sg, sb, sa), lo2, hi2));
        if x >= half && x - half < len {
            proof {
                lemma_line_sum_bound(f, 0, lo2, hi2);
                lemma_line_sum_bound(f, 1, lo2, hi2);
                lemma_line_sum_bound(f, 2, lo2, hi2);
                lemma_line_sum_bound(f, 3, lo2, hi2);
                lemma_average_byte(sr as int, n as int);
                lemma_average_byte(sg as int, n as int);
                lemma_average_byte(sb as int, n as int);
                lemma_average_byte(sa as int, n as int);
            }
            let k = n as u32;
            let avg = Rgba { r: sr / k, g: sg / k, b: sb / k, a: sa / k };
            assert(window_lo(x - half, n as int) == lo2);
            assert(window_hi(x - half, n as int, len as int) == hi2);
            out.push(avg);
        }
        x = x + 1;
    }
    out
}

/// The image held row by row in `img`, `w` pixels wide.
pub open spec fn image_fn(img: Seq<Rgba>, w: int) -> spec_fn(int, int) -> Rgba {
    |x: int, y: int| img[y * w + x]
}

/// `img` holds, row by row, the `w` by `h` image `f`, in bytes.
pub open spec fn holds_image(img: Seq<Rgba>, w: int, h: int, f: spec_fn(int, int) -> Rgba) -> bool {
    &&& img.len() == w * h
    &&& forall|i: int| 0 <= i < img.len() ==> is_bytes(#[trigger] img[i])
    &&& forall|x: int, y: int| 0 <= x < w && 0 <= y < h ==> #[trigger] img[y * w + x] == f(x, y)
}

/// Pixel `(x, y)` of a `w` by `h` image held row by row lies inside it.
proof fn lemma_flat_index(w: int, h: int, x: int, y: int)
    requires
        0 <= x < w,
        0 <= y < h,
    ensures
        0 <= y * w + x < w * h,
        y * w + x < (y + 1) * w,
        (y + 1) * w == y * w + w,
{
    assert(0 <= y * w && (y + 1) * w == y * w + w && y * w + w <= w * h) by (nonlinear_arith)
        requires
            0 <= x < w,
            0 <= y < h,
    ;
}

/// Pixels of rows before `y` lie before row `y`.
proof fn lemma_flat_before(w: int, xx: int, yy: int, y: int)
    requires
        0 <= xx < w,
        0 <= yy < y,
    ensures
        yy * w + xx < y * w,
        0 <= yy * w + xx,
{
    assert(yy * w + w <= y * w && 0 <= yy * w) by (nonlinear_arith)
        requires
            0 <= xx < w,
            0 <= yy < y,
    ;
}

/// Every row of the image blurred by a box of size `n`.
fn blur_image_rows(img: &Vec<Rgba>, w: u32, h: u32, n: u32) -> (out: Vec<Rgba>)
    requires
        holds_image(img@, w as int, h as int, image_fn(img@, w as int)),
        1 <= n <= w,
        n <= MAX_KERNEL_SIZE,
    ensures
        holds_image(out@, w as int, h as int, spec_blur_rows(image_fn(img@, w as int), w as int, n as int)),
{
    let ghost g = spec_blur_rows(image_fn(img@, w as int), w as int, n as int);
    let total = img.len();
    let mut out: Vec<Rgba> = Vec::new();
    let mut y: u32 = 0;
    while y < h
        invariant
            holds_image(img@, w as int, h as int, image_fn(img@, w as int)),
            1 <= n <= w,
            n <= MAX_KERNEL_SIZE,
            y <= h,
            total == img@.len(),
            g == spec_blur_rows(image_fn(img@, w as int), w as int, n as int),
            out.len() == y * w,
            forall|i: int| 0 <= i < out.len() ==> is_bytes(#[trigger] out@[i]),
            forall|xx: int, yy: int| 0 <= xx < w && 0 <= yy < y ==> #[trigger] out@[yy * w + xx] == g(xx, yy),
        decreases h - y,
    {
        let mut line: Vec<Rgba> = Vec::new();
        let mut x: u32 = 0;
        while x < w
            invariant
                holds_image(img@, w as int, h as int, image_fn(img@, w as int)),
                y < h,
                x <= w,
                total == img@.len(),
                line.len() == x,
                forall|j: int| 0 <= j < x ==> #[trigger] line@[j] == img@[y * w + j],
                forall|j: int| 0 <= j < x ==> is_bytes(#[trigger] line@[j]),
            decreases w - x,
        {
            proof {
                lemma_flat_index(w as int, h as int, x as int, y as int);
            }
            line.push(img[(y as usize) * (w as usize) + x as usize]);
            x = x + 1;
        }
        let blurred = box_blur_line(&line, n as usize);
        let ghost base = out@;
        let mut x: u32 = 0;
        while x < w
            invariant
                holds_image(img@, w as int, h as int, image_fn(img@, w as int)),
                1 <= n <= w,
                y < h,
                x <= w,
                line.len() == w,
                blurred.len() == w,
                forall|j: int| 0 <= j < w ==> #[trigger] line@[j] == img@[y * w + j],
                forall|o: int|
                    0 <= o < w ==> #[trigger] blurred@[o] == spec_box_value(
                        |j: int| line@[j],
                        w as int,
                        n as int,
                        o,
                    ),
                forall|o: int| 0 <= o < w ==> is_bytes(#[trigger] blurred@[o]),
                g == spec_blur_rows(image_fn(img@, w as int), w as int, n as int),
                base.len() == y * w,
                out.len() == y * w + x,
                forall|i: int| 0 <= i < base.len() ==> #[trigger] out@[i] == base[i],
                forall|i: int| 0 <= i < out.len() ==> is_bytes(#[trigger] out@[i]),
                forall|xx: int| 0 <= xx < x ==> #[trigger] out@[y * w + xx] == g(xx, y as int),
            decreases w - x,
        {
            proof {
                let f = image_fn(img@, w as int);
                let lf = |j: int| line@[j];
                let rf = |j: int| f(j, y as int);
                assert forall|j: int| 0 <= j < w implies #[trigger] lf(j) == rf(j) by {
                    lemma_flat_index(w as int, h as int, j, y as int);
                }
                lemma_box_value_ext(lf, rf, w as int, n as int, x as int);
            }
            out.push(blurred[x as usize]);
            x = x + 1;
        }
        proof {
            lemma_flat_index(w as int, h as int, 0, y as int);
            assert forall|xx: int, yy: int| 0 <= xx < w && 0 <= yy < y + 1 implies #[trigger] out@[yy * w + xx] == g(xx, yy) by {
                if yy < y {
                    lemma_flat_before(w as int, xx, yy, y as int);
                }
            }
        }
        y = y + 1;
    }
    assert(h * w == w * h) by (nonlinear_arith);
    out
}

/// Every column of the image blurred by a box of size `n`.
fn blur_image_cols(img: &Vec<Rgba>, w: u32, h: u32, n: u32) -> (out: Vec<Rgba>)
    requires
        holds_image(img@, w as int, h as int, image_fn(img@, w as int)),
        1 <= n <= h,
        n <= MAX_KERNEL_SIZE,
    ensures
        holds_image(out@, w as int, h as int, spec_blur_cols(image_fn(img@, w as int), h as int, n as int)),
{
    let ghost g = spec_blur_cols(image_fn(img@, w as int), h as int, n as int);
    let total = img.len();
    let mut cols: Vec<Vec<Rgba>> = Vec::new();
    let mut x: u32 = 0;
    while x < w
        invariant
            holds_image(img@, w as int, h as int, image_fn(img@, w as int)),
            1 <= n <= h,
            n <= MAX_KERNEL_SIZE,
            x <= w,
            total == img@.len(),
            g == spec_blur_cols(image_fn(img@, w as int), h as int, n as int),
            cols.len() == x,
            forall|xx: int| 0 <= xx < x ==> (#[trigger] cols@[xx]).len() == h,
            forall|xx: int, yy: int|
                0 <= xx < x && 0 <= yy < h ==> #[trigger] cols@[xx]@[yy] == g(xx, yy) && is_bytes(
                    cols@[xx]@[yy],
                ),
        decreases w - x,
    {
        let mut line: Vec<Rgba> = Vec::new();
        let mut y: u32 = 0;
        while y < h
            invariant
                holds_image(img@, w as int, h as int, image_fn(img@, w as int)),
                x < w,
                y <= h,
                total == img@.len(),
                line.len() == y,
                forall|j: int| 0 <= j < y ==> #[trigger] line@[j] == img@[j * w + x],
                forall|j: int| 0 <= j < y ==> is_bytes(#[trigger] line@[j]),
            decreases h - y,
        {
            proof {
                lemma_flat_index(w as int, h as int, x as int, y as int);
            }
            line.push(img[(y as usize) * (w as usize) + x as usize]);
            y = y + 1;
        }
        let blurred = box_blur_line(&line, n as usize);
        proof {
            let f = image_fn(img@, w as int);
            assert forall|yy: int| 0 <= yy < h implies #[trigger] blurred@[yy] == g(x as int, yy) by {
                let lf = |j: int| line@[j];
                let rf = |j: int| f(x as int, j);
                assert forall|j: int| 0 <= j < h implies #[trigger] lf(j) == rf(j) by {
                    lemma_flat_index(w as int, h as int, x as int, j);
                }
                lemma_box_value_ext(lf, rf, h as int, n as int, yy);
            }
        }
        cols.push(blurred);
        x = x + 1;
    }
    let mut out: Vec<Rgba> = Vec::new();
    let mut y: u32 = 0;
    while y < h
        invariant
            y <= h,
            cols.len() == w,
            forall|xx: int| 0 <= xx < w ==> (#[trigger] cols@[xx]).len() == h,
            forall|xx: int, yy: int|
                0 <= xx < w && 0 <= yy < h ==> #[trigger] cols@[xx]@[yy] == g(xx, yy) && is_bytes(
                    cols@[xx]@[yy],
                ),
            out.len() == y * w,
            forall|i: int| 0 <= i < out.len() ==> is_bytes(#[trigger] out@[i]),
            forall|xx: int, yy: int| 0 <= xx < w && 0 <= yy < y ==> #[trigger] out@[yy * w + xx] == g(xx, yy),
        decreases h - y,
    {
        let ghost base = out@;
        let mut x: u32 = 0;
        while x < w
            invariant
                y < h,
                x <= w,
                cols.len() == w,
                forall|xx: int| 0 <= xx < w ==> (#[trigger] cols@[xx]).len() == h,
                forall|xx: int, yy: int|
                    0 <= xx < w && 0 <= yy < h ==> #[trigger] cols@[xx]@[yy] == g(xx, yy) && is_bytes(
                        cols@[xx]@[yy],
                    ),
                base.len() == y * w,
                out.len() == y * w + x,
                forall|i: int| 0 <= i < base.len() ==> #[trigger] out@[i] == base[i],
                forall|i: int| 0 <= i < out.len() ==> is_bytes(#[trigger] out@[i]),
                forall|xx: int| 0 <= xx < x ==> #[trigger] out@[y * w + xx] == g(xx, y as int),
            decreases w - x,
        {
            assert(cols@[x as int]@[y as int] == g(x as int, y as int));
            out.push(cols[x as usize][y as usize]);
            x = x + 1;
        }
        proof {
            assert((y + 1) * w == y * w + w) by (nonlinear_arith);
            assert forall|xx: int, yy: int| 0 <= xx < w && 0 <= yy < y + 1 implies #[trigger] out@[yy * w + xx] == g(xx, yy) by {
                if yy < y {
                    lemma_flat_before(w as int, xx, yy, y as int);
                }
            }
        }
        y = y + 1;
    }
    assert(h * w == w * h) by (nonlinear_arith);
    out
}

/// Box blurs of two images that agree on the `w` by `h` corner agree there.
proof fn lemma_box_blur_ext(
    f: spec_fn(int, int) -> Rgba,
    g: spec_fn(int, int) -> Rgba,
    w: int,
    h: int,
    kw: int,
    kh: int,
)
    requires
        forall|x: int, y: int| 0 <= x < w && 0 <= y < h ==> #[trigger] f(x, y) == g(x, y),
    ensures
        forall|x: int, y: int|
            0 <= x < w && 0 <= y < h ==> #[trigger] spec_box_blur(f, w, h, kw, kh)(x, y)
                == spec_box_blur(g, w, h, kw, kh)(x, y),
{
    let rf = if kw > 0 {
        spec_blur_rows(f, w, kw)
    } else {
        f
    };
    let rg = if kw > 0 {
        spec_blur_rows(g, w, kw)
    } else {
        g
    };
    assert forall|x: int, y: int| 0 <= x < w && 0 <= y < h implies #[trigger] rf(x, y) == rg(x, y) by {
        if kw > 0 {
            let a = |j: int| f(j, y);
            let b = |j: int| g(j, y);
            assert forall|j: int| 0 <= j < w implies #[trigger] a(j) == b(j) by {}
            lemma_box_value_ext(a, b, w, kw, x);
        }
    }
    assert forall|x: int, y: int| 0 <= x < w && 0 <= y < h implies #[trigger] spec_box_blur(
        f,
        w,
        h,
        kw,
        kh,
    )(x, y) == spec_box_blur(g, w, h, kw, kh)(x, y) by {
        if kh > 0 {
            let a = |j: int| rf(x, j);
            let b = |j: int| rg(x, j);
            assert forall|j: int| 0 <= j < h implies #[trigger] a(j) == b(j) by {}
            lemma_box_value_ext(a, b, h, kh, y);
        }
    }
}

/// One box blur of the image, rows first.
fn box_blur_image(img: Vec<Rgba>, w: u32, h: u32, kw: u32, kh: u32) -> (out: Vec<Rgba>)
    requires
        holds_image(img@, w as int, h as int, image_fn(img@, w as int)),
        kw <= w,
        kh <= h,
        kw <= MAX_KERNEL_SIZE,
        kh <= MAX_KERNEL_SIZE,
    ensures
        holds_image(
            out@,
            w as int,
            h as int,
            spec_box_blur(image_fn(img@, w as int), w as int, h as int, kw as int, kh as int),
        ),
{
    let ghost f = image_fn(img@, w as int);
    let rows = if kw > 0 {
        blur_image_rows(&img, w, h, kw)
    } else {
        img
    };
    let ghost rf = if kw > 0 {
        spec_blur_rows(f, w as int, kw as int)
    } else {
        f
    };
    assert(holds_image(rows@, w as int, h as int, rf));
    assert(holds_image(rows@, w as int, h as int, image_fn(rows@, w as int)));
    if kh > 0 {
        let out = blur_image_cols(&rows, w, h, kh);
        proof {
            let a = spec_blur_cols(image_fn(rows@, w as int), h as int, kh as int);
            let b = spec_blur_cols(rf, h as int, kh as int);
            assert forall|x: int, y: int| 0 <= x < w && 0 <= y < h implies #[trigger] a(x, y) == b(x, y) by {
                let p = |j: int| image_fn(rows@, w as int)(x, j);
                let q = |j: int| rf(x, j);
                assert forall|j: int| 0 <= j < h implies #[trigger] p(j) == q(j) by {}
                lemma_box_value_ext(p, q, h as int, kh as int, y);
            }
        }
        out
    } else {
        rows
    }
}

/// The `w` by `h` corner of `s`, row by row.
fn read_pixels(s: &Surface, w: u32, h: u32) -> (r: Vec<u32>)
    requires
        s@.wf(),
        w <= s@.width,
        h <= s@.height,
    ensures
        r.len() == w * h,
        forall|x: int, y: int| 0 <= x < w && 0 <= y < h ==> #[trigger] r@[y * w + x] == s@.at(x, y),
{
    let mut r: Vec<u32> = Vec::new();
    let mut y: u32 = 0;
    while y < h
        invariant
            s@.wf(),
            w <= s@.width,
            h <= s@.height,
            y <= h,
            r.len() == y * w,
            forall|xx: int, yy: int| 0 <= xx < w && 0 <= yy < y ==> #[trigger] r@[yy * w + xx] == s@.at(xx, yy),
        decreases h - y,
    {
        let ghost base = r@;
        let mut x: u32 = 0;
        while x < w
            invariant
                s@.wf(),
                w <= s@.width,
                h <= s@.height,
                y < h,
                x <= w,
                base.len() == y * w,
                r.len() == y * w + x,
                forall|i: int| 0 <= i < base.len() ==> #[trigger] r@[i] == base[i],
                forall|xx: int| 0 <= xx < x ==> #[trigger] r@[y * w + xx] == s@.at(xx, y as int),
            decreases w - x,
        {
            r.push(s.get_pixel(x, y));
            x = x + 1;
        }
        proof {
            assert((y + 1) * w == y * w + w) by (nonlinear_arith);
            assert forall|xx: int, yy: int| 0 <= xx < w && 0 <= yy < y + 1 implies #[trigger] r@[yy * w + xx] == s@.at(xx, yy) by {
                if yy < y {
                    lemma_flat_before(w as int, xx, yy, y as int);
                }
            }
        }
        y = y + 1;
    }
    assert(h * w == w * h) by (nonlinear_arith);
    r
}

/// Writes `px`, row by row, to the `w` by `h` corner of `out`.
fn write_pixels(out: &mut Surface, px: &Vec<u32>, w: u32, h: u32)
    requires
        old(out)@.wf(),
        w <= old(out)@.width,
        h <= old(out)@.height,
        px.len() == w * h,
    ensures
        final(out)@.wf(),
        old(out)@.changed_within(final(out)@, w as int, h as int),
        forall|x: int, y: int| 0 <= x < w && 0 <= y < h ==> #[trigger] final(out)@.at(x, y) == px@[y * w + x],
{
    let ghost old_out = out@;
    let mut y: u32 = 0;
    while y < h
        invariant
            out@.wf(),
            old_out.wf(),
            old_out.same_shape(out@),
            w <= old_out.width,
            h <= old_out.height,
            px.len() == w * h,
            y <= h,
            forall|i: int|
                0 <= i < old_out.buffer.len() && !old_out.covers(w as int, y as int, i)
                    ==> #[trigger] out@.buffer[i] == old_out.buffer[i],
            forall|xx: int, yy: int| 0 <= xx < w && 0 <= yy < y ==> #[trigger] out@.at(xx, yy) == px@[yy * w + xx],
        decreases h - y,
    {
        let mut x: u32 = 0;
        while x < w
            invariant
                out@.wf(),
                old_out.wf(),
                old_out.same_shape(out@),
                w <= old_out.width,
                h <= old_out.height,
                px.len() == w * h,
                y < h,
                x <= w,
                forall|i: int|
                    0 <= i < old_out.buffer.len() && !old_out.covers(w as int, y as int, i)
                        && !old_out.covers_row(x as int, y as int, i) ==> #[trigger] out@.buffer[i]
                        == old_out.buffer[i],
                forall|xx: int, yy: int|
                    (0 <= xx < w && 0 <= yy < y || 0 <= xx < x && yy == y) ==> #[trigger] out@.at(xx, yy)
                        == px@[yy * w + xx],
            decreases w - x,
        {
            proof {
                lemma_flat_index(w as int, h as int, x as int, y as int);
            }
            let p = px[(y as usize) * (w as usize) + x as usize];
            proof {
                lemma_write_step(old_out, out@, w as int, x as int, y as int, p);
            }
            out.set_pixel(x, y, p);
            x = x + 1;
        }
        proof {
            lemma_row_done(old_out, out@, w as int, y as int);
        }
        y = y + 1;
    }
}

/// The channels of every pixel of `px`.
fn unpack_all(px: &Vec<u32>, channel: ColorChannel) -> (r: Vec<Rgba>)
    ensures
        r.len() == px.len(),
        forall|i: int| 0 <= i < px.len() ==> #[trigger] r@[i] == spec_unpack(px@[i], channel),
        forall|i: int| 0 <= i < px.len() ==> is_bytes(#[trigger] r@[i]),
{
    let mut r: Vec<Rgba> = Vec::new();
    let mut i: usize = 0;
    while i < px.len()
        invariant
            i <= px.len(),
            r.len() == i,
            forall|j: int| 0 <= j < i ==> #[trigger] r@[j] == spec_unpack(px@[j], channel),
            forall|j: int| 0 <= j < i ==> is_bytes(#[trigger] r@[j]),
        decreases px.len() - i,
    {
        r.push(unpack_pixel(px[i], channel));
        i = i + 1;
    }
    r
}

/// Every pixel of `img`, packed.
fn pack_all(img: &Vec<Rgba>, channel: ColorChannel) -> (r: Vec<u32>)
    requires
        forall|i: int| 0 <= i < img.len() ==> is_bytes(#[trigger] img@[i]),
    ensures
        r.len() == img.len(),
        forall|i: int| 0 <= i < img.len() ==> #[trigger] r@[i] == spec_pack(img@[i], channel),
{
    let mut r: Vec<u32> = Vec::new();
    let mut i: usize = 0;
    while i < img.len()
        invariant
            i <= img.len(),
            r.len() == i,
            forall|j: int| 0 <= j < img.len() ==> is_bytes(#[trigger] img@[j]),
            forall|j: int| 0 <= j < i ==> #[trigger] r@[j] == spec_pack(img@[j], channel),
        decreases img.len() - i,
    {
        r.push(pack_pixel(img[i], channel));
        i = i + 1;
    }
    r
}

/// The box size used along an axis of `extent` pixels for a standard
/// deviation `std_deviation`: limited to `MAX_KERNEL_SIZE` and to the extent.
pub open spec fn spec_axis_kernel(std_deviation: int, extent: int) -> int {
    spec_min(spec_min(spec_kernel_size(std_deviation), MAX_KERNEL_SIZE as int), extent)
}

/// `new` is `old` with the corner that `old` shares with `input` replaced by
/// three box blurs of `input` of sizes `kw` across and `kh` down, packed in the
/// layout of `old`; nothing else changed.
pub open spec fn blurs_into(input: SurfaceView, old: SurfaceView, new: SurfaceView, kw: int, kh: int) -> bool {
    let w = spec_min(input.width as int, old.width as int);
    let h = spec_min(input.height as int, old.height as int);
    let img = spec_triple_box_blur(|x: int, y: int| input.rgba(x, y), w, h, kw, kh);
    &&& new.wf()
    &&& old.changed_within(new, w, h)
    &&& forall|x: int, y: int|
        0 <= x < w && 0 <= y < h ==> #[trigger] new.at(x, y) == spec_pack(img(x, y), old.channel)
}

/// The box size along an axis of `extent` pixels.
fn axis_kernel(std_deviation: i64, extent: u32) -> (r: u32)
    ensures
        r == spec_axis_kernel(std_deviation as int, extent as int),
        r <= MAX_KERNEL_SIZE,
        r <= extent,
{
    let mut k = calc_kernel_size(std_deviation);
    if k > MAX_KERNEL_SIZE {
        k = MAX_KERNEL_SIZE;
    }
    if k > extent {
        k = extent;
    }
    k
}

/// The image that the packed pixels `px`, `w` to a row, hold under `channel`.
pub open spec fn image_of_pixels(px: Seq<u32>, w: int, channel: ColorChannel) -> spec_fn(int, int) -> Rgba {
    |x: int, y: int| spec_unpack(px[y * w + x], channel)
}

/// Three box blurs of images that agree on the corner agree there.
proof fn lemma_triple_ext(
    f: spec_fn(int, int) -> Rgba,
    g: spec_fn(int, int) -> Rgba,
    w: int,
    h: int,
    kw: int,
    kh: int,
)
    requires
        forall|x: int, y: int| 0 <= x < w && 0 <= y < h ==> #[trigger] f(x, y) == g(x, y),
    ensures
        forall|x: int, y: int|
            0 <= x < w && 0 <= y < h ==> #[trigger] spec_triple_box_blur(f, w, h, kw, kh)(x, y)
                == spec_triple_box_blur(g, w, h, kw, kh)(x, y),
{
    lemma_box_blur_ext(f, g, w, h, kw, kh);
    let f1 = spec_box_blur(f, w, h, kw, kh);
    let g1 = spec_box_blur(g, w, h, kw, kh);
    lemma_box_blur_ext(f1, g1, w, h, kw, kh);
    let f2 = spec_box_blur(f1, w, h, kw, kh);
    let g2 = spec_box_blur(g1, w, h, kw, kh);
    lemma_box_blur_ext(f2, g2, w, h, kw, kh);
}

/// Three box blurs of the image that `px` holds, packed again.
fn blur_pixels(
    px: &Vec<u32>,
    in_channel: ColorChannel,
    out_channel: ColorChannel,
    w: u32,
    h: u32,
    kw: u32,
    kh: u32,
) -> (r: Vec<u32>)
    requires
        px.len() == w * h,
        kw <= w,
        kh <= h,
        kw <= MAX_KERNEL_SIZE,
        kh <= MAX_KERNEL_SIZE,
    ensures
        r.len() == w * h,
        forall|x: int, y: int|
            0 <= x < w && 0 <= y < h ==> #[trigger] r@[y * w + x] == spec_pack(
                spec_triple_box_blur(
                    image_of_pixels(px@, w as int, in_channel),
                    w as int,
                    h as int,
                    kw as int,
                    kh as int,
                )(x, y),
                out_channel,
            ),
{
    let img = unpack_all(px, in_channel);
    let ghost f = image_of_pixels(px@, w as int, in_channel);
    assert(holds_image(img@, w as int, h as int, f)) by {
        assert forall|x: int, y: int| 0 <= x < w && 0 <= y < h implies #[trigger] img@[y * w + x] == f(x, y) by {
            lemma_flat_index(w as int, h as int, x, y);
        }
    }
    let ghost f0 = image_fn(img@, w as int);
    let img1 = box_blur_image(img, w, h, kw, kh);
    let ghost f1 = image_fn(img1@, w as int);
    let img2 = box_blur_image(img1, w, h, kw, kh);
    let ghost f2 = image_fn(img2@, w as int);
    let img3 = box_blur_image(img2, w, h, kw, kh);
    proof {
        let (wi, hi, kwi, khi) = (w as int, h as int, kw as int, kh as int);
        lemma_box_blur_ext(f, f0, wi, hi, kwi, khi);
        let b1 = spec_box_blur(f, wi, hi, kwi, khi);
        assert forall|x: int, y: int| 0 <= x < wi && 0 <= y < hi implies #[trigger] b1(x, y) == f1(x, y) by {}
        lemma_box_blur_ext(b1, f1, wi, hi, kwi, khi);
        let b2 = spec_box_blur(b1, wi, hi, kwi, khi);
        assert forall|x: int, y: int| 0 <= x < wi && 0 <= y < hi implies #[trigger] b2(x, y) == f2(x, y) by {}
        lemma_box_blur_ext(b2, f2, wi, hi, kwi, khi);
    }
    let r = pack_all(&img3, out_channel);
    proof {
        assert forall|x: int, y: int| 0 <= x < w && 0 <= y < h implies #[trigger] r@[y * w + x] == spec_pack(
            spec_triple_box_blur(f, w as int, h as int, kw as int, kh as int)(x, y),
            out_channel,
        ) by {
            lemma_flat_index(w as int, h as int, x, y);
        }
    }
    r
}

impl Surface {
    /// Blurs `input` into `output` by three box blurs that approximate a
    /// Gaussian with standard deviations `std_deviation_x` and
    /// `std_deviation_y` (fixed point, millionths). When both box sizes are
    /// zero the pixels are copied unchanged.
    pub fn gaussian_blur(input: &Surface, output: &mut Surface, std_deviation_x: i64, std_deviation_y: i64)
        requires
            input@.wf(),
            old(output)@.wf(),
        ensures
            ({
                let w = spec_min(input@.width as int, old(output)@.width as int);
                let h = spec_min(input@.height as int, old(output)@.height as int);
                let kw = spec_axis_kernel(std_deviation_x as int, w);
                let kh = spec_axis_kernel(std_deviation_y as int, h);
                &&& kw == 0 && kh == 0 ==> maps_into(input@, old(output)@, final(output)@, |p: u32| p)
                &&& kw > 0 || kh > 0 ==> blurs_into(input@, old(output)@, final(output)@, kw, kh)
            }),
    {
        let w = if input.width() < output.width() {
            input.width()
        } else {
            output.width()
        };
        let h = if input.height() < output.height() {
            input.height()
        } else {
            output.height()
        };
        let kw = axis_kernel(std_deviation_x, w);
        let kh = axis_kernel(std_deviation_y, h);
        let px = read_pixels(input, w, h);
        if kw == 0 && kh == 0 {
            write_pixels(output, &px, w, h);
            return;
        }
        let ghost old_out = output@;
        let blurred = blur_pixels(&px, input.channel(), output.channel(), w, h, kw, kh);
        write_pixels(output, &blurred, w, h);
        proof {
            let (wi, hi, kwi, khi) = (w as int, h as int, kw as int, kh as int);
            let f = |x: int, y: int| input@.rgba(x, y);
            let g = image_of_pixels(px@, wi, input@.channel);
            assert forall|x: int, y: int| 0 <= x < wi && 0 <= y < hi implies #[trigger] g(x, y) == f(x, y) by {}
            lemma_triple_ext(g, f, wi, hi, kwi, khi);
        }
    }

    /// Blurs `surface` in place, as `gaussian_blur` does into another surface.
    pub fn gaussian_blur_in_place(surface: &mut Surface, std_deviation_x: i64, std_deviation_y: i64)
        requires
            old(surface)@.wf(),
        ensures
            ({
                let kw = spec_axis_kernel(std_deviation_x as int, old(surface)@.width as int);
                let kh = spec_axis_kernel(std_deviation_y as int, old(surface)@.height as int);
                &&& kw == 0 && kh == 0 ==> final(surface)@ == old(surface)@
                &&& kw > 0 || kh > 0 ==> blurs_into(old(surface)@, old(surface)@, final(surface)@, kw, kh)
            }),
    {
        let w = surface.width();
        let h = surface.height();
        let kw = axis_kernel(std_deviation_x, w);
        let kh = axis_kernel(std_deviation_y, h);
        if kw == 0 && kh == 0 {
            return;
        }
        let px = read_pixels(surface, w, h);
        let ghost old_s = surface@;
        let channel = surface.channel();
        let blurred = blur_pixels(&px, channel, channel, w, h, kw, kh);
        write_pixels(surface, &blurred, w, h);
        proof {
            let (wi, hi, kwi, khi) = (w as int, h as int, kw as int, kh as int);
            let f = |x: int, y: int| old_s.rgba(x, y);
            let g = image_of_pixels(px@, wi, channel);
            assert forall|x: int, y: int| 0 <= x < wi && 0 <= y < hi implies #[trigger] g(x, y) == f(x, y) by {}
            lemma_triple_ext(g, f, wi, hi, kwi, khi);
        }
    }
}

} // verus!
