//! What the filters guarantee together, proved from their contracts.

use vstd::prelude::*;
use crate::apply::{spec_color_transform_pixel, spec_common_extent};
use crate::blend::{BlendMode, spec_blend_rgba};
use crate::blur::{
    blurs_into, channel_of, lemma_line_sum_bound, line_sum, spec_axis_kernel, spec_box_value, spec_kernel_size,
    window_hi, window_lo,
};
use crate::color::{FIXED_ONE, spec_identity_matrix, spec_opacity_matrix};
use crate::composite::{CompositeOperator, spec_arithmetic_rgba, spec_composite_rgba};
use crate::filters::{combines_into, maps_into};
use crate::pixel::{
    ColorChannel, Rgba, is_bytes, is_premultiplied, lemma_pack_unpack, lemma_unpack_pack, spec_unpack,
};
use crate::surface::{SurfaceView, spec_min};

verus! {

/// Unpremultiplying and premultiplying again lowers a premultiplied channel
/// by at most one, and keeps it when alpha is 255.
proof fn lemma_round_trip_channel(c: int, a: int)
    requires
        0 <= c <= a <= 255,
    ensures
        ({
            let u = if a == 0 {
                0
            } else {
                (255 * c) / a
            };
            let q = (u * (a + 1)) / 256;
            &&& 0 <= u <= 255
            &&& c - 1 <= q <= c
            &&& a == 255 ==> q == c
        }),
{
    if a == 0 {
        assert(c == 0);
    } else {
        let u = (255 * c) / a;
        vstd::arithmetic::div_mod::lemma_fundamental_div_mod(255 * c, a);
        let r = (255 * c) % a;
        assert(0 <= r < a);
        assert(a * u + r == 255 * c);
        assert(c <= u <= 255) by (nonlinear_arith)
            requires
                a * u + r == 255 * c,
                0 <= r < a,
                0 <= c <= a <= 255,
                a >= 1,
        ;
        let q = (u * (a + 1)) / 256;
        vstd::arithmetic::div_mod::lemma_fundamental_div_mod(u * (a + 1), 256);
        let r2 = (u * (a + 1)) % 256;
        assert(256 * q + r2 == u * (a + 1));
        assert(c - 1 <= q <= c) by (nonlinear_arith)
            requires
                a * u + r == 255 * c,
                0 <= r < a,
                256 * q + r2 == u * (a + 1),
                0 <= r2 < 256,
                c <= u <= 255,
                0 <= c <= a <= 255,
        ;
        if a == 255 {
            assert(u == c) by (nonlinear_arith)
                requires
                    255 * u + r == 255 * c,
                    0 <= r < 255,
            ;
            assert(q == c) by (nonlinear_arith)
                requires
                    256 * q + r2 == c * 256,
                    0 <= r2 < 256,
            ;
        }
    }
}

/// Row `k` of a matrix that holds the identity's coefficients in that row.
proof fn lemma_unit_row(m: Seq<i64>, k: int, u: Rgba, v: int)
    requires
        k == 0 || k == 5 || k == 10 || k == 15,
        m.len() == 20,
        m[k] as int == (if k == 0 { 1_000_000int } else { 0int }),
        m[k + 1] as int == (if k == 5 { 1_000_000int } else { 0int }),
        m[k + 2] as int == (if k == 10 { 1_000_000int } else { 0int }),
        m[k + 3] as int == (if k == 15 { 1_000_000int } else { 0int }),
        m[k + 4] == 0,
        v == (if k == 0 { u.r as int } else if k == 5 { u.g as int } else if k == 10 { u.b as int } else { u.a as int }),
    ensures
        crate::color::spec_row_sum(m, k, u) == v * 1_000_000,
{
    let (a0, a1, a2, a3) = (m[k] as int, m[k + 1] as int, m[k + 2] as int, m[k + 3] as int);
    let (r, g, b, al) = (u.r as int, u.g as int, u.b as int, u.a as int);
    assert(r * a0 + g * a1 + b * a2 + al * a3 == v * 1_000_000) by (nonlinear_arith)
        requires
            k == 0 || k == 5 || k == 10 || k == 15,
            a0 == (if k == 0 { 1_000_000int } else { 0int }),
            a1 == (if k == 5 { 1_000_000int } else { 0int }),
            a2 == (if k == 10 { 1_000_000int } else { 0int }),
            a3 == (if k == 15 { 1_000_000int } else { 0int }),
            v == (if k == 0 { r } else if k == 5 { g } else if k == 10 { b } else { al }),
    ;
}

/// Dividing a fixed-point channel by the unit gives the channel back.
proof fn lemma_identity_row(v: int)
    requires
        0 <= v <= 255,
    ensures
        (v * 1_000_000) / 1_000_000 == v,
{
    vstd::arithmetic::div_mod::lemma_div_multiples_vanish(v, 1_000_000);
}

/// The identity matrix on one pixel: opaque pixels come back unchanged, and
/// each channel of a premultiplied pixel comes back at most one lower.
pub proof fn lemma_identity_pixel(p: u32, channel: ColorChannel)
    requires
        is_premultiplied(spec_unpack(p, channel)),
    ensures
        ({
            let c = spec_unpack(p, channel);
            let q = spec_unpack(spec_color_transform_pixel(spec_identity_matrix(), p, channel, channel), channel);
            &&& q.a == c.a
            &&& c.r - 1 <= q.r <= c.r
            &&& c.g - 1 <= q.g <= c.g
            &&& c.b - 1 <= q.b <= c.b
            &&& c.a == 255 ==> spec_color_transform_pixel(spec_identity_matrix(), p, channel, channel) == p
        }),
{
    let c = spec_unpack(p, channel);
    lemma_pack_unpack(p, channel);
    lemma_round_trip_channel(c.r as int, c.a as int);
    lemma_round_trip_channel(c.g as int, c.a as int);
    lemma_round_trip_channel(c.b as int, c.a as int);
    let u = crate::pixel::spec_unpremultiply(c);
    lemma_identity_row(u.r as int);
    lemma_identity_row(u.g as int);
    lemma_identity_row(u.b as int);
    lemma_identity_row(u.a as int);
    let m = spec_identity_matrix();
    assert(m[0] == 1_000_000 && m[1] == 0 && m[2] == 0 && m[3] == 0 && m[4] == 0);
    assert(m[5] == 0 && m[6] == 1_000_000 && m[7] == 0 && m[8] == 0 && m[9] == 0);
    assert(m[10] == 0 && m[11] == 0 && m[12] == 1_000_000 && m[13] == 0 && m[14] == 0);
    assert(m[15] == 0 && m[16] == 0 && m[17] == 0 && m[18] == 1_000_000 && m[19] == 0);
    lemma_unit_row(m, 0, u, u.r as int);
    lemma_unit_row(m, 5, u, u.g as int);
    lemma_unit_row(m, 10, u, u.b as int);
    lemma_unit_row(m, 15, u, u.a as int);
    let t = crate::color::spec_apply_matrix(m, u);
    assert(t == u);
    let pm = crate::pixel::spec_premultiply(t);
    lemma_unpack_pack(pm, channel);
    if c.a == 255 {
        assert(pm == c);
    }
}

/// A colour transform by the identity matrix keeps every opaque pixel and
/// lowers no channel of a premultiplied pixel by more than one.
pub proof fn identity_transform_keeps_pixels(input: SurfaceView, old: SurfaceView, new: SurfaceView)
    requires
        input.channel == old.channel,
        maps_into(
            input,
            old,
            new,
            |p: u32| spec_color_transform_pixel(spec_identity_matrix(), p, input.channel, old.channel),
        ),
    ensures
        forall|x: int, y: int|
            0 <= x < spec_min(input.width as int, old.width as int) && 0 <= y < spec_min(
                input.height as int,
                old.height as int,
            ) && #[trigger] input.rgba(x, y).a == 255 ==> new.at(x, y) == input.at(x, y),
        forall|x: int, y: int|
            0 <= x < spec_min(input.width as int, old.width as int) && 0 <= y < spec_min(
                input.height as int,
                old.height as int,
            ) && is_premultiplied(#[trigger] input.rgba(x, y)) ==> {
                let c = input.rgba(x, y);
                let q = new.rgba(x, y);
                &&& q.a == c.a
                &&& c.r - 1 <= q.r <= c.r
                &&& c.g - 1 <= q.g <= c.g
                &&& c.b - 1 <= q.b <= c.b
            },
{
    assert forall|x: int, y: int|
        0 <= x < spec_min(input.width as int, old.width as int) && 0 <= y < spec_min(
            input.height as int,
            old.height as int,
        ) && is_premultiplied(#[trigger] input.rgba(x, y)) implies {
        let c = input.rgba(x, y);
        let q = new.rgba(x, y);
        &&& q.a == c.a
        &&& c.r - 1 <= q.r <= c.r
        &&& c.g - 1 <= q.g <= c.g
        &&& c.b - 1 <= q.b <= c.b
    } by {
        lemma_identity_pixel(input.at(x, y), input.channel);
    }
    assert forall|x: int, y: int|
        0 <= x < spec_min(input.width as int, old.width as int) && 0 <= y < spec_min(
            input.height as int,
            old.height as int,
        ) && #[trigger] input.rgba(x, y).a == 255 implies new.at(x, y) == input.at(x, y) by {
        lemma_identity_pixel(input.at(x, y), input.channel);
    }
}

/// Opacity one is the identity matrix, so it keeps what the identity keeps;
/// opacity zero turns every pixel it reaches into transparent black.
pub proof fn opacity_bounds(input: SurfaceView, old: SurfaceView, new: SurfaceView)
    requires
        maps_into(
            input,
            old,
            new,
            |p: u32| spec_color_transform_pixel(spec_opacity_matrix(0), p, input.channel, old.channel),
        ),
    ensures
        spec_opacity_matrix(FIXED_ONE as int) == spec_identity_matrix(),
        forall|x: int, y: int|
            0 <= x < spec_min(input.width as int, old.width as int) && 0 <= y < spec_min(
                input.height as int,
                old.height as int,
            ) ==> #[trigger] new.at(x, y) == 0,
{
    assert(spec_opacity_matrix(FIXED_ONE as int) =~= spec_identity_matrix());
    assert forall|x: int, y: int|
        0 <= x < spec_min(input.width as int, old.width as int) && 0 <= y < spec_min(
            input.height as int,
            old.height as int,
        ) implies #[trigger] new.at(x, y) == 0 by {
        let c = spec_unpack(input.at(x, y), input.channel);
        lemma_pack_unpack(input.at(x, y), input.channel);
        let u = crate::pixel::spec_unpremultiply(c);
        let m = spec_opacity_matrix(0);
        assert(m[15] == 0 && m[16] == 0 && m[17] == 0 && m[18] == 0 && m[19] == 0);
        let t = crate::color::spec_apply_matrix(m, u);
        assert(u.r * m[15] + u.g * m[16] + u.b * m[17] + u.a * m[18] + 255 * m[19] == 0) by (nonlinear_arith)
            requires m[15] == 0, m[16] == 0, m[17] == 0, m[18] == 0, m[19] == 0;
        assert(crate::color::spec_row_sum(m, 15, u) == 0);
        assert(t.a == 0);
        let pm = crate::pixel::spec_premultiply(t);
        assert(t.r <= 255 && t.g <= 255 && t.b <= 255);
        assert(pm.r == 0 && pm.g == 0 && pm.b == 0 && pm.a == 0);
    }
}

/// Blending `Normal` over a backdrop that is transparent everywhere gives
/// back the source.
pub proof fn blend_normal_over_transparent(src: SurfaceView, dst: SurfaceView, old: SurfaceView, new: SurfaceView)
    requires
        src.channel == old.channel,
        src.premultiplied_within(spec_common_extent(src, dst, old).0, spec_common_extent(src, dst, old).1),
        dst.premultiplied_within(spec_common_extent(src, dst, old).0, spec_common_extent(src, dst, old).1),
        forall|x: int, y: int|
            0 <= x < spec_common_extent(src, dst, old).0 && 0 <= y < spec_common_extent(src, dst, old).1
                ==> #[trigger] dst.rgba(x, y).a == 0,
        combines_into(src, dst, old, new, |s: Rgba, d: Rgba| spec_blend_rgba(BlendMode::Normal, s, d)),
    ensures
        forall|x: int, y: int|
            0 <= x < spec_common_extent(src, dst, old).0 && 0 <= y < spec_common_extent(src, dst, old).1
                ==> #[trigger] new.at(x, y) == src.at(x, y),
{
    let (w, h) = spec_common_extent(src, dst, old);
    assert forall|x: int, y: int| 0 <= x < w && 0 <= y < h implies #[trigger] new.at(x, y) == src.at(x, y) by {
        lemma_pack_unpack(src.at(x, y), src.channel);
        lemma_pack_unpack(dst.at(x, y), dst.channel);
        assert(dst.rgba(x, y).a == 0);
        assert(is_premultiplied(dst.rgba(x, y)));
        assert(is_premultiplied(src.rgba(x, y)));
        let sc = src.rgba(x, y);
        let dc = dst.rgba(x, y);
        assert(dc.r == 0 && dc.g == 0 && dc.b == 0);
        assert(crate::pixel::spec_div255(0) == 0);
        assert(0 * (255 - sc.a) == 0 && sc.a * 0 == 0) by (nonlinear_arith);
        assert(spec_blend_rgba(BlendMode::Normal, sc, dc) == sc);
    }
}

/// Compositing `Over` with a source that is opaque everywhere gives back
/// the source.
pub proof fn composite_over_opaque(src: SurfaceView, dst: SurfaceView, old: SurfaceView, new: SurfaceView)
    requires
        src.channel == old.channel,
        forall|x: int, y: int|
            0 <= x < spec_common_extent(src, dst, old).0 && 0 <= y < spec_common_extent(src, dst, old).1
                ==> #[trigger] src.rgba(x, y).a == 255,
        combines_into(src, dst, old, new, |s: Rgba, d: Rgba| spec_composite_rgba(CompositeOperator::Over, s, d)),
    ensures
        forall|x: int, y: int|
            0 <= x < spec_common_extent(src, dst, old).0 && 0 <= y < spec_common_extent(src, dst, old).1
                ==> #[trigger] new.at(x, y) == src.at(x, y),
{
    let (w, h) = spec_common_extent(src, dst, old);
    assert forall|x: int, y: int| 0 <= x < w && 0 <= y < h implies #[trigger] new.at(x, y) == src.at(x, y) by {
        lemma_pack_unpack(src.at(x, y), src.channel);
        lemma_pack_unpack(dst.at(x, y), dst.channel);
        assert(src.rgba(x, y).a == 255);
        let sc = src.rgba(x, y);
        let dc = dst.rgba(x, y);
        assert(crate::pixel::spec_div255(0) == 0);
        assert(dc.r * 0 == 0 && dc.g * 0 == 0 && dc.b * 0 == 0 && dc.a * 0 == 0) by (nonlinear_arith);
        assert(spec_composite_rgba(CompositeOperator::Over, sc, dc) == sc);
    }
}

/// `Xor` does not depend on which surface is the source.
pub proof fn composite_xor_symmetric(
    a: SurfaceView,
    b: SurfaceView,
    old1: SurfaceView,
    new1: SurfaceView,
    old2: SurfaceView,
    new2: SurfaceView,
)
    requires
        old1.channel == old2.channel,
        combines_into(a, b, old1, new1, |s: Rgba, d: Rgba| spec_composite_rgba(CompositeOperator::Xor, s, d)),
        combines_into(b, a, old2, new2, |s: Rgba, d: Rgba| spec_composite_rgba(CompositeOperator::Xor, s, d)),
    ensures
        forall|x: int, y: int|
            0 <= x < spec_common_extent(a, b, old1).0 && 0 <= y < spec_common_extent(a, b, old1).1
                && x < spec_common_extent(b, a, old2).0 && y < spec_common_extent(b, a, old2).1
                ==> #[trigger] new1.at(x, y) == new2.at(x, y),
{
    assert forall|x: int, y: int|
        0 <= x < spec_common_extent(a, b, old1).0 && 0 <= y < spec_common_extent(a, b, old1).1
            && x < spec_common_extent(b, a, old2).0 && y < spec_common_extent(b, a, old2).1 implies #[trigger] new1.at(
        x,
        y,
    ) == new2.at(x, y) by {
        assert(spec_composite_rgba(CompositeOperator::Xor, a.rgba(x, y), b.rgba(x, y))
            == spec_composite_rgba(CompositeOperator::Xor, b.rgba(x, y), a.rgba(x, y)));
    }
}

/// A Gaussian blur with both standard deviations zero copies the input.
pub proof fn gaussian_blur_zero_copies(input: SurfaceView, old: SurfaceView, new: SurfaceView)
    requires
        ({
            let w = spec_min(input.width as int, old.width as int);
            let h = spec_min(input.height as int, old.height as int);
            let kw = spec_axis_kernel(0, w);
            let kh = spec_axis_kernel(0, h);
            &&& kw == 0 && kh == 0 ==> maps_into(input, old, new, |p: u32| p)
            &&& kw > 0 || kh > 0 ==> blurs_into(input, old, new, kw, kh)
        }),
    ensures
        forall|x: int, y: int|
            0 <= x < spec_min(input.width as int, old.width as int) && 0 <= y < spec_min(
                input.height as int,
                old.height as int,
            ) ==> #[trigger] new.at(x, y) == input.at(x, y),
        old.changed_within(
            new,
            spec_min(input.width as int, old.width as int),
            spec_min(input.height as int, old.height as int),
        ),
{
    assert(spec_kernel_size(0) == 0);
}

/// A sum over a stretch of equal pixels.
proof fn lemma_flat_line_sum(f: spec_fn(int) -> Rgba, c: Rgba, k: int, lo: int, hi: int)
    requires
        lo <= hi,
        forall|j: int| lo <= j < hi ==> #[trigger] f(j) == c,
    ensures
        line_sum(f, k, lo, hi) == (hi - lo) * channel_of(c, k),
    decreases hi - lo,
{
    if lo < hi {
        lemma_flat_line_sum(f, c, k, lo, hi - 1);
        assert(f(hi - 1) == c);
        assert((hi - 1 - lo) * channel_of(c, k) + channel_of(c, k) == (hi - lo) * channel_of(c, k))
            by (nonlinear_arith);
    } else {
        assert(line_sum(f, k, lo, hi) == 0);
        let ch = channel_of(c, k);
        assert((hi - lo) * ch == 0) by (nonlinear_arith)
            requires hi == lo;
    }
}

/// Away from the ends of a line, the window of a box of size `n` holds
/// exactly `n` pixels, so the box keeps the level of a flat stretch: a line
/// whose pixels all equal `c` comes out as `c` there.
pub proof fn box_blur_interior_keeps_level(f: spec_fn(int) -> Rgba, len: int, n: int, o: int, c: Rgba)
    requires
        1 <= n <= len,
        o + n / 2 - n + 1 >= 0,
        o + n / 2 + 1 <= len,
        forall|j: int| 0 <= j < len ==> #[trigger] f(j) == c,
    ensures
        window_hi(o, n, len) - window_lo(o, n) == n,
        spec_box_value(f, len, n, o) == c,
{
    let lo = window_lo(o, n);
    let hi = window_hi(o, n, len);
    assert(hi - lo == n);
    lemma_flat_line_sum(f, c, 0, lo, hi);
    lemma_flat_line_sum(f, c, 1, lo, hi);
    lemma_flat_line_sum(f, c, 2, lo, hi);
    lemma_flat_line_sum(f, c, 3, lo, hi);
    vstd::arithmetic::div_mod::lemma_div_multiples_vanish(c.r as int, n);
    vstd::arithmetic::div_mod::lemma_div_multiples_vanish(c.g as int, n);
    vstd::arithmetic::div_mod::lemma_div_multiples_vanish(c.b as int, n);
    vstd::arithmetic::div_mod::lemma_div_multiples_vanish(c.a as int, n);
    assert(n * c.r == c.r * n && n * c.g == c.g * n && n * c.b == c.b * n && n * c.a == c.a * n) by (nonlinear_arith);
}

/// Away from the ends of a line, each output of a box of size `n` is the sum
/// of exactly `n` input pixels divided by `n`: the window neither loses
/// pixels at a border nor counts one twice.
pub proof fn box_blur_interior_sums(f: spec_fn(int) -> Rgba, len: int, n: int, o: int, k: int)
    requires
        1 <= n <= len,
        o + n / 2 - n + 1 >= 0,
        o + n / 2 + 1 <= len,
        0 <= k < 4,
        forall|j: int| 0 <= j < len ==> is_bytes(#[trigger] f(j)),
    ensures
        window_lo(o, n) == o + n / 2 - n + 1,
        window_hi(o, n, len) == o + n / 2 + 1,
        window_hi(o, n, len) - window_lo(o, n) == n,
        ({
            let sum = line_sum(f, k, window_lo(o, n), window_hi(o, n, len));
            let v = channel_of(spec_box_value(f, len, n, o), k);
            n * v <= sum < n * (v + 1)
        }),
{
    let lo = window_lo(o, n);
    let hi = window_hi(o, n, len);
    let sum = line_sum(f, k, lo, hi);
    lemma_line_sum_bound(f, k, lo, hi);
    vstd::arithmetic::div_mod::lemma_fundamental_div_mod(sum, n);
    vstd::arithmetic::div_mod::lemma_div_is_ordered(sum, 255 * n, n);
    vstd::arithmetic::div_mod::lemma_div_multiples_vanish(255, n);
    vstd::arithmetic::div_mod::lemma_div_pos_is_pos(sum, n);
    let q = sum / n;
    assert(channel_of(spec_box_value(f, len, n, o), k) == q);
    assert(n * q <= sum < n * (q + 1)) by (nonlinear_arith)
        requires
            sum == n * q + sum % n,
            0 <= sum % n < n,
    ;
}

/// Arithmetic compositing with `k2 = 1` and the other coefficients zero gives
/// back the first input.
pub proof fn arithmetic_picks_first(in1: SurfaceView, in2: SurfaceView, old: SurfaceView, new: SurfaceView)
    requires
        in1.channel == old.channel,
        combines_into(
            in1,
            in2,
            old,
            new,
            |s: Rgba, d: Rgba| spec_arithmetic_rgba(0, FIXED_ONE as int, 0, 0, s, d),
        ),
    ensures
        forall|x: int, y: int|
            0 <= x < spec_common_extent(in1, in2, old).0 && 0 <= y < spec_common_extent(in1, in2, old).1
                ==> #[trigger] new.at(x, y) == in1.at(x, y),
{
    let (w, h) = spec_common_extent(in1, in2, old);
    assert forall|x: int, y: int| 0 <= x < w && 0 <= y < h implies #[trigger] new.at(x, y) == in1.at(x, y) by {
        lemma_pack_unpack(in1.at(x, y), in1.channel);
        let c = in1.rgba(x, y);
        vstd::arithmetic::div_mod::lemma_div_multiples_vanish(c.r as int, 255_000_000int);
        vstd::arithmetic::div_mod::lemma_div_multiples_vanish(c.g as int, 255_000_000int);
        vstd::arithmetic::div_mod::lemma_div_multiples_vanish(c.b as int, 255_000_000int);
        vstd::arithmetic::div_mod::lemma_div_multiples_vanish(c.a as int, 255_000_000int);
        assert(spec_arithmetic_rgba(0, FIXED_ONE as int, 0, 0, c, in2.rgba(x, y)) == c);
    }
}

} // verus!
