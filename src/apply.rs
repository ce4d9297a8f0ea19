//! The pixel loops that the filters share, and the filters on surfaces.

use vstd::prelude::*;
use crate::blend::{BlendMode, blend_rgba, spec_blend_rgba};
use crate::composite::{
    CompositeOperator, arithmetic_rgba, composite_rgba, spec_arithmetic_rgba, spec_composite_rgba,
};
use crate::color::{
    apply_matrix, linear_to_srgb_table, linear_to_srgb_value, spec_apply_matrix, spec_apply_table,
    srgb_to_linear_table, srgb_to_linear_value,
};
use crate::pixel::{
    ColorChannel, is_bytes, is_premultiplied, pack_pixel, premultiply_pixel, spec_pack,
    spec_premultiply, spec_unpack, spec_unpremultiply, unpack_pixel, unpremultiply_pixel, Rgba,
};
use crate::surface::{Surface, SurfaceView, lemma_index_in_buffer, lemma_index_injective, spec_min};

verus! {

/// The colour matrix `m` applied to the pixel `p`: unpremultiplied, transformed,
/// limited to bytes and premultiplied again.
pub open spec fn spec_color_transform_pixel(
    m: Seq<i64>,
    p: u32,
    in_channel: ColorChannel,
    out_channel: ColorChannel,
) -> u32 {
    spec_pack(
        spec_premultiply(spec_apply_matrix(m, spec_unpremultiply(spec_unpack(p, in_channel)))),
        out_channel,
    )
}

/// The table `t` applied to the colours of the pixel `p`, between
/// unpremultiplication and premultiplication.
pub open spec fn spec_table_pixel(
    t: Seq<u32>,
    p: u32,
    in_channel: ColorChannel,
    out_channel: ColorChannel,
) -> u32 {
    spec_pack(
        spec_premultiply(spec_apply_table(t, spec_unpremultiply(spec_unpack(p, in_channel)))),
        out_channel,
    )
}

/// What a one-surface filter does to each pixel.
pub(crate) enum PixelTransform {
    Matrix([i64; 20]),
    SrgbToLinear,
    LinearToSrgb,
}

/// The table filters need premultiplied pixels, so that unpremultiplied channels stay bytes.
pub(crate) open spec fn transform_accepts(t: PixelTransform, p: u32, channel: ColorChannel) -> bool {
    match t {
        PixelTransform::Matrix(_) => true,
        _ => is_premultiplied(spec_unpack(p, channel)),
    }
}

/// What `t` makes of the pixel `p`.
pub(crate) open spec fn spec_transform_pixel(
    t: PixelTransform,
    p: u32,
    in_channel: ColorChannel,
    out_channel: ColorChannel,
) -> u32 {
    match t {
        PixelTransform::Matrix(m) => spec_color_transform_pixel(m@, p, in_channel, out_channel),
        PixelTransform::SrgbToLinear => spec_table_pixel(
            srgb_to_linear_table(),
            p,
            in_channel,
            out_channel,
        ),
        PixelTransform::LinearToSrgb => spec_table_pixel(
            linear_to_srgb_table(),
            p,
            in_channel,
            out_channel,
        ),
    }
}

/// What `t` makes of the pixel `p`.
fn transform_pixel(t: &PixelTransform, p: u32, in_channel: ColorChannel, out_channel: ColorChannel) -> (r: u32)
    requires
        transform_accepts(*t, p, in_channel),
    ensures
        r == spec_transform_pixel(*t, p, in_channel, out_channel),
{
    let u = unpremultiply_pixel(unpack_pixel(p, in_channel));
    let c = match t {
        PixelTransform::Matrix(m) => apply_matrix(m, u),
        PixelTransform::SrgbToLinear => Rgba {
            r: srgb_to_linear_value(u.r),
            g: srgb_to_linear_value(u.g),
            b: srgb_to_linear_value(u.b),
            a: u.a,
        },
        PixelTransform::LinearToSrgb => Rgba {
            r: linear_to_srgb_value(u.r),
            g: linear_to_srgb_value(u.g),
            b: linear_to_srgb_value(u.b),
            a: u.a,
        },
    };
    pack_pixel(premultiply_pixel(c), out_channel)
}

/// Writing pixel `(x, y)` keeps what the rows before `y`, and the pixels
/// before `x` in row `y`, hold.
pub(crate) proof fn lemma_write_step(old: SurfaceView, cur: SurfaceView, w: int, x: int, y: int, p: u32)
    requires
        old.wf(),
        old.same_shape(cur),
        0 <= x < w <= old.width,
        0 <= y < old.height,
        forall|i: int|
            0 <= i < old.buffer.len() && !old.covers(w, y, i) && !old.covers_row(x, y, i)
                ==> #[trigger] cur.buffer[i] == old.buffer[i],
    ensures
        old.same_shape(cur.with_pixel(x, y, p)),
        forall|i: int|
            0 <= i < old.buffer.len() && !old.covers(w, y, i) && !old.covers_row(x + 1, y, i)
                ==> #[trigger] cur.with_pixel(x, y, p).buffer[i] == old.buffer[i],
        forall|px: int, py: int|
            (0 <= px < w && 0 <= py < y || 0 <= px < x && py == y) ==> #[trigger] cur.with_pixel(
                x,
                y,
                p,
            ).at(px, py) == cur.at(px, py),
        cur.with_pixel(x, y, p).at(x, y) == p,
        cur.at(x, y) == old.at(x, y),
{
    lemma_index_in_buffer(old, x, y);
    let new = cur.with_pixel(x, y, p);
    assert forall|i: int|
        0 <= i < old.buffer.len() && !old.covers(w, y, i) && !old.covers_row(x + 1, y, i)
            implies #[trigger] new.buffer[i] == old.buffer[i] by {
        if old.covers_row(x, y, i) {
            let px = choose|px: int| 0 <= px < x && #[trigger] old.index(px, y) == i;
            assert(old.index(px, y) == i);
        }
        assert(old.index(x, y) != i);
    }
    assert forall|px: int, py: int|
        (0 <= px < w && 0 <= py < y || 0 <= px < x && py == y) implies #[trigger] new.at(px, py)
        == cur.at(px, py) by {
        lemma_index_in_buffer(old, px, py);
        if old.index(px, py) == old.index(x, y) {
            lemma_index_injective(old, px, py, x, y);
        }
    }
    let i0 = old.index(x, y);
    if old.covers(w, y, i0) {
        let (px, py) = choose|px: int, py: int| 0 <= px < w && 0 <= py < y && #[trigger] old.index(px, py) == i0;
        lemma_index_injective(old, px, py, x, y);
    }
    if old.covers_row(x, y, i0) {
        let px = choose|px: int| 0 <= px < x && #[trigger] old.index(px, y) == i0;
        lemma_index_injective(old, px, y, x, y);
    }
}

/// A finished row joins the rows before it.
pub(crate) proof fn lemma_row_done(old: SurfaceView, cur: SurfaceView, w: int, y: int)
    requires
        0 <= y,
        cur.buffer.len() == old.buffer.len(),
        forall|i: int|
            0 <= i < old.buffer.len() && !old.covers(w, y, i) && !old.covers_row(w, y, i)
                ==> #[trigger] cur.buffer[i] == old.buffer[i],
    ensures
        forall|i: int|
            0 <= i < old.buffer.len() && !old.covers(w, y + 1, i) ==> #[trigger] cur.buffer[i]
                == old.buffer[i],
{
    assert forall|i: int| 0 <= i < old.buffer.len() && !old.covers(w, y + 1, i) implies #[trigger] cur.buffer[i]
        == old.buffer[i] by {
        if old.covers(w, y, i) {
            let (px, py) = choose|px: int, py: int| 0 <= px < w && 0 <= py < y && #[trigger] old.index(px, py) == i;
            assert(old.index(px, py) == i);
            assert(old.covers(w, y + 1, i));
        }
        if old.covers_row(w, y, i) {
            let px = choose|px: int| 0 <= px < w && #[trigger] old.index(px, y) == i;
            assert(old.index(px, y) == i);
            assert(old.covers(w, y + 1, i));
        }
    }
}

/// Writes `t` of each pixel of `input` to the same place in `output`, over
/// the corner that both surfaces share.
pub(crate) fn transform_surface(input: &Surface, output: &mut Surface, t: &PixelTransform)
    requires
        input@.wf(),
        old(output)@.wf(),
        forall|x: int, y: int|
            0 <= x < spec_min(input@.width as int, old(output)@.width as int) && 0 <= y < spec_min(
                input@.height as int,
                old(output)@.height as int,
            ) ==> transform_accepts(*t, #[trigger] input@.at(x, y), input@.channel),
    ensures
        old(output)@.changed_within(
            final(output)@,
            spec_min(input@.width as int, old(output)@.width as int),
            spec_min(input@.height as int, old(output)@.height as int),
        ),
        final(output)@.wf(),
        forall|x: int, y: int|
            0 <= x < spec_min(input@.width as int, old(output)@.width as int) && 0 <= y < spec_min(
                input@.height as int,
                old(output)@.height as int,
            ) ==> #[trigger] final(output)@.at(x, y) == spec_transform_pixel(
                *t,
                input@.at(x, y),
                input@.channel,
                old(output)@.channel,
            ),
{
    let w = if input.width() < output.width() {
        input.width()
    } else {
        output.width()
    };
    let h = if input.height() < output.height() {
        input.height()
    } else {
        output.height()
    };
    let out_channel = output.channel();
    let in_channel = input.channel();
    let ghost old_out = output@;
    let mut y: u32 = 0;
    while y < h
        invariant
            input@.wf(),
            output@.wf(),
            w <= input@.width && w <= old_out.width,
            h <= input@.height && h <= old_out.height,
            w == spec_min(input@.width as int, old_out.width as int),
            h == spec_min(input@.height as int, old_out.height as int),
            old_out.wf(),
            old_out.same_shape(output@),
            out_channel == old_out.channel,
            in_channel == input@.channel,
            y <= h,
            forall|x: int, y: int|
                0 <= x < w && 0 <= y < h ==> transform_accepts(*t, #[trigger] input@.at(x, y), input@.channel),
            forall|i: int|
                0 <= i < old_out.buffer.len() && !old_out.covers(w as int, y as int, i)
                    ==> #[trigger] output@.buffer[i] == old_out.buffer[i],
            forall|px: int, py: int|
                0 <= px < w && 0 <= py < y ==> #[trigger] output@.at(px, py) == spec_transform_pixel(
                    *t,
                    input@.at(px, py),
                    in_channel,
                    out_channel,
                ),
        decreases h - y,
    {
        let mut x: u32 = 0;
        while x < w
            invariant
                input@.wf(),
                output@.wf(),
                w <= input@.width && w <= old_out.width,
                h <= input@.height && h <= old_out.height,
                old_out.wf(),
                old_out.same_shape(output@),
                out_channel == old_out.channel,
                in_channel == input@.channel,
                y < h,
                x <= w,
                forall|x: int, y: int|
                    0 <= x < w && 0 <= y < h ==> transform_accepts(*t, #[trigger] input@.at(x, y), input@.channel),
                forall|i: int|
                    0 <= i < old_out.buffer.len() && !old_out.covers(w as int, y as int, i)
                        && !old_out.covers_row(x as int, y as int, i) ==> #[trigger] output@.buffer[i]
                        == old_out.buffer[i],
                forall|px: int, py: int|
                    (0 <= px < w && 0 <= py < y || 0 <= px < x && py == y) ==> #[trigger] output@.at(
                        px,
                        py,
                    ) == spec_transform_pixel(*t, input@.at(px, py), in_channel, out_channel),
            decreases w - x,
        {
            let p = input.get_pixel(x, y);
            let q = transform_pixel(t, p, in_channel, out_channel);
            proof {
                lemma_write_step(old_out, output@, w as int, x as int, y as int, q);
            }
            output.set_pixel(x, y, q);
            x = x + 1;
        }
        proof {
            lemma_row_done(old_out, output@, w as int, y as int);
        }
        y = y + 1;
    }
}

/// Replaces each pixel of `surface` by `t` of it.
pub(crate) fn transform_surface_in_place(surface: &mut Surface, t: &PixelTransform)
    requires
        old(surface)@.wf(),
        forall|x: int, y: int|
            0 <= x < old(surface)@.width && 0 <= y < old(surface)@.height ==> transform_accepts(
                *t,
                #[trigger] old(surface)@.at(x, y),
                old(surface)@.channel,
            ),
    ensures
        old(surface)@.changed_within(
            final(surface)@,
            old(surface)@.width as int,
            old(surface)@.height as int,
        ),
        final(surface)@.wf(),
        forall|x: int, y: int|
            0 <= x < old(surface)@.width && 0 <= y < old(surface)@.height
                ==> #[trigger] final(surface)@.at(x, y) == spec_transform_pixel(
                *t,
                old(surface)@.at(x, y),
                old(surface)@.channel,
                old(surface)@.channel,
            ),
{
    let w = surface.width();
    let h = surface.height();
    let channel = surface.channel();
    let ghost old_s = surface@;
    let mut y: u32 = 0;
    while y < h
        invariant
            surface@.wf(),
            old_s.wf(),
            w == old_s.width,
            h == old_s.height,
            old_s.same_shape(surface@),
            channel == old_s.channel,
            y <= h,
            forall|x: int, y: int|
                0 <= x < w && 0 <= y < h ==> transform_accepts(*t, #[trigger] old_s.at(x, y), channel),
            forall|i: int|
                0 <= i < old_s.buffer.len() && !old_s.covers(w as int, y as int, i)
                    ==> #[trigger] surface@.buffer[i] == old_s.buffer[i],
            forall|px: int, py: int|
                0 <= px < w && 0 <= py < y ==> #[trigger] surface@.at(px, py) == spec_transform_pixel(
                    *t,
                    old_s.at(px, py),
                    channel,
                    channel,
                ),
        decreases h - y,
    {
        let mut x: u32 = 0;
        while x < w
            invariant
                surface@.wf(),
                old_s.wf(),
                w == old_s.width,
                h == old_s.height,
                old_s.same_shape(surface@),
                channel == old_s.channel,
                y < h,
                x <= w,
                forall|x: int, y: int|
                    0 <= x < w && 0 <= y < h ==> transform_accepts(*t, #[trigger] old_s.at(x, y), channel),
                forall|i: int|
                    0 <= i < old_s.buffer.len() && !old_s.covers(w as int, y as int, i)
                        && !old_s.covers_row(x as int, y as int, i) ==> #[trigger] surface@.buffer[i]
                        == old_s.buffer[i],
                forall|px: int, py: int|
                    (0 <= px < w && 0 <= py < y || 0 <= px < x && py == y) ==> #[trigger] surface@.at(
                        px,
                        py,
                    ) == spec_transform_pixel(*t, old_s.at(px, py), channel, channel),
            decreases w - x,
        {
            proof {
                lemma_write_step(old_s, surface@, w as int, x as int, y as int, 0);
            }
            let p = surface.get_pixel(x, y);
            let q = transform_pixel(t, p, channel, channel);
            proof {
                lemma_write_step(old_s, surface@, w as int, x as int, y as int, q);
            }
            surface.set_pixel(x, y, q);
            x = x + 1;
        }
        proof {
            lemma_row_done(old_s, surface@, w as int, y as int);
        }
        y = y + 1;
    }
}

/// What a two-surface filter does to each pair of pixels.
pub(crate) enum PixelOp {
    Blend(BlendMode),
    Composite(CompositeOperator),
    Arithmetic(i64, i64, i64, i64),
}

/// Blending and Porter-Duff compositing need premultiplied pixels.
pub(crate) open spec fn op_accepts(op: PixelOp, s: Rgba, d: Rgba) -> bool {
    match op {
        PixelOp::Arithmetic(..) => true,
        _ => is_premultiplied(s) && is_premultiplied(d),
    }
}

/// What `op` makes of the source `s` and the backdrop `d`.
pub(crate) open spec fn spec_op_rgba(op: PixelOp, s: Rgba, d: Rgba) -> Rgba {
    match op {
        PixelOp::Blend(mode) => spec_blend_rgba(mode, s, d),
        PixelOp::Composite(o) => spec_composite_rgba(o, s, d),
        PixelOp::Arithmetic(k1, k2, k3, k4) => spec_arithmetic_rgba(
            k1 as int,
            k2 as int,
            k3 as int,
            k4 as int,
            s,
            d,
        ),
    }
}

/// What `op` makes of the source `s` and the backdrop `d`.
fn op_rgba(op: &PixelOp, s: Rgba, d: Rgba) -> (r: Rgba)
    requires
        is_bytes(s),
        is_bytes(d),
        op_accepts(*op, s, d),
    ensures
        r == spec_op_rgba(*op, s, d),
        is_bytes(r),
{
    match op {
        PixelOp::Blend(mode) => blend_rgba(*mode, s, d),
        PixelOp::Composite(o) => composite_rgba(*o, s, d),
        PixelOp::Arithmetic(k1, k2, k3, k4) => arithmetic_rgba(*k1, *k2, *k3, *k4, s, d),
    }
}

/// The width and height that three surfaces share.
pub open spec fn spec_common_extent(a: SurfaceView, b: SurfaceView, c: SurfaceView) -> (int, int) {
    (
        spec_min(spec_min(a.width as int, b.width as int), c.width as int),
        spec_min(spec_min(a.height as int, b.height as int), c.height as int),
    )
}

/// Writes `op` of each pair of pixels of `src` and `dst` to the same place in
/// `out`, over the corner that the three surfaces share.
pub(crate) fn combine_surfaces(src: &Surface, dst: &Surface, out: &mut Surface, op: &PixelOp)
    requires
        src@.wf(),
        dst@.wf(),
        old(out)@.wf(),
        forall|x: int, y: int|
            0 <= x < spec_common_extent(src@, dst@, old(out)@).0 && 0 <= y < spec_common_extent(
                src@,
                dst@,
                old(out)@,
            ).1 ==> op_accepts(*op, #[trigger] src@.rgba(x, y), dst@.rgba(x, y)),
    ensures
        old(out)@.changed_within(
            final(out)@,
            spec_common_extent(src@, dst@, old(out)@).0,
            spec_common_extent(src@, dst@, old(out)@).1,
        ),
        final(out)@.wf(),
        forall|x: int, y: int|
            0 <= x < spec_common_extent(src@, dst@, old(out)@).0 && 0 <= y < spec_common_extent(
                src@,
                dst@,
                old(out)@,
            ).1 ==> #[trigger] final(out)@.at(x, y) == spec_pack(
                spec_op_rgba(*op, src@.rgba(x, y), dst@.rgba(x, y)),
                old(out)@.channel,
            ),
{
    let mut w = src.width();
    if dst.width() < w {
        w = dst.width();
    }
    if out.width() < w {
        w = out.width();
    }
    let mut h = src.height();
    if dst.height() < h {
        h = dst.height();
    }
    if out.height() < h {
        h = out.height();
    }
    let out_channel = out.channel();
    let src_channel = src.channel();
    let dst_channel = dst.channel();
    let ghost old_out = out@;
    let mut y: u32 = 0;
    while y < h
        invariant
            src@.wf(),
            dst@.wf(),
            out@.wf(),
            old_out.wf(),
            (w as int, h as int) == spec_common_extent(src@, dst@, old_out),
            w <= src@.width && w <= dst@.width && w <= old_out.width,
            h <= src@.height && h <= dst@.height && h <= old_out.height,
            old_out.same_shape(out@),
            out_channel == old_out.channel,
            src_channel == src@.channel,
            dst_channel == dst@.channel,
            y <= h,
            forall|x: int, y: int|
                0 <= x < w && 0 <= y < h ==> op_accepts(*op, #[trigger] src@.rgba(x, y), dst@.rgba(x, y)),
            forall|i: int|
                0 <= i < old_out.buffer.len() && !old_out.covers(w as int, y as int, i)
                    ==> #[trigger] out@.buffer[i] == old_out.buffer[i],
            forall|px: int, py: int|
                0 <= px < w && 0 <= py < y ==> #[trigger] out@.at(px, py) == spec_pack(
                    spec_op_rgba(*op, src@.rgba(px, py), dst@.rgba(px, py)),
                    out_channel,
                ),
        decreases h - y,
    {
        let mut x: u32 = 0;
        while x < w
            invariant
                src@.wf(),
                dst@.wf(),
                out@.wf(),
                old_out.wf(),
                w <= src@.width && w <= dst@.width && w <= old_out.width,
                h <= src@.height && h <= dst@.height && h <= old_out.height,
                old_out.same_shape(out@),
                out_channel == old_out.channel,
                src_channel == src@.channel,
                dst_channel == dst@.channel,
                y < h,
                x <= w,
                forall|x: int, y: int|
                    0 <= x < w && 0 <= y < h ==> op_accepts(*op, #[trigger] src@.rgba(x, y), dst@.rgba(x, y)),
                forall|i: int|
                    0 <= i < old_out.buffer.len() && !old_out.covers(w as int, y as int, i)
                        && !old_out.covers_row(x as int, y as int, i) ==> #[trigger] out@.buffer[i]
                        == old_out.buffer[i],
                forall|px: int, py: int|
                    (0 <= px < w && 0 <= py < y || 0 <= px < x && py == y) ==> #[trigger] out@.at(
                        px,
                        py,
                    ) == spec_pack(spec_op_rgba(*op, src@.rgba(px, py), dst@.rgba(px, py)), out_channel),
            decreases w - x,
        {
            let s = unpack_pixel(src.get_pixel(x, y), src_channel);
            let d = unpack_pixel(dst.get_pixel(x, y), dst_channel);
            assert(op_accepts(*op, src@.rgba(x as int, y as int), dst@.rgba(x as int, y as int)));
            let q = pack_pixel(op_rgba(op, s, d), out_channel);
            proof {
                lemma_write_step(old_out, out@, w as int, x as int, y as int, q);
            }
            out.set_pixel(x, y, q);
            x = x + 1;
        }
        proof {
            lemma_row_done(old_out, out@, w as int, y as int);
        }
        y = y + 1;
    }
}

/// The width and height that two surfaces share.
pub open spec fn spec_common_extent2(a: SurfaceView, b: SurfaceView) -> (int, int) {
    (spec_min(a.width as int, b.width as int), spec_min(a.height as int, b.height as int))
}

/// Replaces each pixel of `dst` by `op` of the pixel of `src` at the same
/// place and itself, over the corner that both surfaces share.
pub(crate) fn combine_surfaces_in_place(src: &Surface, dst: &mut Surface, op: &PixelOp)
    requires
        src@.wf(),
        old(dst)@.wf(),
        forall|x: int, y: int|
            0 <= x < spec_common_extent2(src@, old(dst)@).0 && 0 <= y < spec_common_extent2(
                src@,
                old(dst)@,
            ).1 ==> op_accepts(*op, #[trigger] src@.rgba(x, y), old(dst)@.rgba(x, y)),
    ensures
        old(dst)@.changed_within(
            final(dst)@,
            spec_common_extent2(src@, old(dst)@).0,
            spec_common_extent2(src@, old(dst)@).1,
        ),
        final(dst)@.wf(),
        forall|x: int, y: int|
            0 <= x < spec_common_extent2(src@, old(dst)@).0 && 0 <= y < spec_common_extent2(
                src@,
                old(dst)@,
            ).1 ==> #[trigger] final(dst)@.at(x, y) == spec_pack(
                spec_op_rgba(*op, src@.rgba(x, y), old(dst)@.rgba(x, y)),
                old(dst)@.channel,
            ),
{
    let w = if src.width() < dst.width() {
        src.width()
    } else {
        dst.width()
    };
    let h = if src.height() < dst.height() {
        src.height()
    } else {
        dst.height()
    };
    let channel = dst.channel();
    let src_channel = src.channel();
    let ghost old_dst = dst@;
    let mut y: u32 = 0;
    while y < h
        invariant
            src@.wf(),
            dst@.wf(),
            old_dst.wf(),
            (w as int, h as int) == spec_common_extent2(src@, old_dst),
            w <= src@.width && w <= old_dst.width,
            h <= src@.height && h <= old_dst.height,
            old_dst.same_shape(dst@),
            channel == old_dst.channel,
            src_channel == src@.channel,
            y <= h,
            forall|x: int, y: int|
                0 <= x < w && 0 <= y < h ==> op_accepts(*op, #[trigger] src@.rgba(x, y), old_dst.rgba(x, y)),
            forall|i: int|
                0 <= i < old_dst.buffer.len() && !old_dst.covers(w as int, y as int, i)
                    ==> #[trigger] dst@.buffer[i] == old_dst.buffer[i],
            forall|px: int, py: int|
                0 <= px < w && 0 <= py < y ==> #[trigger] dst@.at(px, py) == spec_pack(
                    spec_op_rgba(*op, src@.rgba(px, py), old_dst.rgba(px, py)),
                    channel,
                ),
        decreases h - y,
    {
        let mut x: u32 = 0;
        while x < w
            invariant
                src@.wf(),
                dst@.wf(),
                old_dst.wf(),
                w <= src@.width && w <= old_dst.width,
                h <= src@.height && h <= old_dst.height,
                old_dst.same_shape(dst@),
                channel == old_dst.channel,
                src_channel == src@.channel,
                y < h,
                x <= w,
                forall|x: int, y: int|
                    0 <= x < w && 0 <= y < h ==> op_accepts(*op, #[trigger] src@.rgba(x, y), old_dst.rgba(x, y)),
                forall|i: int|
                    0 <= i < old_dst.buffer.len() && !old_dst.covers(w as int, y as int, i)
                        && !old_dst.covers_row(x as int, y as int, i) ==> #[trigger] dst@.buffer[i]
                        == old_dst.buffer[i],
                forall|px: int, py: int|
                    (0 <= px < w && 0 <= py < y || 0 <= px < x && py == y) ==> #[trigger] dst@.at(
                        px,
                        py,
                    ) == spec_pack(spec_op_rgba(*op, src@.rgba(px, py), old_dst.rgba(px, py)), channel),
            decreases w - x,
        {
            proof {
                lemma_write_step(old_dst, dst@, w as int, x as int, y as int, 0);
            }
            let s = unpack_pixel(src.get_pixel(x, y), src_channel);
            let d = unpack_pixel(dst.get_pixel(x, y), channel);
            assert(op_accepts(*op, src@.rgba(x as int, y as int), old_dst.rgba(x as int, y as int)));
            let q = pack_pixel(op_rgba(op, s, d), channel);
            proof {
                lemma_write_step(old_dst, dst@, w as int, x as int, y as int, q);
            }
            dst.set_pixel(x, y, q);
            x = x + 1;
        }
        proof {
            lemma_row_done(old_dst, dst@, w as int, y as int);
        }
        y = y + 1;
    }
}

} // verus!
