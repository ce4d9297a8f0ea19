//! The filters on surfaces: colour matrices, blending and compositing.

use vstd::prelude::*;
use crate::apply::{
    PixelOp, PixelTransform, combine_surfaces, combine_surfaces_in_place, op_accepts,
    spec_color_transform_pixel, spec_common_extent, spec_common_extent2,
    spec_table_pixel, transform_accepts, transform_surface, transform_surface_in_place,
};
use crate::blend::{BlendMode, spec_blend_rgba};
use crate::color::{
    brightness_matrix, contrast_matrix, grayscale_matrix, hue_rotate_matrix,
    invert_matrix, linear_to_srgb_table, luminance_to_alpha_matrix, opacity_matrix, saturate_matrix,
    sepia_matrix, spec_brightness_matrix, spec_contrast_matrix, spec_grayscale_matrix,
    spec_hue_rotate_matrix, spec_invert_matrix, spec_luminance_to_alpha_matrix, spec_opacity_matrix,
    spec_saturate_matrix, spec_sepia_matrix, srgb_to_linear_table,
};
use crate::composite::{CompositeOperator, spec_arithmetic_rgba, spec_composite_rgba};
use crate::pixel::{Rgba, is_premultiplied, spec_pack};
use crate::surface::{Surface, SurfaceView, spec_min};

verus! {

/// `new` is `old` with each pixel of the corner that `old` shares with
/// `input` replaced by `f` of the pixel of `input` at the same place, and
/// nothing else changed.
pub open spec fn maps_into(
    input: SurfaceView,
    old: SurfaceView,
    new: SurfaceView,
    f: spec_fn(u32) -> u32,
) -> bool {
    let w = spec_min(input.width as int, old.width as int);
    let h = spec_min(input.height as int, old.height as int);
    &&& new.wf()
    &&& old.changed_within(new, w, h)
    &&& forall|x: int, y: int|
        0 <= x < w && 0 <= y < h ==> #[trigger] new.at(x, y) == f(input.at(x, y))
}

/// `new` is `old` with each pixel of the corner shared by `src`, `dst` and
/// `old` replaced by `f` of the channels of `src` and `dst` at the same place,
/// packed in the layout of `old`; nothing else changed.
pub open spec fn combines_into(
    src: SurfaceView,
    dst: SurfaceView,
    old: SurfaceView,
    new: SurfaceView,
    f: spec_fn(Rgba, Rgba) -> Rgba,
) -> bool {
    let (w, h) = spec_common_extent(src, dst, old);
    &&& new.wf()
    &&& old.changed_within(new, w, h)
    &&& forall|x: int, y: int|
        0 <= x < w && 0 <= y < h ==> #[trigger] new.at(x, y) == spec_pack(
            f(src.rgba(x, y), dst.rgba(x, y)),
            old.channel,
        )
}

impl Surface {
    /// Applies the colour matrix `matrix` (coefficients in fixed point, see
    /// `FIXED_ONE`) to every pixel of `input` that `output` also has, writing
    /// to `output`.
    pub fn color_transform(input: &Surface, output: &mut Surface, matrix: &[i64; 20])
        requires
            input@.wf(),
            old(output)@.wf(),
        ensures
            maps_into(
                input@,
                old(output)@,
                final(output)@,
                |p: u32| spec_color_transform_pixel(matrix@, p, input@.channel, old(output)@.channel),
            ),
    {
        transform_surface(input, output, &PixelTransform::Matrix(*matrix));
    }

    /// Applies the colour matrix `matrix` to every pixel of `surface`, in place.
    pub fn color_transform_in_place(surface: &mut Surface, matrix: &[i64; 20])
        requires
            old(surface)@.wf(),
        ensures
            maps_into(
                old(surface)@,
                old(surface)@,
                final(surface)@,
                |p: u32| spec_color_transform_pixel(matrix@, p, old(surface)@.channel, old(surface)@.channel),
            ),
    {
        transform_surface_in_place(surface, &PixelTransform::Matrix(*matrix));
    }

    /// Scales alpha by `amount` (fixed point).
    pub fn color_transform_opacity(input: &Surface, output: &mut Surface, amount: i32)
        requires
            input@.wf(),
            old(output)@.wf(),
        ensures
            maps_into(
                input@,
                old(output)@,
                final(output)@,
                |p: u32| spec_color_transform_pixel(spec_opacity_matrix(amount as int), p, input@.channel, old(output)@.channel),
            ),
    {
        let m = opacity_matrix(amount);
        Surface::color_transform(input, output, &m);
    }

    /// Scales red, green and blue by `amount` (fixed point).
    pub fn color_transform_brightness(input: &Surface, output: &mut Surface, amount: i32)
        requires
            input@.wf(),
            old(output)@.wf(),
        ensures
            maps_into(
                input@,
                old(output)@,
                final(output)@,
                |p: u32| spec_color_transform_pixel(spec_brightness_matrix(amount as int), p, input@.channel, old(output)@.channel),
            ),
    {
        let m = brightness_matrix(amount);
        Surface::color_transform(input, output, &m);
    }

    /// Inverts the colours by `amount` (fixed point).
    pub fn color_transform_invert(input: &Surface, output: &mut Surface, amount: i32)
        requires
            input@.wf(),
            old(output)@.wf(),
        ensures
            maps_into(
                input@,
                old(output)@,
                final(output)@,
                |p: u32| spec_color_transform_pixel(spec_invert_matrix(amount as int), p, input@.channel, old(output)@.channel),
            ),
    {
        let m = invert_matrix(amount);
        Surface::color_transform(input, output, &m);
    }

    /// Changes the contrast by `amount` (fixed point).
    pub fn color_transform_contrast(input: &Surface, output: &mut Surface, amount: i32)
        requires
            input@.wf(),
            old(output)@.wf(),
        ensures
            maps_into(
                input@,
                old(output)@,
                final(output)@,
                |p: u32| spec_color_transform_pixel(spec_contrast_matrix(amount as int), p, input@.channel, old(output)@.channel),
            ),
    {
        let m = contrast_matrix(amount);
        Surface::color_transform(input, output, &m);
    }

    /// Changes the saturation by `amount` (fixed point).
    pub fn color_transform_saturate(input: &Surface, output: &mut Surface, amount: i32)
        requires
            input@.wf(),
            old(output)@.wf(),
        ensures
            maps_into(
                input@,
                old(output)@,
                final(output)@,
                |p: u32| spec_color_transform_pixel(spec_saturate_matrix(amount as int), p, input@.channel, old(output)@.channel),
            ),
    {
        let m = saturate_matrix(amount);
        Surface::color_transform(input, output, &m);
    }

    /// Moves the colours toward grey by `amount` (fixed point).
    pub fn color_transform_grayscale(input: &Surface, output: &mut Surface, amount: i32)
        requires
            input@.wf(),
            old(output)@.wf(),
        ensures
            maps_into(
                input@,
                old(output)@,
                final(output)@,
                |p: u32| spec_color_transform_pixel(spec_grayscale_matrix(amount as int), p, input@.channel, old(output)@.channel),
            ),
    {
        let m = grayscale_matrix(amount);
        Surface::color_transform(input, output, &m);
    }

    /// Moves the colours toward sepia by `amount` (fixed point).
    pub fn color_transform_sepia(input: &Surface, output: &mut Surface, amount: i32)
        requires
            input@.wf(),
            old(output)@.wf(),
        ensures
            maps_into(
                input@,
                old(output)@,
                final(output)@,
                |p: u32| spec_color_transform_pixel(spec_sepia_matrix(amount as int), p, input@.channel, old(output)@.channel),
            ),
    {
        let m = sepia_matrix(amount);
        Surface::color_transform(input, output, &m);
    }

    /// Rotates the hue by the angle whose cosine and sine are `cos` and `sin`
    /// (fixed point).
    pub fn color_transform_hue_rotate(input: &Surface, output: &mut Surface, cos: i32, sin: i32)
        requires
            input@.wf(),
            old(output)@.wf(),
        ensures
            maps_into(
                input@,
                old(output)@,
                final(output)@,
                |p: u32| spec_color_transform_pixel(spec_hue_rotate_matrix(cos as int, sin as int), p, input@.channel, old(output)@.channel),
            ),
    {
        let m = hue_rotate_matrix(cos, sin);
        Surface::color_transform(input, output, &m);
    }

    /// Replaces alpha by the luminance and clears the colours.
    pub fn color_transform_luminance_to_alpha(input: &Surface, output: &mut Surface)
        requires
            input@.wf(),
            old(output)@.wf(),
        ensures
            maps_into(
                input@,
                old(output)@,
                final(output)@,
                |p: u32| spec_color_transform_pixel(spec_luminance_to_alpha_matrix(), p, input@.channel, old(output)@.channel),
            ),
    {
        let m = luminance_to_alpha_matrix();
        Surface::color_transform(input, output, &m);
    }

    /// Converts the colours from sRGB to linear light.
    pub fn color_transform_srgb_to_linear_rgb(input: &Surface, output: &mut Surface)
        requires
            input@.wf(),
            old(output)@.wf(),
            input@.premultiplied_within(
                spec_min(input@.width as int, old(output)@.width as int),
                spec_min(input@.height as int, old(output)@.height as int),
            ),
        ensures
            maps_into(
                input@,
                old(output)@,
                final(output)@,
                |p: u32| spec_table_pixel(srgb_to_linear_table(), p, input@.channel, old(output)@.channel),
            ),
    {
        let t = PixelTransform::SrgbToLinear;
        assert forall|x: int, y: int|
            0 <= x < spec_min(input@.width as int, output@.width as int) && 0 <= y < spec_min(
                input@.height as int,
                output@.height as int,
            ) implies transform_accepts(t, #[trigger] input@.at(x, y), input@.channel) by {
            assert(is_premultiplied(input@.rgba(x, y)));
        }
        transform_surface(input, output, &t);
    }

    /// Converts the colours from linear light to sRGB.
    pub fn color_transform_linear_rgb_to_srgb(input: &Surface, output: &mut Surface)
        requires
            input@.wf(),
            old(output)@.wf(),
            input@.premultiplied_within(
                spec_min(input@.width as int, old(output)@.width as int),
                spec_min(input@.height as int, old(output)@.height as int),
            ),
        ensures
            maps_into(
                input@,
                old(output)@,
                final(output)@,
                |p: u32| spec_table_pixel(linear_to_srgb_table(), p, input@.channel, old(output)@.channel),
            ),
    {
        let t = PixelTransform::LinearToSrgb;
        assert forall|x: int, y: int|
            0 <= x < spec_min(input@.width as int, output@.width as int) && 0 <= y < spec_min(
                input@.height as int,
                output@.height as int,
            ) implies transform_accepts(t, #[trigger] input@.at(x, y), input@.channel) by {
            assert(is_premultiplied(input@.rgba(x, y)));
        }
        transform_surface(input, output, &t);
    }

    /// Blends the source `src` over the backdrop `dst` by `mode`, writing to `out`.
    pub fn blend(src: &Surface, dst: &Surface, out: &mut Surface, mode: BlendMode)
        requires
            src@.wf(),
            dst@.wf(),
            old(out)@.wf(),
            src@.premultiplied_within(
                spec_common_extent(src@, dst@, old(out)@).0,
                spec_common_extent(src@, dst@, old(out)@).1,
            ),
            dst@.premultiplied_within(
                spec_common_extent(src@, dst@, old(out)@).0,
                spec_common_extent(src@, dst@, old(out)@).1,
            ),
        ensures
            combines_into(src@, dst@, old(out)@, final(out)@, |s: Rgba, d: Rgba| spec_blend_rgba(mode, s, d)),
    {
        combine_surfaces(src, dst, out, &PixelOp::Blend(mode));
    }

    /// Blends the source `src` over the backdrop `dst` by `mode`, writing the
    /// result over the backdrop.
    pub fn blend_in_place(src: &Surface, dst: &mut Surface, mode: BlendMode)
        requires
            src@.wf(),
            old(dst)@.wf(),
            src@.premultiplied_within(
                spec_common_extent2(src@, old(dst)@).0,
                spec_common_extent2(src@, old(dst)@).1,
            ),
            old(dst)@.premultiplied_within(
                spec_common_extent2(src@, old(dst)@).0,
                spec_common_extent2(src@, old(dst)@).1,
            ),
        ensures
            combines_into(src@, old(dst)@, old(dst)@, final(dst)@, |s: Rgba, d: Rgba| spec_blend_rgba(mode, s, d)),
    {
        let op = PixelOp::Blend(mode);
        let ghost (w, h) = spec_common_extent2(src@, dst@);
        assert forall|x: int, y: int| 0 <= x < w && 0 <= y < h implies op_accepts(op, #[trigger] src@.rgba(x, y), dst@.rgba(x, y)) by {
            assert(is_premultiplied(dst@.rgba(x, y)));
        }
        combine_surfaces_in_place(src, dst, &op);
    }

    /// Composites the source `src` with the backdrop `dst` by `op`, writing the
    /// result over the backdrop.
    pub fn composite_in_place(src: &Surface, dst: &mut Surface, op: CompositeOperator)
        requires
            src@.wf(),
            old(dst)@.wf(),
            src@.premultiplied_within(
                spec_common_extent2(src@, old(dst)@).0,
                spec_common_extent2(src@, old(dst)@).1,
            ),
            old(dst)@.premultiplied_within(
                spec_common_extent2(src@, old(dst)@).0,
                spec_common_extent2(src@, old(dst)@).1,
            ),
        ensures
            combines_into(src@, old(dst)@, old(dst)@, final(dst)@, |s: Rgba, d: Rgba| spec_composite_rgba(op, s, d)),
    {
        let pop = PixelOp::Composite(op);
        let ghost (w, h) = spec_common_extent2(src@, dst@);
        assert forall|x: int, y: int| 0 <= x < w && 0 <= y < h implies op_accepts(pop, #[trigger] src@.rgba(x, y), dst@.rgba(x, y)) by {
            assert(is_premultiplied(dst@.rgba(x, y)));
        }
        combine_surfaces_in_place(src, dst, &pop);
    }

    /// Composites the source `src` with the backdrop `dst` by `op`, writing to `out`.
    pub fn composite(src: &Surface, dst: &Surface, out: &mut Surface, op: CompositeOperator)
        requires
            src@.wf(),
            dst@.wf(),
            old(out)@.wf(),
            src@.premultiplied_within(
                spec_common_extent(src@, dst@, old(out)@).0,
                spec_common_extent(src@, dst@, old(out)@).1,
            ),
            dst@.premultiplied_within(
                spec_common_extent(src@, dst@, old(out)@).0,
                spec_common_extent(src@, dst@, old(out)@).1,
            ),
        ensures
            combines_into(src@, dst@, old(out)@, final(out)@, |s: Rgba, d: Rgba| spec_composite_rgba(op, s, d)),
    {
        combine_surfaces(src, dst, out, &PixelOp::Composite(op));
    }

    /// Combines `in1` and `in2` channel by channel as
    /// `k1 * s * d / 255 + k2 * s + k3 * d + k4 * 255` (coefficients in fixed
    /// point), writing to `out`.
    pub fn composite_arithmetic(
        in1: &Surface,
        in2: &Surface,
        out: &mut Surface,
        k1: i64,
        k2: i64,
        k3: i64,
        k4: i64,
    )
        requires
            in1@.wf(),
            in2@.wf(),
            old(out)@.wf(),
        ensures
            combines_into(
                in1@,
                in2@,
                old(out)@,
                final(out)@,
                |s: Rgba, d: Rgba| spec_arithmetic_rgba(k1 as int, k2 as int, k3 as int, k4 as int, s, d),
            ),
    {
        combine_surfaces(in1, in2, out, &PixelOp::Arithmetic(k1, k2, k3, k4));
    }
}

} // verus!
