use plutofilter_rs::blur::{box_blur_line, calc_kernel_size};
use plutofilter_rs::pixel::{div255, pack_pixel, unpack_pixel};
use plutofilter_rs::{
    BlendMode, ColorChannel, CompositeOperator, Pixel, Rgba, Surface, SurfaceError, FIXED_ONE,
};

fn surface(pixels: Vec<u32>, width: u32, height: u32) -> Surface {
    Surface::make(pixels, width, height, width, None).unwrap()
}

fn blank(width: u32, height: u32) -> Surface {
    surface(vec![0u32; (width * height) as usize], width, height)
}

const P: u32 = 0xff3264c8;
const Q: u32 = 0x80143c64;

#[test]
fn make_accepts_exact_buffer() {
    let s = Surface::make(vec![0u32; 12], 3, 4, 3, None).unwrap();
    assert_eq!(s.width(), 3);
    assert_eq!(s.height(), 4);
    assert_eq!(s.stride(), 3);
    assert_eq!(s.offset(), 0);
    assert_eq!(s.channel(), ColorChannel::RGBA32);
}

#[test]
fn make_accepts_padded_rows() {
    let s = Surface::make(vec![0u32; 20], 3, 4, 5, Some(ColorChannel::ARGB32)).unwrap();
    assert_eq!(s.stride(), 5);
    assert_eq!(s.channel(), ColorChannel::ARGB32);
}

#[test]
fn make_rejects_short_buffer() {
    let r = Surface::make(vec![0u32; 11], 3, 4, 3, None);
    assert_eq!(r.err(), Some(SurfaceError::InvalidPixelLength));
}

#[test]
fn make_rejects_stride_below_width() {
    let r = Surface::make(vec![0u32; 100], 5, 4, 3, None);
    assert_eq!(r.err(), Some(SurfaceError::StrideLessThanWidth));
}

#[test]
fn make_checks_length_first() {
    let r = Surface::make(vec![0u32; 2], 5, 4, 3, None);
    assert_eq!(r.err(), Some(SurfaceError::InvalidPixelLength));
}

#[test]
fn make_accepts_empty_surface() {
    let s = Surface::make(Vec::new(), 0, 0, 0, None).unwrap();
    assert_eq!(s.width(), 0);
    assert!(Surface::make(Vec::new(), 0, 7, 0, None).is_ok());
    assert_eq!(
        Surface::make(Vec::new(), 1, 1, 1, None).err(),
        Some(SurfaceError::InvalidPixelLength)
    );
}

#[test]
fn error_messages() {
    assert_eq!(
        SurfaceError::StrideLessThanWidth.message(),
        "Stride should be greater than the width"
    );
    assert_eq!(
        SurfaceError::InvalidPixelLength.message(),
        "Number of pixels should be more than stride * height"
    );
}

#[test]
fn make_sub_views_same_buffer() {
    let pixels: Vec<u32> = (0..20).collect();
    let s = Surface::make(pixels, 4, 5, 4, None).unwrap();
    let sub = s.make_sub(1, 2, 2, 10);
    assert_eq!(sub.width(), 2);
    assert_eq!(sub.height(), 3);
    assert_eq!(sub.offset(), 9);
    assert_eq!(sub.get_pixel(0, 0), 9);
    assert_eq!(sub.get_pixel(1, 2), 18);
    assert_eq!(sub.pixels().len(), 20);
}

#[test]
fn make_sub_clamps_origin() {
    let s = surface(vec![0u32; 6], 3, 2);
    let sub = s.make_sub(10, 10, 5, 5);
    assert_eq!(sub.width(), 0);
    assert_eq!(sub.height(), 0);
}

#[test]
fn pixel_conversions() {
    let p = Pixel::from(0x11223344u32);
    assert_eq!(u32::from(p), 0x11223344);
}

#[test]
fn unpack_and_pack_layouts() {
    let c = unpack_pixel(0x44332211, ColorChannel::RGBA32);
    assert_eq!(c, Rgba { r: 0x11, g: 0x22, b: 0x33, a: 0x44 });
    let c = unpack_pixel(0x44332211, ColorChannel::ARGB32);
    assert_eq!(c, Rgba { a: 0x11, r: 0x22, g: 0x33, b: 0x44 });
    assert_eq!(pack_pixel(c, ColorChannel::ARGB32), 0x44332211);
    assert_eq!(pack_pixel(c, ColorChannel::RGBA32), 0x11443322);
}

#[test]
fn div255_values() {
    assert_eq!(div255(0), 0);
    assert_eq!(div255(255 * 255), 255);
    assert_eq!(div255(8192), 32);
    assert_eq!(div255(127), 0);
    assert_eq!(div255(128), 1);
}

#[test]
fn blend_white_over_transparent() {
    let src = surface(vec![0xFFFFFFFF; 4], 2, 2);
    let dst = surface(vec![0; 4], 2, 2);
    let mut out = blank(2, 2);
    Surface::blend(&src, &dst, &mut out, BlendMode::Normal);
    assert_eq!(out.into_pixels(), vec![0xFFFFFFFF; 4]);
}

#[test]
fn blend_normal_transparent_backdrop_gives_source() {
    let src = surface(vec![P, Q, 0, 0x40102030], 2, 2);
    let dst = surface(vec![0; 4], 2, 2);
    let mut out = blank(2, 2);
    Surface::blend(&src, &dst, &mut out, BlendMode::Normal);
    assert_eq!(out.into_pixels(), vec![P, Q, 0, 0x40102030]);
}

#[test]
fn blend_modes_on_one_pixel() {
    let s = 0x80143c64u32;
    let d = 0xc8965a1eu32;
    let expected = [
        (BlendMode::Normal, 0xe45f6973u32),
        (BlendMode::Multiply, 0xe45b4f30),
        (BlendMode::Screen, 0xe49e8176),
        (BlendMode::Overlay, 0xe489643c),
        (BlendMode::Darken, 0xe45f6734),
        (BlendMode::Lighten, 0xe49a6973),
        (BlendMode::ColorDodge, 0xe4a88f69),
        (BlendMode::ColorBurn, 0xe44f3a25),
        (BlendMode::HardLight, 0xe4676464),
        (BlendMode::SoftLight, 0xe48d6540),
        (BlendMode::Difference, 0xe48a3c64),
        (BlendMode::Exclusion, 0xe4926c6a),
    ];
    for (mode, want) in expected {
        let src = surface(vec![s], 1, 1);
        let dst = surface(vec![d], 1, 1);
        let mut out = blank(1, 1);
        Surface::blend(&src, &dst, &mut out, mode);
        assert_eq!(out.get_pixel(0, 0), want, "{:?}", mode);
    }
}

#[test]
fn blend_uses_common_extent() {
    let src = surface(vec![0xFFFFFFFF; 6], 3, 2);
    let dst = surface(vec![0; 2], 2, 1);
    let mut out = surface(vec![7; 9], 3, 3);
    Surface::blend(&src, &dst, &mut out, BlendMode::Normal);
    assert_eq!(
        out.into_pixels(),
        vec![0xFFFFFFFF, 0xFFFFFFFF, 7, 7, 7, 7, 7, 7, 7]
    );
}

#[test]
fn composite_operators_on_one_pixel() {
    let s = 0x80143c64u32;
    let d = 0xc8965a1eu32;
    let expected = [
        (CompositeOperator::Over, 0xe45f6973u32),
        (CompositeOperator::In, 0x64102f4e),
        (CompositeOperator::Out, 0x1c040d16),
        (CompositeOperator::Atop, 0xc85b5c5d),
        (CompositeOperator::Xor, 0x804f3a25),
    ];
    for (op, want) in expected {
        let src = surface(vec![s], 1, 1);
        let dst = surface(vec![d], 1, 1);
        let mut out = blank(1, 1);
        Surface::composite(&src, &dst, &mut out, op);
        assert_eq!(out.get_pixel(0, 0), want, "{:?}", op);
    }
}

#[test]
fn composite_over_opaque_source() {
    let src = surface(vec![P, 0xff000000, 0xffffffff, 0xff102030], 2, 2);
    let dst = surface(vec![Q, Q, 0x40102030, 0], 2, 2);
    let mut out = blank(2, 2);
    Surface::composite(&src, &dst, &mut out, CompositeOperator::Over);
    assert_eq!(out.into_pixels(), vec![P, 0xff000000, 0xffffffff, 0xff102030]);
}

#[test]
fn composite_xor_is_symmetric() {
    let a = vec![P, Q, 0, 0x40102030];
    let b = vec![Q, 0x20101010, P, 0xc8965a1e];
    let (sa, sb) = (surface(a.clone(), 2, 2), surface(b.clone(), 2, 2));
    let mut out1 = blank(2, 2);
    let mut out2 = blank(2, 2);
    Surface::composite(&sa, &sb, &mut out1, CompositeOperator::Xor);
    Surface::composite(&sb, &sa, &mut out2, CompositeOperator::Xor);
    assert_eq!(out1.into_pixels(), out2.into_pixels());
}

#[test]
fn composite_arithmetic_second_coefficient_copies_first() {
    let in1 = surface(vec![P, 0xff000000, 0xffffffff, 0xff102030], 2, 2);
    let in2 = surface(vec![0xff808080, 0xff123456, 0xff000000, 0xffffffff], 2, 2);
    let mut out = blank(2, 2);
    Surface::composite_arithmetic(&in1, &in2, &mut out, 0, FIXED_ONE, 0, 0);
    assert_eq!(out.into_pixels(), vec![P, 0xff000000, 0xffffffff, 0xff102030]);
}

#[test]
fn composite_arithmetic_value() {
    let in1 = surface(vec![0x80143c64], 1, 1);
    let in2 = surface(vec![0xc8965a1e], 1, 1);
    let mut out = blank(1, 1);
    Surface::composite_arithmetic(&in1, &in2, &mut out, 500_000, 250_000, 250_000, -100_000);
    assert_eq!(out.get_pixel(0, 0), 0x6a16160c);
}

#[test]
fn kernel_size_values() {
    assert_eq!(calc_kernel_size(2_000_000), 4);
    assert_eq!(calc_kernel_size(5_000_000), 9);
    assert_eq!(calc_kernel_size(0), 0);
    assert_eq!(calc_kernel_size(-1_000_000), 0);
}

#[test]
fn gaussian_blur_zero_is_copy() {
    let pixels = vec![P, Q, 0, 0x40102030, 0x12345678, 0xffffffff];
    let input = surface(pixels.clone(), 3, 2);
    let mut out = blank(3, 2);
    Surface::gaussian_blur(&input, &mut out, 0, 0);
    assert_eq!(out.into_pixels(), pixels);
}

#[test]
fn gaussian_blur_one_row() {
    let input = surface(vec![0xff000000, 0xffffffff, 0xff000000, 0xff3c1e5a, 0xff0000ff], 5, 1);
    let mut out = blank(5, 1);
    // A deviation of 1.6 gives a box of size 3.
    assert_eq!(calc_kernel_size(1_600_000), 3);
    Surface::gaussian_blur(&input, &mut out, 1_600_000, 0);
    assert_eq!(
        out.into_pixels(),
        vec![0x7a313032, 0xcf484555, 0xeb453f69, 0xcf2b2362, 0x7a140e3f]
    );
}

#[test]
fn gaussian_blur_keeps_flat_image() {
    let input = surface(vec![0xff405060; 64], 8, 8);
    let mut out = blank(8, 8);
    Surface::gaussian_blur(&input, &mut out, 1_000_000, 1_000_000);
    let px = out.into_pixels();
    // Away from the border every window sees eight-by-eight of the same colour.
    for y in 3..5 {
        for x in 3..5 {
            assert_eq!(px[y * 8 + x], 0xff405060);
        }
    }
}

#[test]
fn box_blur_line_flat_interior() {
    let c = Rgba { r: 10, g: 20, b: 30, a: 255 };
    let line = vec![c; 9];
    let out = box_blur_line(&line, 3);
    for o in 1..8 {
        assert_eq!(out[o], c);
    }
    assert_eq!(out[0], Rgba { r: 6, g: 13, b: 20, a: 170 });
}

#[test]
fn blend_in_place_matches_blend() {
    let s = vec![0x80143c64u32, P];
    let d = vec![0xc8965a1eu32, Q];
    let src = surface(s, 2, 1);
    let mut out = blank(2, 1);
    let backdrop = surface(d.clone(), 2, 1);
    Surface::blend(&src, &backdrop, &mut out, BlendMode::Multiply);
    let mut dst = surface(d, 2, 1);
    Surface::blend_in_place(&src, &mut dst, BlendMode::Multiply);
    assert_eq!(dst.into_pixels(), out.into_pixels());
}

#[test]
fn composite_in_place_over() {
    let src = surface(vec![0x80143c64], 1, 1);
    let mut dst = surface(vec![0xc8965a1e], 1, 1);
    Surface::composite_in_place(&src, &mut dst, CompositeOperator::Over);
    assert_eq!(dst.get_pixel(0, 0), 0xe45f6973);
}

#[test]
fn gaussian_blur_in_place_matches() {
    let pixels = vec![0xff000000, 0xffffffff, 0xff000000, 0xff3c1e5a, 0xff0000ff];
    let mut s = surface(pixels, 5, 1);
    Surface::gaussian_blur_in_place(&mut s, 1_600_000, 0);
    assert_eq!(
        s.into_pixels(),
        vec![0x7a313032, 0xcf484555, 0xeb453f69, 0xcf2b2362, 0x7a140e3f]
    );
}

#[test]
fn is_premultiplied_checks_every_pixel() {
    assert!(surface(vec![P, Q, 0], 3, 1).is_premultiplied());
    assert!(!surface(vec![P, 0x10ff0000], 2, 1).is_premultiplied());
}
