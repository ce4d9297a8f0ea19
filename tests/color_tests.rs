use plutofilter_rs::color::{identity_matrix, linear_to_srgb_value, srgb_to_linear_value};
use plutofilter_rs::{Surface, FIXED_ONE};

fn surface(pixels: Vec<u32>, width: u32, height: u32) -> Surface {
    Surface::make(pixels, width, height, width, None).unwrap()
}

fn blank(width: u32, height: u32) -> Surface {
    surface(vec![0u32; (width * height) as usize], width, height)
}

const P: u32 = 0xff3264c8;
const Q: u32 = 0x80143c64;

fn run(f: fn(&Surface, &mut Surface)) -> Vec<u32> {
    let input = surface(vec![P, Q], 2, 1);
    let mut out = blank(2, 1);
    f(&input, &mut out);
    out.into_pixels()
}

#[test]
fn identity_keeps_opaque_pixels() {
    let m = identity_matrix();
    let input = surface(vec![P, 0xff000000, 0xffffffff, 0xff102030], 2, 2);
    let mut out = blank(2, 2);
    Surface::color_transform(&input, &mut out, &m);
    assert_eq!(out.into_pixels(), vec![P, 0xff000000, 0xffffffff, 0xff102030]);
}

#[test]
fn identity_on_translucent_pixels_within_one() {
    let m = identity_matrix();
    let pixels = vec![Q, 0x40102030, 0x02010101, 0x7f7f7f7f];
    let input = surface(pixels.clone(), 4, 1);
    let mut out = blank(4, 1);
    Surface::color_transform(&input, &mut out, &m);
    let got = out.into_pixels();
    for (a, b) in pixels.iter().zip(got.iter()) {
        for shift in [0, 8, 16, 24] {
            let ca = (a >> shift) & 0xff;
            let cb = (b >> shift) & 0xff;
            assert!(cb <= ca && ca <= cb + 1, "{:x} {:x}", a, b);
        }
        assert_eq!(a >> 24, b >> 24);
    }
}

#[test]
fn color_transform_in_place_matches() {
    let m = identity_matrix();
    let mut s = surface(vec![P, 0xff000000], 2, 1);
    Surface::color_transform_in_place(&mut s, &m);
    assert_eq!(s.into_pixels(), vec![P, 0xff000000]);
}

#[test]
fn opacity_one_and_zero() {
    let input = surface(vec![P, Q, 0xffffffff], 3, 1);
    let mut out = blank(3, 1);
    Surface::color_transform_opacity(&input, &mut out, FIXED_ONE as i32);
    assert_eq!(out.get_pixel(0, 0), P);
    assert_eq!(out.get_pixel(2, 0), 0xffffffff);
    Surface::color_transform_opacity(&input, &mut out, 0);
    assert_eq!(out.into_pixels(), vec![0, 0, 0]);
}

#[test]
fn opacity_half() {
    assert_eq!(
        run(|i, o| Surface::color_transform_opacity(i, o, 500_000)),
        vec![0x7f193264, 0x40091e32]
    );
}

#[test]
fn brightness_half() {
    assert_eq!(
        run(|i, o| Surface::color_transform_brightness(i, o, 500_000)),
        vec![0xff193264, 0x80091d31]
    );
}

#[test]
fn invert_full() {
    assert_eq!(
        run(|i, o| Surface::color_transform_invert(i, o, 1_000_000)),
        vec![0xffcd9b37, 0x806c441c]
    );
}

#[test]
fn contrast_one_and_three_quarters() {
    assert_eq!(
        run(|i, o| Surface::color_transform_contrast(i, o, 1_750_000)),
        vec![0xff004ffe, 0x8000387e]
    );
}

#[test]
fn saturate_half() {
    assert_eq!(
        run(|i, o| Surface::color_transform_saturate(i, o, 500_000)),
        vec![0xff536c9e, 0x802a3e52]
    );
}

#[test]
fn grayscale_full_and_half() {
    assert_eq!(
        run(|i, o| Surface::color_transform_grayscale(i, o, 1_000_000)),
        vec![0xff757575, 0x80414141]
    );
    assert_eq!(
        run(|i, o| Surface::color_transform_grayscale(i, o, 500_000)),
        vec![0xff536c9e, 0x802a3e52]
    );
}

#[test]
fn sepia_full() {
    assert_eq!(
        run(|i, o| Surface::color_transform_sepia(i, o, 1_000_000)),
        vec![0xff7292a4, 0x803d4f59]
    );
}

#[test]
fn hue_rotate_quarter_turn() {
    assert_eq!(
        run(|i, o| Surface::color_transform_hue_rotate(i, o, 0, 1_000_000)),
        vec![0xff239232, 0x801e5213]
    );
}

#[test]
fn hue_rotate_zero_is_identity_on_opaque() {
    let input = surface(vec![P], 1, 1);
    let mut out = blank(1, 1);
    Surface::color_transform_hue_rotate(&input, &mut out, 1_000_000, 0);
    assert_eq!(out.get_pixel(0, 0), P);
}

#[test]
fn luminance_to_alpha_white() {
    let input = surface(vec![0xffffffff, 0xff000000], 2, 1);
    let mut out = blank(2, 1);
    Surface::color_transform_luminance_to_alpha(&input, &mut out);
    assert_eq!(out.into_pixels(), vec![0xff000000, 0]);
}

#[test]
fn srgb_tables() {
    assert_eq!(srgb_to_linear_value(128), 55);
    assert_eq!(srgb_to_linear_value(255), 255);
    assert_eq!(linear_to_srgb_value(55), 128);
    assert_eq!(linear_to_srgb_value(1), 13);
    let input = surface(vec![0xff80ff00], 1, 1);
    let mut out = blank(1, 1);
    Surface::color_transform_srgb_to_linear_rgb(&input, &mut out);
    assert_eq!(out.get_pixel(0, 0), 0xff37ff00);
    let back = surface(vec![0xff37ff00], 1, 1);
    Surface::color_transform_linear_rgb_to_srgb(&back, &mut out);
    assert_eq!(out.get_pixel(0, 0), 0xff80ff00);
}

#[test]
fn opacity_one_may_lower_translucent_channel() {
    // Alpha 16, red 1: unpremultiplied red is 15, premultiplied again 0.
    let input = surface(vec![0x10000001], 1, 1);
    let mut out = blank(1, 1);
    Surface::color_transform_opacity(&input, &mut out, FIXED_ONE as i32);
    assert_eq!(out.get_pixel(0, 0), 0x10000000);
}
