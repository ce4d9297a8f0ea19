//! Colour-matrix filters and the sRGB transfer tables.
//!
//! Matrix coefficients and filter amounts are fixed-point numbers:
//! `FIXED_ONE` stands for 1.

use vstd::prelude::*;
use crate::pixel::{Rgba, is_bytes, spec_clamp};

verus! {

/// The fixed-point unit of matrix coefficients and filter amounts.
pub const FIXED_ONE: i64 = 1_000_000;

/// Integer division that rounds toward zero.
pub open spec fn spec_div_trunc(a: int, b: int) -> int {
    if a >= 0 {
        a / b
    } else {
        -((-a) / b)
    }
}

/// `c * x`, with `c` in ten-thousandths, rounded toward zero.
pub open spec fn spec_scaled(c: int, x: int) -> int {
    spec_div_trunc(c * x, 10000)
}

/// `a / b` rounded toward zero, for a positive `b`.
fn div_trunc(a: i64, b: i64) -> (r: i64)
    requires
        b > 0,
        a > i64::MIN,
    ensures
        r == spec_div_trunc(a as int, b as int),
{
    if a >= 0 {
        (a as u64 / b as u64) as i64
    } else {
        let q = ((-a) as u64 / b as u64) as i64;
        -q
    }
}

/// `c * x / 10000`, rounded toward zero.
fn scaled(c: i64, x: i64) -> (r: i64)
    requires
        -10000 <= c <= 10000,
        -4294967296 <= x <= 4294967296,
    ensures
        r == spec_scaled(c as int, x as int),
        -4294967296 <= r <= 4294967296,
{
    assert(-10000 * 4294967296 <= c * x <= 10000 * 4294967296) by (nonlinear_arith)
        requires
            -10000 <= c <= 10000,
            -4294967296 <= x <= 4294967296,
    ;
    let r = div_trunc(c * x, 10000);
    assert(-4294967296 <= r <= 4294967296) by {
        let p = c * x;
        if p >= 0 {
            vstd::arithmetic::div_mod::lemma_div_is_ordered(p, (10000 * 4294967296) as int, 10000);
        } else {
            vstd::arithmetic::div_mod::lemma_div_is_ordered(-p, (10000 * 4294967296) as int, 10000);
        }
    }
    r
}

/// The sRGB to linear-light table.
pub open spec fn srgb_to_linear_table() -> Seq<u32> {
    seq![
        0, 0, 0, 0, 0, 0, 0, 1, 1, 1, 1, 1, 1, 1, 1, 1,
        1, 1, 2, 2, 2, 2, 2, 2, 2, 2, 3, 3, 3, 3, 3, 3,
        4, 4, 4, 4, 4, 5, 5, 5, 5, 6, 6, 6, 6, 7, 7, 7,
        8, 8, 8, 8, 9, 9, 9, 10, 10, 10, 11, 11, 12, 12, 12, 13,
        13, 13, 14, 14, 15, 15, 16, 16, 17, 17, 17, 18, 18, 19, 19, 20,
        20, 21, 22, 22, 23, 23, 24, 24, 25, 25, 26, 27, 27, 28, 29, 29,
        30, 30, 31, 32, 32, 33, 34, 35, 35, 36, 37, 37, 38, 39, 40, 41,
        41, 42, 43, 44, 45, 45, 46, 47, 48, 49, 50, 51, 51, 52, 53, 54,
        55, 56, 57, 58, 59, 60, 61, 62, 63, 64, 65, 66, 67, 68, 69, 70,
        71, 72, 73, 74, 76, 77, 78, 79, 80, 81, 82, 84, 85, 86, 87, 88,
        90, 91, 92, 93, 95, 96, 97, 99, 100, 101, 103, 104, 105, 107, 108, 109,
        111, 112, 114, 115, 116, 118, 119, 121, 122, 124, 125, 127, 128, 130, 131, 133,
        134, 136, 138, 139, 141, 142, 144, 146, 147, 149, 151, 152, 154, 156, 157, 159,
        161, 163, 164, 166, 168, 170, 171, 173, 175, 177, 179, 181, 183, 184, 186, 188,
        190, 192, 194, 196, 198, 200, 202, 204, 206, 208, 210, 212, 214, 216, 218, 220,
        222, 224, 226, 229, 231, 233, 235, 237, 239, 242, 244, 246, 248, 250, 253, 255,
    ]
}

/// The linear-light to sRGB table.
pub open spec fn linear_to_srgb_table() -> Seq<u32> {
    seq![
        0, 13, 22, 28, 34, 38, 42, 46, 50, 53, 56, 59, 61, 64, 66, 69,
        71, 73, 75, 77, 79, 81, 83, 85, 86, 88, 90, 92, 93, 95, 96, 98,
        99, 101, 102, 104, 105, 106, 108, 109, 110, 112, 113, 114, 115, 117, 118, 119,
        120, 121, 122, 124, 125, 126, 127, 128, 129, 130, 131, 132, 133, 134, 135, 136,
        137, 138, 139, 140, 141, 142, 143, 144, 145, 146, 147, 148, 148, 149, 150, 151,
        152, 153, 154, 155, 155, 156, 157, 158, 159, 159, 160, 161, 162, 163, 163, 164,
        165, 166, 167, 167, 168, 169, 170, 170, 171, 172, 173, 173, 174, 175, 175, 176,
        177, 178, 178, 179, 180, 180, 181, 182, 182, 183, 184, 185, 185, 186, 187, 187,
        188, 189, 189, 190, 190, 191, 192, 192, 193, 194, 194, 195, 196, 196, 197, 197,
        198, 199, 199, 200, 200, 201, 202, 202, 203, 203, 204, 205, 205, 206, 206, 207,
        208, 208, 209, 209, 210, 210, 211, 212, 212, 213, 213, 214, 214, 215, 215, 216,
        216, 217, 218, 218, 219, 219, 220, 220, 221, 221, 222, 222, 223, 223, 224, 224,
        225, 226, 226, 227, 227, 228, 228, 229, 229, 230, 230, 231, 231, 232, 232, 233,
        233, 234, 234, 235, 235, 236, 236, 237, 237, 238, 238, 238, 239, 239, 240, 240,
        241, 241, 242, 242, 243, 243, 244, 244, 245, 245, 246, 246, 246, 247, 247, 248,
        248, 249, 249, 250, 250, 251, 251, 251, 252, 252, 253, 253, 254, 254, 255, 255,
    ]
}

/// The linear-light value of an sRGB byte.
pub fn srgb_to_linear_value(c: u32) -> (r: u32)
    requires
        c <= 255,
    ensures
        r == srgb_to_linear_table()[c as int],
        r <= 255,
{
    let table: [u32; 256] = [
        0, 0, 0, 0, 0, 0, 0, 1, 1, 1, 1, 1, 1, 1, 1, 1,
        1, 1, 2, 2, 2, 2, 2, 2, 2, 2, 3, 3, 3, 3, 3, 3,
        4, 4, 4, 4, 4, 5, 5, 5, 5, 6, 6, 6, 6, 7, 7, 7,
        8, 8, 8, 8, 9, 9, 9, 10, 10, 10, 11, 11, 12, 12, 12, 13,
        13, 13, 14, 14, 15, 15, 16, 16, 17, 17, 17, 18, 18, 19, 19, 20,
        20, 21, 22, 22, 23, 23, 24, 24, 25, 25, 26, 27, 27, 28, 29, 29,
        30, 30, 31, 32, 32, 33, 34, 35, 35, 36, 37, 37, 38, 39, 40, 41,
        41, 42, 43, 44, 45, 45, 46, 47, 48, 49, 50, 51, 51, 52, 53, 54,
        55, 56, 57, 58, 59, 60, 61, 62, 63, 64, 65, 66, 67, 68, 69, 70,
        71, 72, 73, 74, 76, 77, 78, 79, 80, 81, 82, 84, 85, 86, 87, 88,
        90, 91, 92, 93, 95, 96, 97, 99, 100, 101, 103, 104, 105, 107, 108, 109,
        111, 112, 114, 115, 116, 118, 119, 121, 122, 124, 125, 127, 128, 130, 131, 133,
        134, 136, 138, 139, 141, 142, 144, 146, 147, 149, 151, 152, 154, 156, 157, 159,
        161, 163, 164, 166, 168, 170, 171, 173, 175, 177, 179, 181, 183, 184, 186, 188,
        190, 192, 194, 196, 198, 200, 202, 204, 206, 208, 210, 212, 214, 216, 218, 220,
        222, 224, 226, 229, 231, 233, 235, 237, 239, 242, 244, 246, 248, 250, 253, 255,
    ];
    assert(table@ == srgb_to_linear_table());
    assert(forall|i: int| 0 <= i < 256 ==> srgb_to_linear_table()[i] <= 255);
    table[c as usize]
}

/// The sRGB value of a linear-light byte.
pub fn linear_to_srgb_value(c: u32) -> (r: u32)
    requires
        c <= 255,
    ensures
        r == linear_to_srgb_table()[c as int],
        r <= 255,
{
    let table: [u32; 256] = [
        0, 13, 22, 28, 34, 38, 42, 46, 50, 53, 56, 59, 61, 64, 66, 69,
        71, 73, 75, 77, 79, 81, 83, 85, 86, 88, 90, 92, 93, 95, 96, 98,
        99, 101, 102, 104, 105, 106, 108, 109, 110, 112, 113, 114, 115, 117, 118, 119,
        120, 121, 122, 124, 125, 126, 127, 128, 129, 130, 131, 132, 133, 134, 135, 136,
        137, 138, 139, 140, 141, 142, 143, 144, 145, 146, 147, 148, 148, 149, 150, 151,
        152, 153, 154, 155, 155, 156, 157, 158, 159, 159, 160, 161, 162, 163, 163, 164,
        165, 166, 167, 167, 168, 169, 170, 170, 171, 172, 173, 173, 174, 175, 175, 176,
        177, 178, 178, 179, 180, 180, 181, 182, 182, 183, 184, 185, 185, 186, 187, 187,
        188, 189, 189, 190, 190, 191, 192, 192, 193, 194, 194, 195, 196, 196, 197, 197,
        198, 199, 199, 200, 200, 201, 202, 202, 203, 203, 204, 205, 205, 206, 206, 207,
        208, 208, 209, 209, 210, 210, 211, 212, 212, 213, 213, 214, 214, 215, 215, 216,
        216, 217, 218, 218, 219, 219, 220, 220, 221, 221, 222, 222, 223, 223, 224, 224,
        225, 226, 226, 227, 227, 228, 228, 229, 229, 230, 230, 231, 231, 232, 232, 233,
        233, 234, 234, 235, 235, 236, 236, 237, 237, 238, 238, 238, 239, 239, 240, 240,
        241, 241, 242, 242, 243, 243, 244, 244, 245, 245, 246, 246, 246, 247, 247, 248,
        248, 249, 249, 250, 250, 251, 251, 251, 252, 252, 253, 253, 254, 254, 255, 255,
    ];
    assert(table@ == linear_to_srgb_table());
    assert(forall|i: int| 0 <= i < 256 ==> linear_to_srgb_table()[i] <= 255);
    table[c as usize]
}

/// The weighted sum of row `k / 5` of `m` over the channels of `c`, offset
/// by `255` times the row's last coefficient; in fixed point.
pub open spec fn spec_row_sum(m: Seq<i64>, k: int, c: Rgba) -> int {
    c.r * m[k] + c.g * m[k + 1] + c.b * m[k + 2] + c.a * m[k + 3] + 255 * m[k + 4]
}

/// A fixed-point value as a channel: truncated, limited to `0..=255`.
pub open spec fn spec_fixed_to_channel(v: int) -> int {
    if v < 0 {
        0
    } else {
        spec_clamp(v / FIXED_ONE as int)
    }
}

/// The matrix `m` applied to the unpremultiplied channels `c`.
pub open spec fn spec_apply_matrix(m: Seq<i64>, c: Rgba) -> Rgba {
    Rgba {
        r: spec_fixed_to_channel(spec_row_sum(m, 0, c)) as u32,
        g: spec_fixed_to_channel(spec_row_sum(m, 5, c)) as u32,
        b: spec_fixed_to_channel(spec_row_sum(m, 10, c)) as u32,
        a: spec_fixed_to_channel(spec_row_sum(m, 15, c)) as u32,
    }
}

/// The table `t` applied to the colour channels of `c`; alpha is kept.
pub open spec fn spec_apply_table(t: Seq<u32>, c: Rgba) -> Rgba {
    Rgba { r: t[c.r as int], g: t[c.g as int], b: t[c.b as int], a: c.a }
}

/// A bound on the product of a channel and a coefficient.
const WEIGHT_BOUND: i128 = 600_000_000_000_000_000_000_000;

/// The product of a channel and a coefficient.
fn weigh(c: u32, k: i64) -> (r: i128)
    requires
        c <= 65025,
    ensures
        r == c * k,
        -WEIGHT_BOUND <= r <= WEIGHT_BOUND,
{
    if k >= 0 {
        assert(0 <= c * k <= 65025 * k) by (nonlinear_arith)
            requires
                0 <= c <= 65025,
                k >= 0,
        ;
    } else {
        assert(65025 * k <= c * k <= 0) by (nonlinear_arith)
            requires
                0 <= c <= 65025,
                k < 0,
        ;
    }
    c as i128 * k as i128
}

/// The row of `m` that starts at `k`, applied to `c` and made a channel.
fn matrix_row(m: &[i64; 20], k: usize, c: Rgba) -> (r: u32)
    requires
        k + 4 < 20,
        c.r <= 65025 && c.g <= 65025 && c.b <= 65025 && c.a <= 255,
    ensures
        r == spec_fixed_to_channel(spec_row_sum(m@, k as int, c)),
        r <= 255,
{
    let sum = weigh(c.r, m[k]) + weigh(c.g, m[k + 1]) + weigh(c.b, m[k + 2]) + weigh(c.a, m[k + 3])
        + weigh(255, m[k + 4]);
    if sum < 0 {
        0
    } else {
        let q = sum as u128 / FIXED_ONE as u128;
        if q > 255 {
            255
        } else {
            q as u32
        }
    }
}

/// The matrix `m` applied to unpremultiplied channels.
pub fn apply_matrix(m: &[i64; 20], c: Rgba) -> (r: Rgba)
    requires
        c.r <= 65025 && c.g <= 65025 && c.b <= 65025 && c.a <= 255,
    ensures
        r == spec_apply_matrix(m@, c),
        is_bytes(r),
{
    Rgba {
        r: matrix_row(m, 0, c),
        g: matrix_row(m, 5, c),
        b: matrix_row(m, 10, c),
        a: matrix_row(m, 15, c),
    }
}

/// The identity matrix.
pub open spec fn spec_identity_matrix() -> Seq<i64> {
    seq![
        1_000_000, 0, 0, 0, 0,
        0, 1_000_000, 0, 0, 0,
        0, 0, 1_000_000, 0, 0,
        0, 0, 0, 1_000_000, 0,
    ]
}

/// The identity matrix.
pub fn identity_matrix() -> (r: [i64; 20])
    ensures
        r@ == spec_identity_matrix(),
{
    let r: [i64; 20] = [
        FIXED_ONE, 0, 0, 0, 0,
        0, FIXED_ONE, 0, 0, 0,
        0, 0, FIXED_ONE, 0, 0,
        0, 0, 0, FIXED_ONE, 0,
    ];
    assert(r@ == spec_identity_matrix());
    r
}

/// Scales the alpha row by `amount`.
pub open spec fn spec_opacity_matrix(amount: int) -> Seq<i64> {
    spec_identity_matrix().update(18, amount as i64)
}

/// The opacity matrix for `amount` (fixed point).
pub fn opacity_matrix(amount: i32) -> (r: [i64; 20])
    ensures
        r@ == spec_opacity_matrix(amount as int),
{
    let r: [i64; 20] = [
        FIXED_ONE, 0, 0, 0, 0,
        0, FIXED_ONE, 0, 0, 0,
        0, 0, FIXED_ONE, 0, 0,
        0, 0, 0, amount as i64, 0,
    ];
    assert(r@ == spec_opacity_matrix(amount as int));
    r
}

/// Scales the red, green and blue rows by `amount`.
pub open spec fn spec_brightness_matrix(amount: int) -> Seq<i64> {
    spec_identity_matrix().update(0, amount as i64).update(6, amount as i64).update(12, amount as i64)
}

/// The brightness matrix for `amount` (fixed point).
pub fn brightness_matrix(amount: i32) -> (r: [i64; 20])
    ensures
        r@ == spec_brightness_matrix(amount as int),
{
    let a = amount as i64;
    let r: [i64; 20] = [
        a, 0, 0, 0, 0,
        0, a, 0, 0, 0,
        0, 0, a, 0, 0,
        0, 0, 0, FIXED_ONE, 0,
    ];
    assert(r@ == spec_brightness_matrix(amount as int));
    r
}

/// Scales the colour rows by `1 - 2 * amount` and offsets them by `amount`.
pub open spec fn spec_invert_matrix(amount: int) -> Seq<i64> {
    let m = (1_000_000 - 2 * amount) as i64;
    let o = amount as i64;
    seq![
        m, 0, 0, 0, o,
        0, m, 0, 0, o,
        0, 0, m, 0, o,
        0, 0, 0, 1_000_000, 0,
    ]
}

/// The inversion matrix for `amount` (fixed point).
pub fn invert_matrix(amount: i32) -> (r: [i64; 20])
    ensures
        r@ == spec_invert_matrix(amount as int),
{
    let m = FIXED_ONE - 2 * amount as i64;
    let o = amount as i64;
    let r: [i64; 20] = [
        m, 0, 0, 0, o,
        0, m, 0, 0, o,
        0, 0, m, 0, o,
        0, 0, 0, FIXED_ONE, 0,
    ];
    assert(r@ == spec_invert_matrix(amount as int));
    r
}

/// Scales the colour rows by `amount` and offsets them by `(1 - amount) / 2`.
pub open spec fn spec_contrast_matrix(amount: int) -> Seq<i64> {
    let m = amount as i64;
    let o = spec_div_trunc(1_000_000 - amount, 2) as i64;
    seq![
        m, 0, 0, 0, o,
        0, m, 0, 0, o,
        0, 0, m, 0, o,
        0, 0, 0, 1_000_000, 0,
    ]
}

/// The contrast matrix for `amount` (fixed point).
pub fn contrast_matrix(amount: i32) -> (r: [i64; 20])
    ensures
        r@ == spec_contrast_matrix(amount as int),
{
    let m = amount as i64;
    let o = div_trunc(FIXED_ONE - amount as i64, 2);
    let r: [i64; 20] = [
        m, 0, 0, 0, o,
        0, m, 0, 0, o,
        0, 0, m, 0, o,
        0, 0, 0, FIXED_ONE, 0,
    ];
    assert(r@ == spec_contrast_matrix(amount as int));
    r
}

/// The luminance-preserving saturation matrix (weights 0.213, 0.715, 0.072).
pub open spec fn spec_saturate_matrix(a: int) -> Seq<i64> {
    seq![
        (213000 + spec_scaled(7870, a)) as i64, (715000 - spec_scaled(7150, a)) as i64, (72000 - spec_scaled(720, a)) as i64, 0, 0,
        (213000 - spec_scaled(2130, a)) as i64, (715000 + spec_scaled(2850, a)) as i64, (72000 - spec_scaled(720, a)) as i64, 0, 0,
        (213000 - spec_scaled(2130, a)) as i64, (715000 - spec_scaled(7150, a)) as i64, (72000 + spec_scaled(9280, a)) as i64, 0, 0,
        0, 0, 0, 1_000_000, 0,
    ]
}

/// The saturation matrix for `amount` (fixed point).
pub fn saturate_matrix(amount: i32) -> (r: [i64; 20])
    ensures
        r@ == spec_saturate_matrix(amount as int),
{
    let a = amount as i64;
    let r: [i64; 20] = [
        213000 + scaled(7870, a), 715000 - scaled(7150, a), 72000 - scaled(720, a), 0, 0,
        213000 - scaled(2130, a), 715000 + scaled(2850, a), 72000 - scaled(720, a), 0, 0,
        213000 - scaled(2130, a), 715000 - scaled(7150, a), 72000 + scaled(9280, a), 0, 0,
        0, 0, 0, FIXED_ONE, 0,
    ];
    assert(r@ == spec_saturate_matrix(amount as int));
    r
}

/// Moves from the identity toward the luminance projection
/// (weights 0.2126, 0.7152, 0.0722) as `amount` goes from 0 to 1.
pub open spec fn spec_grayscale_matrix(amount: int) -> Seq<i64> {
    let a = 1_000_000 - amount;
    seq![
        (212600 + spec_scaled(7874, a)) as i64, (715200 - spec_scaled(7152, a)) as i64, (72200 - spec_scaled(722, a)) as i64, 0, 0,
        (212600 - spec_scaled(2126, a)) as i64, (715200 + spec_scaled(2848, a)) as i64, (72200 - spec_scaled(722, a)) as i64, 0, 0,
        (212600 - spec_scaled(2126, a)) as i64, (715200 - spec_scaled(7152, a)) as i64, (72200 + spec_scaled(9278, a)) as i64, 0, 0,
        0, 0, 0, 1_000_000, 0,
    ]
}

/// The grayscale matrix for `amount` (fixed point).
pub fn grayscale_matrix(amount: i32) -> (r: [i64; 20])
    ensures
        r@ == spec_grayscale_matrix(amount as int),
{
    let a = FIXED_ONE - amount as i64;
    let r: [i64; 20] = [
        212600 + scaled(7874, a), 715200 - scaled(7152, a), 72200 - scaled(722, a), 0, 0,
        212600 - scaled(2126, a), 715200 + scaled(2848, a), 72200 - scaled(722, a), 0, 0,
        212600 - scaled(2126, a), 715200 - scaled(7152, a), 72200 + scaled(9278, a), 0, 0,
        0, 0, 0, FIXED_ONE, 0,
    ];
    assert(r@ == spec_grayscale_matrix(amount as int));
    r
}

/// Moves from the identity toward the sepia matrix as `amount` goes from 0 to 1.
pub open spec fn spec_sepia_matrix(amount: int) -> Seq<i64> {
    let a = 1_000_000 - amount;
    seq![
        (393000 + spec_scaled(6070, a)) as i64, (769000 - spec_scaled(7690, a)) as i64, (189000 - spec_scaled(1890, a)) as i64, 0, 0,
        (349000 - spec_scaled(3490, a)) as i64, (686000 + spec_scaled(3140, a)) as i64, (168000 - spec_scaled(1680, a)) as i64, 0, 0,
        (272000 - spec_scaled(2720, a)) as i64, (534000 - spec_scaled(5340, a)) as i64, (131000 + spec_scaled(8690, a)) as i64, 0, 0,
        0, 0, 0, 1_000_000, 0,
    ]
}

/// The sepia matrix for `amount` (fixed point).
pub fn sepia_matrix(amount: i32) -> (r: [i64; 20])
    ensures
        r@ == spec_sepia_matrix(amount as int),
{
    let a = FIXED_ONE - amount as i64;
    let r: [i64; 20] = [
        393000 + scaled(6070, a), 769000 - scaled(7690, a), 189000 - scaled(1890, a), 0, 0,
        349000 - scaled(3490, a), 686000 + scaled(3140, a), 168000 - scaled(1680, a), 0, 0,
        272000 - scaled(2720, a), 534000 - scaled(5340, a), 131000 + scaled(8690, a), 0, 0,
        0, 0, 0, FIXED_ONE, 0,
    ];
    assert(r@ == spec_sepia_matrix(amount as int));
    r
}

/// Rotation of hue around the luminance axis by the angle whose cosine and
/// sine are `cos` and `sin`.
pub open spec fn spec_hue_rotate_matrix(cos: int, sin: int) -> Seq<i64> {
    seq![
        (213000 + spec_scaled(7870, cos) - spec_scaled(2130, sin)) as i64,
        (715000 - spec_scaled(7150, cos) - spec_scaled(7150, sin)) as i64,
        (72000 - spec_scaled(720, cos) + spec_scaled(9280, sin)) as i64, 0, 0,
        (213000 - spec_scaled(2130, cos) + spec_scaled(1430, sin)) as i64,
        (715000 + spec_scaled(2850, cos) + spec_scaled(1400, sin)) as i64,
        (72000 - spec_scaled(720, cos) - spec_scaled(2830, sin)) as i64, 0, 0,
        (213000 - spec_scaled(2130, cos) - spec_scaled(7870, sin)) as i64,
        (715000 - spec_scaled(7150, cos) + spec_scaled(7150, sin)) as i64,
        (72000 + spec_scaled(9280, cos) + spec_scaled(720, sin)) as i64, 0, 0,
        0, 0, 0, 1_000_000, 0,
    ]
}

/// The hue rotation matrix for an angle of cosine `cos` and sine `sin` (fixed point).
pub fn hue_rotate_matrix(cos: i32, sin: i32) -> (r: [i64; 20])
    ensures
        r@ == spec_hue_rotate_matrix(cos as int, sin as int),
{
    let (cos, sin) = (cos as i64, sin as i64);
    let r: [i64; 20] = [
        213000 + scaled(7870, cos) - scaled(2130, sin),
        715000 - scaled(7150, cos) - scaled(7150, sin),
        72000 - scaled(720, cos) + scaled(9280, sin), 0, 0,
        213000 - scaled(2130, cos) + scaled(1430, sin),
        715000 + scaled(2850, cos) + scaled(1400, sin),
        72000 - scaled(720, cos) - scaled(2830, sin), 0, 0,
        213000 - scaled(2130, cos) - scaled(7870, sin),
        715000 - scaled(7150, cos) + scaled(7150, sin),
        72000 + scaled(9280, cos) + scaled(720, sin), 0, 0,
        0, 0, 0, FIXED_ONE, 0,
    ];
    assert(r@ == spec_hue_rotate_matrix(cos as int, sin as int));
    r
}

/// Clears the colour and sets alpha to the luminance (weights 0.2125,
/// 0.7154, 0.0721).
pub open spec fn spec_luminance_to_alpha_matrix() -> Seq<i64> {
    seq![
        0, 0, 0, 0, 0,
        0, 0, 0, 0, 0,
        0, 0, 0, 0, 0,
        212500, 715400, 72100, 0, 0,
    ]
}

/// The luminance-to-alpha matrix.
pub fn luminance_to_alpha_matrix() -> (r: [i64; 20])
    ensures
        r@ == spec_luminance_to_alpha_matrix(),
{
    let r: [i64; 20] = [
        0, 0, 0, 0, 0,
        0, 0, 0, 0, 0,
        0, 0, 0, 0, 0,
        212500, 715400, 72100, 0, 0,
    ];
    assert(r@ == spec_luminance_to_alpha_matrix());
    r
}

} // verus!
