//! Packing, unpacking and premultiplication of 32-bit pixels.

use vstd::prelude::*;

verus! {

/// Byte layout of a packed pixel, named after the order of the channels from
/// the least significant byte (the first byte in little-endian memory order)
/// upwards, with alpha first or last.
#[derive(Clone, Copy, Debug, PartialEq, Eq, Structural)]
pub enum ColorChannel {
    /// Bytes, lowest first: alpha, red, green, blue.
    ARGB32,
    /// Bytes, lowest first: red, green, blue, alpha.
    RGBA32,
}

/// The four channels of one pixel, each normally in `0..=255`.
#[derive(Clone, Copy, Debug, PartialEq, Eq, Structural)]
pub struct Rgba {
    pub r: u32,
    pub g: u32,
    pub b: u32,
    pub a: u32,
}

/// A packed 32-bit pixel.
#[derive(Clone, Copy, Debug, PartialEq, Eq, Structural)]
pub struct Pixel(pub u32);

impl Pixel {
    /// The packed value.
    pub open spec fn value(self) -> u32 {
        self.0
    }
}

impl From<u32> for Pixel {
    fn from(value: u32) -> (r: Pixel)
        ensures
            r.value() == value,
    {
        Pixel(value)
    }
}

impl vstd::std_specs::convert::FromSpecImpl<u32> for Pixel {
    open spec fn obeys_from_spec() -> bool {
        true
    }

    open spec fn from_spec(v: u32) -> Pixel {
        Pixel(v)
    }
}

impl From<Pixel> for u32 {
    fn from(value: Pixel) -> (r: u32)
        ensures
            r == value.value(),
    {
        value.0
    }
}

impl vstd::std_specs::convert::FromSpecImpl<Pixel> for u32 {
    open spec fn obeys_from_spec() -> bool {
        true
    }

    open spec fn from_spec(v: Pixel) -> u32 {
        v.0
    }
}

/// The `k`-th byte of `p`, counting from the least significant one.
pub open spec fn byte_of(p: u32, k: nat) -> u32 {
    if k == 0 {
        p % 256
    } else if k == 1 {
        (p / 256) % 256
    } else if k == 2 {
        (p / 65536) % 256
    } else {
        p / 16777216
    }
}

/// The channels that `p` holds under the layout `ch`.
pub open spec fn spec_unpack(p: u32, ch: ColorChannel) -> Rgba {
    match ch {
        ColorChannel::ARGB32 => Rgba { a: byte_of(p, 0), r: byte_of(p, 1), g: byte_of(p, 2), b: byte_of(p, 3) },
        ColorChannel::RGBA32 => Rgba { r: byte_of(p, 0), g: byte_of(p, 1), b: byte_of(p, 2), a: byte_of(p, 3) },
    }
}

/// Every channel fits in one byte.
pub open spec fn is_bytes(c: Rgba) -> bool {
    c.r <= 255 && c.g <= 255 && c.b <= 255 && c.a <= 255
}

/// The pixel that holds the channels `c` under the layout `ch`.
pub open spec fn spec_pack(c: Rgba, ch: ColorChannel) -> u32
    recommends
        is_bytes(c),
{
    match ch {
        ColorChannel::ARGB32 => (c.a + c.r * 256 + c.g * 65536 + c.b * 16777216) as u32,
        ColorChannel::RGBA32 => (c.r + c.g * 256 + c.b * 65536 + c.a * 16777216) as u32,
    }
}

/// No colour channel exceeds alpha: the form that premultiplied pixels take.
pub open spec fn is_premultiplied(c: Rgba) -> bool {
    c.r <= c.a && c.g <= c.a && c.b <= c.a
}

/// Unpacking a packed pixel gives back the channels it was packed from.
pub proof fn lemma_unpack_pack(c: Rgba, ch: ColorChannel)
    requires
        is_bytes(c),
    ensures
        spec_unpack(spec_pack(c, ch), ch) == c,
{
    let (r, g, b, a) = (c.r, c.g, c.b, c.a);
    assert(byte_of(((r + g * 256 + b * 65536 + a * 16777216) as u32), 0) == r
        && byte_of(((r + g * 256 + b * 65536 + a * 16777216) as u32), 1) == g
        && byte_of(((r + g * 256 + b * 65536 + a * 16777216) as u32), 2) == b
        && byte_of(((r + g * 256 + b * 65536 + a * 16777216) as u32), 3) == a) by (bit_vector)
        requires
            r <= 255 && g <= 255 && b <= 255 && a <= 255,
    ;
    assert(byte_of(((a + r * 256 + g * 65536 + b * 16777216) as u32), 0) == a
        && byte_of(((a + r * 256 + g * 65536 + b * 16777216) as u32), 1) == r
        && byte_of(((a + r * 256 + g * 65536 + b * 16777216) as u32), 2) == g
        && byte_of(((a + r * 256 + g * 65536 + b * 16777216) as u32), 3) == b) by (bit_vector)
        requires
            r <= 255 && g <= 255 && b <= 255 && a <= 255,
    ;
}

/// Packing the channels of a pixel gives back the pixel.
pub proof fn lemma_pack_unpack(p: u32, ch: ColorChannel)
    ensures
        is_bytes(spec_unpack(p, ch)),
        spec_pack(spec_unpack(p, ch), ch) == p,
{
    assert(byte_of(p, 0) <= 255 && byte_of(p, 1) <= 255 && byte_of(p, 2) <= 255 && byte_of(p, 3)
        <= 255) by (bit_vector);
    assert(byte_of(p, 0) + byte_of(p, 1) * 256 + byte_of(p, 2) * 65536 + byte_of(p, 3) * 16777216
        == p) by (bit_vector);
}

/// `(x + (x >> 8) + 0x80) >> 8`: the rounding approximation of `x / 255`
/// that the blend and composite formulas are written with.
pub open spec fn spec_div255(x: int) -> int {
    (x + x / 256 + 128) / 256
}

/// The premultiplication rule `c * (a + 1) >> 8` on one channel.
pub open spec fn spec_premultiply_channel(c: int, a: int) -> int {
    (c * (a + 1)) / 256
}

/// `c` premultiplied by the alpha of `c`; alpha is kept.
pub open spec fn spec_premultiply(c: Rgba) -> Rgba {
    Rgba {
        r: spec_premultiply_channel(c.r as int, c.a as int) as u32,
        g: spec_premultiply_channel(c.g as int, c.a as int) as u32,
        b: spec_premultiply_channel(c.b as int, c.a as int) as u32,
        a: c.a,
    }
}

/// The unpremultiplication rule `255 * c / a` on one channel, zero when `a` is zero.
pub open spec fn spec_unpremultiply_channel(c: int, a: int) -> int {
    if a == 0 {
        0
    } else {
        (255 * c) / a
    }
}

/// `c` divided by its alpha; alpha is kept.
pub open spec fn spec_unpremultiply(c: Rgba) -> Rgba {
    Rgba {
        r: spec_unpremultiply_channel(c.r as int, c.a as int) as u32,
        g: spec_unpremultiply_channel(c.g as int, c.a as int) as u32,
        b: spec_unpremultiply_channel(c.b as int, c.a as int) as u32,
        a: c.a,
    }
}

/// `v` limited to `0..=255`.
pub open spec fn spec_clamp(v: int) -> int {
    if v < 0 {
        0
    } else if v > 255 {
        255
    } else {
        v
    }
}

/// The channels of `pixel` under the layout `channel`.
pub fn unpack_pixel(pixel: u32, channel: ColorChannel) -> (r: Rgba)
    ensures
        r == spec_unpack(pixel, channel),
        is_bytes(r),
{
    proof {
        lemma_pack_unpack(pixel, channel);
    }
    let b0 = pixel % 256;
    let b1 = (pixel / 256) % 256;
    let b2 = (pixel / 65536) % 256;
    let b3 = pixel / 16777216;
    match channel {
        ColorChannel::ARGB32 => Rgba { a: b0, r: b1, g: b2, b: b3 },
        ColorChannel::RGBA32 => Rgba { r: b0, g: b1, b: b2, a: b3 },
    }
}

/// The alpha channel of `pixel` under the layout `channel`.
pub fn alpha(pixel: u32, channel: ColorChannel) -> (r: u32)
    ensures
        r == spec_unpack(pixel, channel).a,
        r <= 255,
{
    unpack_pixel(pixel, channel).a
}

/// The pixel holding the channels `c` under the layout `channel`.
pub fn pack_pixel(c: Rgba, channel: ColorChannel) -> (r: u32)
    requires
        is_bytes(c),
    ensures
        r == spec_pack(c, channel),
        spec_unpack(r, channel) == c,
{
    proof {
        lemma_unpack_pack(c, channel);
    }
    match channel {
        ColorChannel::ARGB32 => c.a + c.r * 256 + c.g * 65536 + c.b * 16777216,
        ColorChannel::RGBA32 => c.r + c.g * 256 + c.b * 65536 + c.a * 16777216,
    }
}

/// `(x + (x >> 8) + 0x80) >> 8`, the rounding approximation of `x / 255`.
pub fn div255(x: u32) -> (r: u32)
    requires
        x <= 0xfeff_0000,
    ensures
        r == spec_div255(x as int),
{
    assert(x >> 8 == x / 256) by (bit_vector);
    let t: u32 = x + (x >> 8) + 0x80;
    assert(t >> 8 == t / 256) by (bit_vector);
    t >> 8
}

/// `div255` never exceeds `d` on a product `x` of `d` and a byte.
pub proof fn lemma_div255_le(x: int, d: int)
    requires
        0 <= x <= 255 * d,
        d <= 65536,
    ensures
        0 <= spec_div255(x) <= d,
{
    let xu = x as u32;
    let du = d as u32;
    assert((xu + xu / 256 + 128) / 256 <= du) by (bit_vector)
        requires
            xu <= 255 * du,
            du <= 65536u32,
    ;
}

/// Premultiplies the colour channels of `c` by its alpha.
pub fn premultiply_pixel(c: Rgba) -> (r: Rgba)
    requires
        is_bytes(c),
    ensures
        r == spec_premultiply(c),
        is_bytes(r),
        is_premultiplied(r),
{
    proof {
        lemma_premultiply_bound(c.r as int, c.a as int);
        lemma_premultiply_bound(c.g as int, c.a as int);
        lemma_premultiply_bound(c.b as int, c.a as int);
    }
    let r = c.r * (c.a + 1);
    let g = c.g * (c.a + 1);
    let b = c.b * (c.a + 1);
    assert(r >> 8 == r / 256 && g >> 8 == g / 256 && b >> 8 == b / 256) by (bit_vector);
    Rgba { r: r >> 8, g: g >> 8, b: b >> 8, a: c.a }
}

/// Premultiplication keeps a channel within its alpha.
proof fn lemma_premultiply_bound(c: int, a: int)
    requires
        0 <= c <= 255,
        0 <= a <= 255,
    ensures
        0 <= spec_premultiply_channel(c, a) <= a,
        c * (a + 1) <= 65280,
{
    assert(c * (a + 1) <= 256 * a + 255 - a) by (nonlinear_arith)
        requires
            0 <= c <= 255,
            0 <= a <= 255,
    ;
    assert(c * (a + 1) <= 65280) by (nonlinear_arith)
        requires
            0 <= c <= 255,
            0 <= a <= 255,
    ;
}

/// Divides the colour channels of `c` by its alpha (all zero when alpha is zero).
pub fn unpremultiply_pixel(c: Rgba) -> (r: Rgba)
    requires
        is_bytes(c),
    ensures
        r == spec_unpremultiply(c),
        r.a == c.a,
        r.r <= 65025 && r.g <= 65025 && r.b <= 65025,
        is_premultiplied(c) ==> is_bytes(r),
{
    if c.a != 0 {
        proof {
            lemma_unpremultiply_bound(c.r as int, c.a as int);
            lemma_unpremultiply_bound(c.g as int, c.a as int);
            lemma_unpremultiply_bound(c.b as int, c.a as int);
        }
        Rgba { r: (255 * c.r) / c.a, g: (255 * c.g) / c.a, b: (255 * c.b) / c.a, a: c.a }
    } else {
        Rgba { r: 0, g: 0, b: 0, a: 0 }
    }
}

/// Unpremultiplication stays below `255 * c`, and within a byte for a premultiplied channel.
proof fn lemma_unpremultiply_bound(c: int, a: int)
    requires
        0 <= c <= 255,
        1 <= a <= 255,
    ensures
        0 <= (255 * c) / a <= 255 * c,
        c <= a ==> (255 * c) / a <= 255,
{
    vstd::arithmetic::div_mod::lemma_div_is_ordered_by_denominator(255 * c, 1, a);
    if c <= a {
        vstd::arithmetic::div_mod::lemma_div_is_ordered(255 * c, 255 * a, a);
        vstd::arithmetic::div_mod::lemma_div_multiples_vanish(255, a);
    }
}

/// `v` limited to `0..=255`.
pub fn clamp_pixel(v: u32) -> (r: u32)
    ensures
        r == spec_clamp(v as int),
{
    if v > 255 {
        255
    } else {
        v
    }
}

} // verus!
