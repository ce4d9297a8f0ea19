//! The separable blend modes, on premultiplied channels.

use vstd::prelude::*;
use crate::pixel::{
    Rgba, clamp_pixel, div255, is_bytes, is_premultiplied, lemma_div255_le, spec_clamp, spec_div255,
};

verus! {

/// The arguments of a blend operator: a source channel `s` with its alpha `sa`
/// and a backdrop channel `d` with its alpha `da`, premultiplied bytes.
pub open spec fn blend_args(s: u32, d: u32, sa: u32, da: u32) -> bool {
    s <= sa <= 255 && d <= da <= 255
}

/// Source and backdrop terms that every mode adds: `s(255 - da) + d(255 - sa)`.
pub open spec fn spec_uncovered(s: int, d: int, sa: int, da: int) -> int {
    s * (255 - da) + d * (255 - sa)
}

/// Normal: the source over the backdrop.
pub open spec fn spec_blend_normal(s: int, d: int, sa: int, da: int) -> int {
    s + spec_div255(d * (255 - sa))
}

/// Multiply: the product of the channels, plus what each side leaves uncovered.
pub open spec fn spec_blend_multiply(s: int, d: int, sa: int, da: int) -> int {
    spec_div255(s * d + spec_uncovered(s, d, sa, da))
}

/// Screen: the complement of the product of the complements.
pub open spec fn spec_blend_screen(s: int, d: int, sa: int, da: int) -> int {
    s + d - spec_div255(s * d)
}

/// Overlay: multiply where the backdrop is dark, screen where it is light.
pub open spec fn spec_blend_overlay(s: int, d: int, sa: int, da: int) -> int {
    if 2 * d <= da {
        spec_div255(2 * s * d + spec_uncovered(s, d, sa, da))
    } else {
        spec_div255(sa * da - 2 * (da - d) * (sa - s) + spec_uncovered(s, d, sa, da))
    }
}

/// Darken: the source or the backdrop, whichever is darker relative to its alpha.
pub open spec fn spec_blend_darken(s: int, d: int, sa: int, da: int) -> int {
    if s * da < d * sa {
        s + d - spec_div255(d * sa)
    } else {
        d + s - spec_div255(s * da)
    }
}

/// Lighten: the source or the backdrop, whichever is lighter relative to its alpha.
pub open spec fn spec_blend_lighten(s: int, d: int, sa: int, da: int) -> int {
    if s * da > d * sa {
        s + d - spec_div255(d * sa)
    } else {
        d + s - spec_div255(s * da)
    }
}

/// Color dodge: the backdrop brightened by the source.
pub open spec fn spec_blend_color_dodge(s: int, d: int, sa: int, da: int) -> int {
    if d == 0 {
        spec_div255(s * (255 - da))
    } else if s == sa || da * (sa - s) < d * sa {
        spec_div255(sa * da + spec_uncovered(s, d, sa, da))
    } else {
        spec_div255(sa * ((d * sa) / (sa - s)) + spec_uncovered(s, d, sa, da))
    }
}

/// Color burn: the backdrop darkened by the source.
pub open spec fn spec_blend_color_burn(s: int, d: int, sa: int, da: int) -> int {
    if d == da {
        spec_div255(sa * da + spec_uncovered(s, d, sa, da))
    } else if s == 0 {
        spec_div255(d * (255 - sa))
    } else if da * s < (da - d) * sa {
        spec_div255(spec_uncovered(s, d, sa, da))
    } else {
        spec_div255(sa * (da - ((da - d) * sa / s)) + spec_uncovered(s, d, sa, da))
    }
}

/// Hard light: multiply where the source is dark, screen where it is light.
pub open spec fn spec_blend_hard_light(s: int, d: int, sa: int, da: int) -> int {
    if 2 * s <= sa {
        spec_div255(2 * s * d + spec_uncovered(s, d, sa, da))
    } else {
        spec_div255(sa * da - 2 * (da - d) * (sa - s) + spec_uncovered(s, d, sa, da))
    }
}

/// The largest `r` with `r * r <= n`.
pub open spec fn spec_isqrt(n: nat) -> nat
    decreases n,
{
    if n == 0 {
        0
    } else {
        let r = spec_isqrt((n - 1) as nat);
        if (r + 1) * (r + 1) <= n {
            r + 1
        } else {
            r
        }
    }
}

/// The backdrop channel divided by its alpha, scaled to `0..=255`.
pub open spec fn spec_backdrop_unit(d: int, da: int) -> int {
    if da != 0 {
        (255 * d) / da
    } else {
        0
    }
}

/// Soft light, in three regions: a dark source, then a dark or a light backdrop.
pub open spec fn spec_blend_soft_light(s: int, d: int, sa: int, da: int) -> int {
    let s2 = 2 * s;
    let d_np = spec_backdrop_unit(d, da);
    let temp = spec_uncovered(s, d, sa, da) * 255;
    if s2 < sa {
        (d * (sa * 255 + (s2 - sa) * (255 - d_np)) + temp) / 65025
    } else if 4 * d <= da {
        (d * sa * 255 + da * (s2 - sa) * ((((16 * d_np - 12 * 255) * d_np + 3 * 65025) * d_np)
            / 65025) + temp) / 65025
    } else {
        (d * sa * 255 + da * (s2 - sa) * spec_isqrt((d_np * 255) as nat) - d_np + temp) / 65025
    }
}

/// Difference: the sum less twice the smaller cross product.
pub open spec fn spec_blend_difference(s: int, d: int, sa: int, da: int) -> int {
    if s * da < d * sa {
        d + s - 2 * spec_div255(s * da)
    } else {
        s + d - 2 * spec_div255(d * sa)
    }
}

/// Exclusion: like difference, with lower contrast.
pub open spec fn spec_blend_exclusion(s: int, d: int, sa: int, da: int) -> int {
    spec_div255(255 * (s + d) - 2 * s * d)
}

/// Bounds on the products that the blend formulas take of premultiplied bytes.
proof fn lemma_products(s: int, d: int, sa: int, da: int)
    requires
        0 <= s <= sa <= 255,
        0 <= d <= da <= 255,
    ensures
        0 <= s * d <= 65025,
        0 <= s * (255 - da) <= 255 * s,
        0 <= d * (255 - sa) <= 255 * d,
        0 <= s * (255 - da) <= 255 * (255 - da),
        0 <= d * (255 - sa) <= 255 * (255 - sa),
        0 <= sa * da <= 65025,
        0 <= s * da <= 255 * s,
        0 <= d * sa <= 255 * d,
        0 <= s * d <= 255 * s,
        0 <= s * d <= 255 * d,
        s * d <= sa * da,
        0 <= 2 * s * d <= 130050,
        2 * s * d <= 255 * (s + d),
        0 <= spec_uncovered(s, d, sa, da) <= 130050,
{
    assert(0 <= s * d <= 65025) by (nonlinear_arith)
        requires
            0 <= s <= 255,
            0 <= d <= 255,
    ;
    assert(0 <= s * (255 - da) <= 255 * s) by (nonlinear_arith)
        requires
            0 <= s,
            0 <= da <= 255,
    ;
    assert(0 <= d * (255 - sa) <= 255 * d) by (nonlinear_arith)
        requires
            0 <= d,
            0 <= sa <= 255,
    ;
    assert(0 <= s * (255 - da) <= 255 * (255 - da)) by (nonlinear_arith)
        requires
            0 <= s <= 255,
            0 <= da <= 255,
    ;
    assert(0 <= d * (255 - sa) <= 255 * (255 - sa)) by (nonlinear_arith)
        requires
            0 <= d <= 255,
            0 <= sa <= 255,
    ;
    assert(0 <= sa * da <= 65025) by (nonlinear_arith)
        requires
            0 <= sa <= 255,
            0 <= da <= 255,
    ;
    assert(0 <= s * da <= 255 * s) by (nonlinear_arith)
        requires
            0 <= s,
            0 <= da <= 255,
    ;
    assert(0 <= d * sa <= 255 * d) by (nonlinear_arith)
        requires
            0 <= d,
            0 <= sa <= 255,
    ;
    assert(0 <= s * d <= 255 * s && s * d <= 255 * d) by (nonlinear_arith)
        requires
            0 <= s <= 255,
            0 <= d <= 255,
    ;
    assert(0 <= 2 * s * d <= 130050 && 2 * s * d <= 255 * (s + d)) by (nonlinear_arith)
        requires
            0 <= s <= 255,
            0 <= d <= 255,
    ;
    assert(s * d <= sa * da) by (nonlinear_arith)
        requires
            0 <= s <= sa,
            0 <= d <= da,
    ;
}

/// Normal: `s + div255(d * (255 - sa))`.
pub fn blend_normal_op(s: u32, d: u32, sa: u32, da: u32) -> (r: u32)
    requires
        blend_args(s, d, sa, da),
    ensures
        r == spec_blend_normal(s as int, d as int, sa as int, da as int),
{
    proof {
        lemma_products(s as int, d as int, sa as int, da as int);
        lemma_div255_le(d * (255 - sa), 255 - sa);
    }
    s + div255(d * (255 - sa))
}

/// Multiply: `div255(s * d + s * (255 - da) + d * (255 - sa))`.
pub fn blend_multiply_op(s: u32, d: u32, sa: u32, da: u32) -> (r: u32)
    requires
        blend_args(s, d, sa, da),
    ensures
        r == spec_blend_multiply(s as int, d as int, sa as int, da as int),
{
    proof {
        lemma_products(s as int, d as int, sa as int, da as int);
    }
    div255(s * d + s * (255 - da) + d * (255 - sa))
}

/// Screen: `s + d - div255(s * d)`.
pub fn blend_screen_op(s: u32, d: u32, sa: u32, da: u32) -> (r: u32)
    requires
        blend_args(s, d, sa, da),
    ensures
        r == spec_blend_screen(s as int, d as int, sa as int, da as int),
{
    proof {
        lemma_products(s as int, d as int, sa as int, da as int);
        lemma_div255_le(s * d, s as int);
    }
    s + d - div255(s * d)
}

/// Overlay: multiply or screen, chosen by the backdrop.
pub fn blend_overlay_op(s: u32, d: u32, sa: u32, da: u32) -> (r: u32)
    requires
        blend_args(s, d, sa, da),
    ensures
        r == spec_blend_overlay(s as int, d as int, sa as int, da as int),
{
    proof {
        lemma_products(s as int, d as int, sa as int, da as int);
    }
    let temp = s * (255 - da) + d * (255 - sa);
    if 2 * d <= da {
        div255(2 * s * d + temp)
    } else {
        assert(2 * (da - d) * (sa - s) <= sa * da) by (nonlinear_arith)
            requires
                0 <= s <= sa,
                0 <= 2 * (da - d) <= da,
        ;
        assert(0 <= 2 * (da - d) * (sa - s)) by (nonlinear_arith)
            requires
                0 <= s <= sa,
                0 <= d <= da,
        ;
        div255(sa * da - 2 * (da - d) * (sa - s) + temp)
    }
}

/// Darken: keeps the smaller of the two cross products.
pub fn blend_darken_op(s: u32, d: u32, sa: u32, da: u32) -> (r: u32)
    requires
        blend_args(s, d, sa, da),
    ensures
        r == spec_blend_darken(s as int, d as int, sa as int, da as int),
{
    proof {
        lemma_products(s as int, d as int, sa as int, da as int);
        lemma_div255_le(s * da, s as int);
        lemma_div255_le(d * sa, d as int);
    }
    let sda = s * da;
    let dsa = d * sa;
    if sda < dsa {
        s + d - div255(dsa)
    } else {
        d + s - div255(sda)
    }
}

/// Lighten: keeps the larger of the two cross products.
pub fn blend_lighten_op(s: u32, d: u32, sa: u32, da: u32) -> (r: u32)
    requires
        blend_args(s, d, sa, da),
    ensures
        r == spec_blend_lighten(s as int, d as int, sa as int, da as int),
{
    proof {
        lemma_products(s as int, d as int, sa as int, da as int);
        lemma_div255_le(s * da, s as int);
        lemma_div255_le(d * sa, d as int);
    }
    let sda = s * da;
    let dsa = d * sa;
    if sda > dsa {
        s + d - div255(dsa)
    } else {
        d + s - div255(sda)
    }
}

/// Color dodge, with the zero denominators taken apart.
pub fn blend_color_dodge_op(s: u32, d: u32, sa: u32, da: u32) -> (r: u32)
    requires
        blend_args(s, d, sa, da),
    ensures
        r == spec_blend_color_dodge(s as int, d as int, sa as int, da as int),
{
    proof {
        lemma_products(s as int, d as int, sa as int, da as int);
    }
    assert(da * (sa - s) <= 65025) by (nonlinear_arith)
        requires
            da <= 255,
            sa - s <= 255,
    ;
    if d == 0 {
        div255(s * (255 - da))
    } else if s == sa || da * (sa - s) < d * sa {
        div255(sa * da + s * (255 - da) + d * (255 - sa))
    } else {
        let q = (d * sa) / (sa - s);
        assert(q <= d * sa) by {
            vstd::arithmetic::div_mod::lemma_div_is_ordered_by_denominator(
                (d * sa) as int,
                1,
                (sa - s) as int,
            );
        }
        assert(sa * q <= 255 * 65025) by (nonlinear_arith)
            requires
                sa <= 255,
                q <= 65025,
        ;
        div255(sa * q + s * (255 - da) + d * (255 - sa))
    }
}

/// Color burn, with the zero denominators taken apart.
pub fn blend_color_burn_op(s: u32, d: u32, sa: u32, da: u32) -> (r: u32)
    requires
        blend_args(s, d, sa, da),
    ensures
        r == spec_blend_color_burn(s as int, d as int, sa as int, da as int),
{
    proof {
        lemma_products(s as int, d as int, sa as int, da as int);
    }
    assert((da - d) * sa <= 65025) by (nonlinear_arith)
        requires
            da - d <= 255,
            sa <= 255,
    ;
    if d == da {
        div255(sa * da + s * (255 - da) + d * (255 - sa))
    } else if s == 0 {
        div255(d * (255 - sa))
    } else if da * s < (da - d) * sa {
        assert((da - d) * sa <= 65025) by (nonlinear_arith)
            requires
                da - d <= 255,
                sa <= 255,
        ;
        div255(s * (255 - da) + d * (255 - sa))
    } else {
        assert((da - d) * sa <= 65025) by (nonlinear_arith)
            requires
                da - d <= 255,
                sa <= 255,
        ;
        let q = (da - d) * sa / s;
        assert(q <= da) by {
            vstd::arithmetic::div_mod::lemma_div_is_ordered(
                ((da - d) * sa) as int,
                (da * s) as int,
                s as int,
            );
            vstd::arithmetic::div_mod::lemma_div_multiples_vanish(da as int, s as int);
        }
        assert(sa * (da - q) <= 65025) by (nonlinear_arith)
            requires
                sa <= 255,
                da - q <= 255,
        ;
        div255(sa * (da - q) + s * (255 - da) + d * (255 - sa))
    }
}

/// Hard light: overlay with the roles of source and backdrop exchanged.
pub fn blend_hard_light_op(s: u32, d: u32, sa: u32, da: u32) -> (r: u32)
    requires
        blend_args(s, d, sa, da),
    ensures
        r == spec_blend_hard_light(s as int, d as int, sa as int, da as int),
{
    proof {
        lemma_products(s as int, d as int, sa as int, da as int);
    }
    let tmp = s * (255 - da) + d * (255 - sa);
    if 2 * s <= sa {
        div255(2 * s * d + tmp)
    } else {
        assert(2 * (da - d) * (sa - s) <= sa * da) by (nonlinear_arith)
            requires
                0 <= d <= da,
                0 <= 2 * (sa - s) <= sa,
        ;
        assert(0 <= 2 * (da - d) * (sa - s)) by (nonlinear_arith)
            requires
                0 <= s <= sa,
                0 <= d <= da,
        ;
        div255(sa * da - 2 * (da - d) * (sa - s) + tmp)
    }
}

/// `spec_isqrt(n)` is the integer square root of `n`.
pub proof fn lemma_isqrt(n: nat)
    ensures
        spec_isqrt(n) * spec_isqrt(n) <= n < (spec_isqrt(n) + 1) * (spec_isqrt(n) + 1),
    decreases n,
{
    if n > 0 {
        lemma_isqrt((n - 1) as nat);
        let r = spec_isqrt((n - 1) as nat);
        let r1 = r + 1;
        assert(r1 * r1 < (r1 + 1) * (r1 + 1)) by (nonlinear_arith)
            requires
                r1 >= 1,
        ;
        assert(n <= r1 * r1);
        if r1 * r1 <= n {
            assert(spec_isqrt(n) == r1);
            assert(n < (r1 + 1) * (r1 + 1));
        } else {
            assert(spec_isqrt(n) == r);
            assert(r * r <= n);
        }
    } else {
        assert(spec_isqrt(0) == 0);
        assert(0 * 0 <= 0 < 1 * 1) by (nonlinear_arith);
    }
}

/// The integer square root is the only `r` with `r * r <= n < (r + 1) * (r + 1)`.
proof fn lemma_isqrt_unique(n: nat, r: nat)
    requires
        r * r <= n < (r + 1) * (r + 1),
    ensures
        r == spec_isqrt(n),
{
    lemma_isqrt(n);
    let q = spec_isqrt(n);
    if r < q {
        assert((r + 1) * (r + 1) <= q * q) by (nonlinear_arith)
            requires
                r + 1 <= q,
        ;
    } else if q < r {
        assert((q + 1) * (q + 1) <= r * r) by (nonlinear_arith)
            requires
                q + 1 <= r,
        ;
    }
}

/// The integer square root of `n`: what `sqrt(n as f32) as u32` gives on this range.
fn isqrt(n: u32) -> (r: u32)
    requires
        n <= 65025,
    ensures
        r == spec_isqrt(n as nat),
        r <= 255,
{
    let mut r: u32 = 0;
    loop
        invariant
            r * r <= n,
            r <= 255,
            n <= 65025,
        ensures
            r * r <= n < (r + 1) * (r + 1),
            r <= 255,
        decreases 256 - r,
    {
        let next = r + 1;
        assert(next * next <= 65536) by (nonlinear_arith)
            requires
                next <= 256,
        ;
        if next * next > n {
            break;
        }
        assert(next <= 255) by (nonlinear_arith)
            requires
                next * next <= n,
                n <= 65025,
                next >= 0,
        ;
        r = next;
    }
    proof {
        lemma_isqrt_unique(n as nat, r as nat);
    }
    r
}

/// Soft light, with its three regions of the backdrop.
pub fn blend_soft_light_op(s: u32, d: u32, sa: u32, da: u32) -> (r: u32)
    requires
        blend_args(s, d, sa, da),
    ensures
        r == spec_blend_soft_light(s as int, d as int, sa as int, da as int),
{
    proof {
        lemma_products(s as int, d as int, sa as int, da as int);
    }
    let s: i64 = s as i64;
    let d: i64 = d as i64;
    let sa: i64 = sa as i64;
    let da: i64 = da as i64;
    let s2 = 2 * s;
    let d_np: i64 = if da != 0 {
        assert((255 * d as int) / (da as int) <= 255) by {
            vstd::arithmetic::div_mod::lemma_div_is_ordered(255 * d as int, 255 * da as int, da as int);
            vstd::arithmetic::div_mod::lemma_div_multiples_vanish(255, da as int);
        }
        (255 * d) / da
    } else {
        0
    };
    assert(0 <= d_np <= 255);
    let temp = (s * (255 - da) + d * (255 - sa)) * 255;
    let num: i64 = if s2 < sa {
        assert(0 <= sa * 255 + (s2 - sa) * (255 - d_np) <= 65025) by (nonlinear_arith)
            requires
                0 <= s2 < sa <= 255,
                0 <= d_np <= 255,
        ;
        let inner = sa * 255 + (s2 - sa) * (255 - d_np);
        assert(0 <= d * inner <= 255 * 65025) by (nonlinear_arith)
            requires
                0 <= d <= 255,
                0 <= inner <= 65025,
        ;
        d * inner + temp
    } else if 4 * d <= da {
        assert(0 <= (16 * d_np - 12 * 255) * d_np + 3 * 65025 <= 3 * 65025 + 255 * 1020) by (
        nonlinear_arith)
            requires
                0 <= d_np <= 255,
        ;
        let p = (16 * d_np - 12 * 255) * d_np + 3 * 65025;
        assert(0 <= p * d_np <= 255 * (3 * 65025 + 255 * 1020)) by (nonlinear_arith)
            requires
                0 <= d_np <= 255,
                0 <= p <= 3 * 65025 + 255 * 1020,
        ;
        let q = (p * d_np) / 65025;
        assert(0 <= q <= 1785) by {
            vstd::arithmetic::div_mod::lemma_div_is_ordered(
                (p * d_np) as int,
                255 * (3 * 65025 + 255 * 1020) as int,
                65025,
            );
        }
        assert(0 <= d * sa * 255 <= 65025 * 255) by (nonlinear_arith)
            requires
                0 <= d <= 255,
                0 <= sa <= 255,
        ;
        assert(0 <= da * (s2 - sa) <= 65025 && 0 <= da * (s2 - sa) * q <= 65025 * 1785) by (
        nonlinear_arith)
            requires
                0 <= da <= 255,
                0 <= s2 - sa <= 255,
                0 <= q <= 1785,
        ;
        d * sa * 255 + da * (s2 - sa) * q + temp
    } else {
        let root = isqrt((d_np * 255) as u32) as i64;
        assert(0 <= d * sa * 255 <= 65025 * 255) by (nonlinear_arith)
            requires
                0 <= d <= 255,
                0 <= sa <= 255,
        ;
        assert(0 <= da * (s2 - sa) <= 65025 && 0 <= da * (s2 - sa) * root <= 255 * 255 * 255) by (
        nonlinear_arith)
            requires
                0 <= da <= 255,
                0 <= s2 - sa <= 255,
                0 <= root <= 255,
        ;
        assert(d_np <= d * sa * 255 + temp) by (nonlinear_arith)
            requires
                0 <= s <= sa <= 255,
                1 <= d <= da <= 255,
                d_np <= 255,
                temp == (s * (255 - da) + d * (255 - sa)) * 255,
        ;
        d * sa * 255 + da * (s2 - sa) * root - d_np + temp
    };
    assert(0 <= num <= 200_000_000);
    let r = (num as u64) / 65025;
    r as u32
}

/// Difference: `s + d` less twice the smaller cross product.
pub fn blend_difference_op(s: u32, d: u32, sa: u32, da: u32) -> (r: u32)
    requires
        blend_args(s, d, sa, da),
    ensures
        r == spec_blend_difference(s as int, d as int, sa as int, da as int),
{
    proof {
        lemma_products(s as int, d as int, sa as int, da as int);
        lemma_div255_le(s * da, s as int);
        lemma_div255_le(d * sa, d as int);
    }
    let sda = s * da;
    let dsa = d * sa;
    if sda < dsa {
        assert(sda <= 255 * d);
        proof {
            lemma_div255_le(sda as int, d as int);
        }
        d + s - 2 * div255(sda)
    } else {
        assert(dsa <= 255 * s);
        proof {
            lemma_div255_le(dsa as int, s as int);
        }
        s + d - 2 * div255(dsa)
    }
}

/// Exclusion: `div255(255 * (s + d) - 2 * s * d)`.
pub fn blend_exclusion_op(s: u32, d: u32, sa: u32, da: u32) -> (r: u32)
    requires
        blend_args(s, d, sa, da),
    ensures
        r == spec_blend_exclusion(s as int, d as int, sa as int, da as int),
{
    proof {
        lemma_products(s as int, d as int, sa as int, da as int);
    }
    div255(255 * (s + d) - 2 * s * d)
}

} // verus!

verus! {

/// The twelve separable blend modes.
#[derive(Clone, Copy, Debug, PartialEq, Eq, Structural)]
pub enum BlendMode {
    Normal,
    Multiply,
    Screen,
    Overlay,
    Darken,
    Lighten,
    ColorDodge,
    ColorBurn,
    HardLight,
    SoftLight,
    Difference,
    Exclusion,
}

/// The operator of `mode` on one colour channel.
pub open spec fn spec_blend_channel(mode: BlendMode, s: int, d: int, sa: int, da: int) -> int {
    match mode {
        BlendMode::Normal => spec_blend_normal(s, d, sa, da),
        BlendMode::Multiply => spec_blend_multiply(s, d, sa, da),
        BlendMode::Screen => spec_blend_screen(s, d, sa, da),
        BlendMode::Overlay => spec_blend_overlay(s, d, sa, da),
        BlendMode::Darken => spec_blend_darken(s, d, sa, da),
        BlendMode::Lighten => spec_blend_lighten(s, d, sa, da),
        BlendMode::ColorDodge => spec_blend_color_dodge(s, d, sa, da),
        BlendMode::ColorBurn => spec_blend_color_burn(s, d, sa, da),
        BlendMode::HardLight => spec_blend_hard_light(s, d, sa, da),
        BlendMode::SoftLight => spec_blend_soft_light(s, d, sa, da),
        BlendMode::Difference => spec_blend_difference(s, d, sa, da),
        BlendMode::Exclusion => spec_blend_exclusion(s, d, sa, da),
    }
}

/// The alpha of a blend: `sa + da - div255(sa * da)`.
pub open spec fn spec_blend_alpha(sa: int, da: int) -> int {
    sa + da - spec_div255(sa * da)
}

/// Source `s` blended over backdrop `d` by `mode`, each channel limited to `0..=255`.
pub open spec fn spec_blend_rgba(mode: BlendMode, s: Rgba, d: Rgba) -> Rgba {
    Rgba {
        r: spec_clamp(spec_blend_channel(mode, s.r as int, d.r as int, s.a as int, d.a as int)) as u32,
        g: spec_clamp(spec_blend_channel(mode, s.g as int, d.g as int, s.a as int, d.a as int)) as u32,
        b: spec_clamp(spec_blend_channel(mode, s.b as int, d.b as int, s.a as int, d.a as int)) as u32,
        a: spec_clamp(spec_blend_alpha(s.a as int, d.a as int)) as u32,
    }
}

/// The operator of `mode` on one colour channel.
pub fn blend_channel(mode: BlendMode, s: u32, d: u32, sa: u32, da: u32) -> (r: u32)
    requires
        blend_args(s, d, sa, da),
    ensures
        r == spec_blend_channel(mode, s as int, d as int, sa as int, da as int),
{
    match mode {
        BlendMode::Normal => blend_normal_op(s, d, sa, da),
        BlendMode::Multiply => blend_multiply_op(s, d, sa, da),
        BlendMode::Screen => blend_screen_op(s, d, sa, da),
        BlendMode::Overlay => blend_overlay_op(s, d, sa, da),
        BlendMode::Darken => blend_darken_op(s, d, sa, da),
        BlendMode::Lighten => blend_lighten_op(s, d, sa, da),
        BlendMode::ColorDodge => blend_color_dodge_op(s, d, sa, da),
        BlendMode::ColorBurn => blend_color_burn_op(s, d, sa, da),
        BlendMode::HardLight => blend_hard_light_op(s, d, sa, da),
        BlendMode::SoftLight => blend_soft_light_op(s, d, sa, da),
        BlendMode::Difference => blend_difference_op(s, d, sa, da),
        BlendMode::Exclusion => blend_exclusion_op(s, d, sa, da),
    }
}

/// Source `s` blended over backdrop `d` by `mode`.
pub fn blend_rgba(mode: BlendMode, s: Rgba, d: Rgba) -> (r: Rgba)
    requires
        is_bytes(s),
        is_bytes(d),
        is_premultiplied(s),
        is_premultiplied(d),
    ensures
        r == spec_blend_rgba(mode, s, d),
        is_bytes(r),
{
    proof {
        assert(0 <= s.a * d.a <= 255 * s.a) by (nonlinear_arith)
            requires
                s.a >= 0,
                0 <= d.a <= 255,
        ;
        lemma_div255_le(s.a * d.a, s.a as int);
    }
    let alpha = s.a + d.a - div255(s.a * d.a);
    Rgba {
        r: clamp_pixel(blend_channel(mode, s.r, d.r, s.a, d.a)),
        g: clamp_pixel(blend_channel(mode, s.g, d.g, s.a, d.a)),
        b: clamp_pixel(blend_channel(mode, s.b, d.b, s.a, d.a)),
        a: clamp_pixel(alpha),
    }
}

} // verus!
