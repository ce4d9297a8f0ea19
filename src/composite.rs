//! Porter-Duff operators and arithmetic compositing, per pixel.

use vstd::prelude::*;
use crate::color::FIXED_ONE;
use crate::pixel::{
    Rgba, div255, is_bytes, is_premultiplied, lemma_div255_le, spec_clamp, spec_div255,
};

verus! {

/// The Porter-Duff operators.
#[derive(Clone, Copy, Debug, PartialEq, Eq, Structural)]
pub enum CompositeOperator {
    Over,
    In,
    Out,
    Atop,
    Xor,
}

/// Source `s` composited with backdrop `d` by `op`.
pub open spec fn spec_composite_rgba(op: CompositeOperator, s: Rgba, d: Rgba) -> Rgba {
    let (sa, da) = (s.a as int, d.a as int);
    match op {
        CompositeOperator::Over => Rgba {
            r: (s.r + spec_div255(d.r * (255 - sa))) as u32,
            g: (s.g + spec_div255(d.g * (255 - sa))) as u32,
            b: (s.b + spec_div255(d.b * (255 - sa))) as u32,
            a: (sa + spec_div255(da * (255 - sa))) as u32,
        },
        CompositeOperator::In => Rgba {
            r: spec_div255(s.r * da) as u32,
            g: spec_div255(s.g * da) as u32,
            b: spec_div255(s.b * da) as u32,
            a: spec_div255(sa * da) as u32,
        },
        CompositeOperator::Out => Rgba {
            r: spec_div255(s.r * (255 - da)) as u32,
            g: spec_div255(s.g * (255 - da)) as u32,
            b: spec_div255(s.b * (255 - da)) as u32,
            a: spec_div255(sa * (255 - da)) as u32,
        },
        CompositeOperator::Atop => Rgba {
            r: (spec_div255(s.r * da) + spec_div255(d.r * (255 - sa))) as u32,
            g: (spec_div255(s.g * da) + spec_div255(d.g * (255 - sa))) as u32,
            b: (spec_div255(s.b * da) + spec_div255(d.b * (255 - sa))) as u32,
            a: d.a,
        },
        CompositeOperator::Xor => Rgba {
            r: (spec_div255(s.r * (255 - da)) + spec_div255(d.r * (255 - sa))) as u32,
            g: (spec_div255(s.g * (255 - da)) + spec_div255(d.g * (255 - sa))) as u32,
            b: (spec_div255(s.b * (255 - da)) + spec_div255(d.b * (255 - sa))) as u32,
            a: (spec_div255(sa * (255 - da)) + spec_div255(da * (255 - sa))) as u32,
        },
    }
}

/// `div255(c * k)` for bytes `c` and `k`, which is at most `c` and at most `k`.
fn scale_byte(c: u32, k: u32) -> (r: u32)
    requires
        c <= 255,
        k <= 255,
    ensures
        r == spec_div255(c * k),
        r <= c,
        r <= k,
{
    assert(0 <= c * k <= 255 * c && c * k <= 255 * k) by (nonlinear_arith)
        requires
            0 <= c <= 255,
            0 <= k <= 255,
    ;
    proof {
        lemma_div255_le(c * k, c as int);
        lemma_div255_le(c * k, k as int);
    }
    div255(c * k)
}

/// Source `s` composited with backdrop `d` by `op`.
pub fn composite_rgba(op: CompositeOperator, s: Rgba, d: Rgba) -> (r: Rgba)
    requires
        is_bytes(s),
        is_bytes(d),
        is_premultiplied(s),
        is_premultiplied(d),
    ensures
        r == spec_composite_rgba(op, s, d),
        is_bytes(r),
{
    let inv_sa = 255 - s.a;
    let inv_da = 255 - d.a;
    match op {
        CompositeOperator::Over => Rgba {
            r: s.r + scale_byte(d.r, inv_sa),
            g: s.g + scale_byte(d.g, inv_sa),
            b: s.b + scale_byte(d.b, inv_sa),
            a: s.a + scale_byte(d.a, inv_sa),
        },
        CompositeOperator::In => Rgba {
            r: scale_byte(s.r, d.a),
            g: scale_byte(s.g, d.a),
            b: scale_byte(s.b, d.a),
            a: scale_byte(s.a, d.a),
        },
        CompositeOperator::Out => Rgba {
            r: scale_byte(s.r, inv_da),
            g: scale_byte(s.g, inv_da),
            b: scale_byte(s.b, inv_da),
            a: scale_byte(s.a, inv_da),
        },
        CompositeOperator::Atop => Rgba {
            r: scale_byte(s.r, d.a) + scale_byte(d.r, inv_sa),
            g: scale_byte(s.g, d.a) + scale_byte(d.g, inv_sa),
            b: scale_byte(s.b, d.a) + scale_byte(d.b, inv_sa),
            a: d.a,
        },
        CompositeOperator::Xor => Rgba {
            r: scale_byte(s.r, inv_da) + scale_byte(d.r, inv_sa),
            g: scale_byte(s.g, inv_da) + scale_byte(d.g, inv_sa),
            b: scale_byte(s.b, inv_da) + scale_byte(d.b, inv_sa),
            a: scale_byte(s.a, inv_da) + scale_byte(d.a, inv_sa),
        },
    }
}

/// `k1 * s * d / 255 + k2 * s + k3 * d + k4 * 255` for coefficients in fixed
/// point, truncated and limited to `0..=255`.
pub open spec fn spec_arithmetic_channel(k1: int, k2: int, k3: int, k4: int, s: int, d: int) -> int {
    let v = k1 * s * d + 255 * (k2 * s + k3 * d + k4 * 255);
    if v < 0 {
        0
    } else {
        spec_clamp(v / (255 * FIXED_ONE as int))
    }
}

/// The arithmetic combination of `s` and `d`, every channel alike.
pub open spec fn spec_arithmetic_rgba(k1: int, k2: int, k3: int, k4: int, s: Rgba, d: Rgba) -> Rgba {
    Rgba {
        r: spec_arithmetic_channel(k1, k2, k3, k4, s.r as int, d.r as int) as u32,
        g: spec_arithmetic_channel(k1, k2, k3, k4, s.g as int, d.g as int) as u32,
        b: spec_arithmetic_channel(k1, k2, k3, k4, s.b as int, d.b as int) as u32,
        a: spec_arithmetic_channel(k1, k2, k3, k4, s.a as int, d.a as int) as u32,
    }
}

/// A bound on the product of a coefficient and a channel or product of channels.
const TERM_BOUND: i128 = 600_000_000_000_000_000_000_000;

/// The product of a coefficient and `c`.
fn term(k: i64, c: u32) -> (r: i128)
    requires
        c <= 65025,
    ensures
        r == k * c,
        -TERM_BOUND <= r <= TERM_BOUND,
{
    if k >= 0 {
        assert(0 <= k * c <= 65025 * k) by (nonlinear_arith)
            requires
                0 <= c <= 65025,
                k >= 0,
        ;
    } else {
        assert(65025 * k <= k * c <= 0) by (nonlinear_arith)
            requires
                0 <= c <= 65025,
                k < 0,
        ;
    }
    k as i128 * c as i128
}

/// The arithmetic combination on one channel.
fn arithmetic_channel(k1: i64, k2: i64, k3: i64, k4: i64, s: u32, d: u32) -> (r: u32)
    requires
        s <= 255,
        d <= 255,
    ensures
        r == spec_arithmetic_channel(k1 as int, k2 as int, k3 as int, k4 as int, s as int, d as int),
        r <= 255,
{
    assert(s * d <= 65025) by (nonlinear_arith)
        requires
            s <= 255,
            d <= 255,
    ;
    assert(k1 * s * d == k1 * (s * d)) by (nonlinear_arith);
    let v = term(k1, s * d) + 255 * (term(k2, s) + term(k3, d) + term(k4, 255));
    if v < 0 {
        0
    } else {
        let q = v as u128 / (255 * FIXED_ONE as u128);
        if q > 255 {
            255
        } else {
            q as u32
        }
    }
}

/// The arithmetic combination of `s` and `d`, every channel alike.
pub fn arithmetic_rgba(k1: i64, k2: i64, k3: i64, k4: i64, s: Rgba, d: Rgba) -> (r: Rgba)
    requires
        is_bytes(s),
        is_bytes(d),
    ensures
        r == spec_arithmetic_rgba(k1 as int, k2 as int, k3 as int, k4 as int, s, d),
        is_bytes(r),
{
    Rgba {
        r: arithmetic_channel(k1, k2, k3, k4, s.r, d.r),
        g: arithmetic_channel(k1, k2, k3, k4, s.g, d.g),
        b: arithmetic_channel(k1, k2, k3, k4, s.b, d.b),
        a: arithmetic_channel(k1, k2, k3, k4, s.a, d.a),
    }
}

} // verus!
