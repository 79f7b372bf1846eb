//! Alpha premultiplication pipeline: colour components are scaled by
//! `alpha / max` before a resize and unscaled after it, per pixel layout.

pub mod u8x2;

use vstd::arithmetic::power2::lemma2_to64;
use vstd::bits::lemma_u32_shr_is_div;
use vstd::prelude::*;

verus! {

/// `(c * a) / 255` rounded, computed with the shift-add identity
/// `(t + (t >> 8)) >> 8` over `t = c * a + 127`.
pub open spec fn mul_div_255_spec(c: int, a: int) -> int {
    let t = c * a + 127;
    (t + t / 256) / 256
}

/// `min(255, round(c * 255 / a))` for `a > 0`, and 0 for `a == 0`: the
/// saturating unpremultiply of one colour component.
pub open spec fn div_alpha_spec(c: int, a: int) -> int {
    if a == 0 {
        0
    } else {
        let q = (2 * c * 255 + a) / (2 * a);
        if q > 255 {
            255
        } else {
            q
        }
    }
}

/// Alpha roundtrip: unpremultiplying a premultiplied colour component
/// recovers it to within one unit, whenever alpha is at least half the full
/// scale.  For smaller alpha the premultiplication quantizes away low bits
/// and the bound fails (alpha 1 maps both 0 and 128 to 0).
pub proof fn lemma_alpha_roundtrip(c: int, a: int)
    requires
        0 <= c <= 255,
        128 <= a <= 255,
    ensures
        c - 1 <= div_alpha_spec(mul_div_255_spec(c, a), a) <= c + 1,
{
    let t = c * a + 127;
    let u = t / 256;
    let m = (t + u) / 256;
    let q = (2 * m * 255 + a) / (2 * a);
    assert(c - 1 <= q <= c + 1 && 0 <= m) by (nonlinear_arith)
        requires
            0 <= c <= 255,
            128 <= a <= 255,
            t == c * a + 127,
            u == t / 256,
            m == (t + u) / 256,
            q == (2 * m * 255 + a) / (2 * a),
    ;
}

/// Multiplies a colour component by `alpha / 255`, rounding as the fixed
/// shift-add identity does.
pub fn mul_div_255(c: u8, a: u8) -> (r: u8)
    ensures
        r as int == mul_div_255_spec(c as int, a as int),
{
    proof {
        assert(c as int * a as int <= 65025) by (nonlinear_arith)
            requires
                c as int <= 255,
                a as int <= 255,
        ;
    }
    let t: u32 = c as u32 * a as u32 + 127;
    proof {
        lemma2_to64();
        lemma_u32_shr_is_div(t, 8);
    }
    let s: u32 = t + (t >> 8);
    proof {
        lemma_u32_shr_is_div(s, 8);
    }
    (s >> 8) as u8
}

/// Undoes the premultiplication of one colour component: divides by
/// `alpha / 255`, rounding to nearest, saturating at 255, and mapping the
/// fully transparent case to 0.
pub fn div_and_clip(c: u8, a: u8) -> (r: u8)
    ensures
        r as int == div_alpha_spec(c as int, a as int),
{
    if a == 0 {
        return 0;
    }
    let q: u32 = (2 * (c as u32) * 255 + a as u32) / (2 * (a as u32));
    if q > 255 {
        255
    } else {
        q as u8
    }
}

} // verus!
