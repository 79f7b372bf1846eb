use crate::alpha::{div_alpha_spec, div_and_clip, mul_div_255, mul_div_255_spec};
use crate::pixels::U8x2;
use crate::typed_image::{lemma_row_major_index, lemma_row_major_injective, TypedImage};
use vstd::pervasive::VecAdditionalExecFns;
use vstd::prelude::*;

verus! {

/// The premultiplied form of one luminance-alpha pixel: the colour component
/// scaled by `alpha / 255`, the alpha component kept.
pub open spec fn multiplied_pixel(p: U8x2) -> (int, int) {
    (mul_div_255_spec(p.0[0] as int, p.0[1] as int), p.0[1] as int)
}

/// The unpremultiplied form of one luminance-alpha pixel: the colour
/// component divided by `alpha / 255`, the alpha component kept.
pub open spec fn divided_pixel(p: U8x2) -> (int, int) {
    (div_alpha_spec(p.0[0] as int, p.0[1] as int), p.0[1] as int)
}

/// Whether pixel `d` holds the premultiplied form of pixel `s`.
pub open spec fn is_multiplied(s: U8x2, d: U8x2) -> bool {
    (d.0[0] as int, d.0[1] as int) == multiplied_pixel(s)
}

/// Whether pixel `d` holds the unpremultiplied form of pixel `s`.
pub open spec fn is_divided(s: U8x2, d: U8x2) -> bool {
    (d.0[0] as int, d.0[1] as int) == divided_pixel(s)
}

/// Alpha roundtrip at pixel level: premultiplying a pixel and then
/// unpremultiplying the result keeps the alpha channel and recovers the
/// colour channel to within one unit, whenever alpha is at least half the
/// full scale.
pub proof fn lemma_pixel_roundtrip(s: U8x2, m: U8x2, d: U8x2)
    requires
        is_multiplied(s, m),
        is_divided(m, d),
        s.0[1] >= 128,
    ensures
        d.0[1] == s.0[1],
        s.0[0] - 1 <= d.0[0] <= s.0[0] + 1,
{
    crate::alpha::lemma_alpha_roundtrip(s.0[0] as int, s.0[1] as int);
}

/// Premultiplies one pixel.
fn multiply_pixel(p: U8x2) -> (r: U8x2)
    ensures
        is_multiplied(p, r),
{
    let a = p.0[1];
    U8x2([mul_div_255(p.0[0], a), a])
}

/// Unpremultiplies one pixel.
fn divide_pixel(p: U8x2) -> (r: U8x2)
    ensures
        is_divided(p, r),
{
    let a = p.0[1];
    U8x2([div_and_clip(p.0[0], a), a])
}

/// Premultiplies a row of pixels out of place.
pub fn multiply_alpha_row(src_row: &Vec<U8x2>, dst_row: &mut Vec<U8x2>)
    requires
        old(dst_row)@.len() == src_row@.len(),
    ensures
        final(dst_row)@.len() == src_row@.len(),
        forall|i: int|
            0 <= i < src_row@.len() ==> is_multiplied(src_row@[i], #[trigger] final(dst_row)@[i]),
{
    let n = src_row.len();
    for i in 0..n
        invariant
            dst_row@.len() == n == src_row@.len(),
            forall|k: int| 0 <= k < i ==> is_multiplied(src_row@[k], #[trigger] dst_row@[k]),
    {
        dst_row.set(i, multiply_pixel(src_row[i]));
    }
}

/// Premultiplies a row of pixels in place.
pub fn multiply_alpha_row_inplace(row: &mut Vec<U8x2>)
    ensures
        final(row)@.len() == old(row)@.len(),
        forall|i: int|
            0 <= i < old(row)@.len() ==> is_multiplied(old(row)@[i], #[trigger] final(row)@[i]),
{
    let n = row.len();
    for i in 0..n
        invariant
            row@.len() == n == old(row)@.len(),
            forall|k: int| 0 <= k < i ==> is_multiplied(old(row)@[k], #[trigger] row@[k]),
            forall|k: int| i <= k < n ==> old(row)@[k] == #[trigger] row@[k],
    {
        let p = row[i];
        row.set(i, multiply_pixel(p));
    }
}

/// Unpremultiplies a row of pixels out of place.
pub fn divide_alpha_row(src_row: &Vec<U8x2>, dst_row: &mut Vec<U8x2>)
    requires
        old(dst_row)@.len() == src_row@.len(),
    ensures
        final(dst_row)@.len() == src_row@.len(),
        forall|i: int|
            0 <= i < src_row@.len() ==> is_divided(src_row@[i], #[trigger] final(dst_row)@[i]),
{
    let n = src_row.len();
    for i in 0..n
        invariant
            dst_row@.len() == n == src_row@.len(),
            forall|k: int| 0 <= k < i ==> is_divided(src_row@[k], #[trigger] dst_row@[k]),
    {
        dst_row.set(i, divide_pixel(src_row[i]));
    }
}

/// Unpremultiplies a row of pixels in place.
pub fn divide_alpha_row_inplace(row: &mut Vec<U8x2>)
    ensures
        final(row)@.len() == old(row)@.len(),
        forall|i: int|
            0 <= i < old(row)@.len() ==> is_divided(old(row)@[i], #[trigger] final(row)@[i]),
{
    let n = row.len();
    for i in 0..n
        invariant
            row@.len() == n == old(row)@.len(),
            forall|k: int| 0 <= k < i ==> is_divided(old(row)@[k], #[trigger] row@[k]),
            forall|k: int| i <= k < n ==> old(row)@[k] == #[trigger] row@[k],
    {
        let p = row[i];
        row.set(i, divide_pixel(p));
    }
}

/// Premultiplies every pixel of `src` into `dst`.
pub fn multiply_alpha(src: &TypedImage<U8x2>, dst: &mut TypedImage<U8x2>)
    requires
        src.wf(),
        old(dst).wf(),
        old(dst).spec_width() == src.spec_width(),
        old(dst).spec_height() == src.spec_height(),
    ensures
        final(dst).wf(),
        final(dst).spec_width() == src.spec_width(),
        final(dst).spec_height() == src.spec_height(),
        forall|x: int, y: int|
            0 <= x < src.spec_width() && 0 <= y < src.spec_height() ==> is_multiplied(
                src.spec_pixel(x, y),
                #[trigger] final(dst).spec_pixel(x, y),
            ),
{
    apply_rows(src, dst, true);
}

/// Premultiplies every pixel of `image` in place.
pub fn multiply_alpha_inplace(image: &mut TypedImage<U8x2>)
    requires
        old(image).wf(),
    ensures
        final(image).wf(),
        final(image).spec_width() == old(image).spec_width(),
        final(image).spec_height() == old(image).spec_height(),
        forall|x: int, y: int|
            0 <= x < old(image).spec_width() && 0 <= y < old(image).spec_height()
                ==> is_multiplied(
                old(image).spec_pixel(x, y),
                #[trigger] final(image).spec_pixel(x, y),
            ),
{
    apply_rows_inplace(image, true);
}

/// Unpremultiplies every pixel of `src` into `dst`.
pub fn divide_alpha(src: &TypedImage<U8x2>, dst: &mut TypedImage<U8x2>)
    requires
        src.wf(),
        old(dst).wf(),
        old(dst).spec_width() == src.spec_width(),
        old(dst).spec_height() == src.spec_height(),
    ensures
        final(dst).wf(),
        final(dst).spec_width() == src.spec_width(),
        final(dst).spec_height() == src.spec_height(),
        forall|x: int, y: int|
            0 <= x < src.spec_width() && 0 <= y < src.spec_height() ==> is_divided(
                src.spec_pixel(x, y),
                #[trigger] final(dst).spec_pixel(x, y),
            ),
{
    apply_rows(src, dst, false);
}

/// Unpremultiplies every pixel of `image` in place.
pub fn divide_alpha_inplace(image: &mut TypedImage<U8x2>)
    requires
        old(image).wf(),
    ensures
        final(image).wf(),
        final(image).spec_width() == old(image).spec_width(),
        final(image).spec_height() == old(image).spec_height(),
        forall|x: int, y: int|
            0 <= x < old(image).spec_width() && 0 <= y < old(image).spec_height() ==> is_divided(
                old(image).spec_pixel(x, y),
                #[trigger] final(image).spec_pixel(x, y),
            ),
{
    apply_rows_inplace(image, false);
}

/// Whether pixel `d` holds the premultiplied (`multiply` true) or the
/// unpremultiplied (`multiply` false) form of pixel `s`.
pub open spec fn is_applied(multiply: bool, s: U8x2, d: U8x2) -> bool {
    if multiply {
        is_multiplied(s, d)
    } else {
        is_divided(s, d)
    }
}

/// Applies the chosen per-pixel transform to every pixel of `src`, writing
/// the results into `dst`.
#[verifier::loop_isolation(false)]
fn apply_rows(src: &TypedImage<U8x2>, dst: &mut TypedImage<U8x2>, multiply: bool)
    requires
        src.wf(),
        old(dst).wf(),
        old(dst).spec_width() == src.spec_width(),
        old(dst).spec_height() == src.spec_height(),
    ensures
        final(dst).wf(),
        final(dst).spec_width() == src.spec_width(),
        final(dst).spec_height() == src.spec_height(),
        forall|x: int, y: int|
            0 <= x < src.spec_width() && 0 <= y < src.spec_height() ==> is_applied(
                multiply,
                src.spec_pixel(x, y),
                #[trigger] final(dst).spec_pixel(x, y),
            ),
{
    let w = src.width();
    let h = src.height();
    for y in 0..h
        invariant
            dst.wf(),
            dst.spec_width() == src.spec_width(),
            dst.spec_height() == src.spec_height(),
            forall|xx: int, yy: int|
                0 <= xx < w && 0 <= yy < y ==> is_applied(
                    multiply,
                    src.spec_pixel(xx, yy),
                    #[trigger] dst.spec_pixel(xx, yy),
                ),
    {
        for x in 0..w
            invariant
                dst.wf(),
                dst.spec_width() == src.spec_width(),
                dst.spec_height() == src.spec_height(),
                forall|xx: int, yy: int|
                    0 <= xx < w && 0 <= yy < y ==> is_applied(
                        multiply,
                        src.spec_pixel(xx, yy),
                        #[trigger] dst.spec_pixel(xx, yy),
                    ),
                forall|xx: int|
                    0 <= xx < x ==> is_applied(
                        multiply,
                        src.spec_pixel(xx, y as int),
                        #[trigger] dst.spec_pixel(xx, y as int),
                    ),
        {
            let s = src.pixel(x, y);
            let p = if multiply {
                multiply_pixel(s)
            } else {
                divide_pixel(s)
            };
            let ghost prev = *dst;
            dst.set_pixel(x, y, p);
            proof {
                lemma_row_major_index(w as int, h as int, x as int, y as int);
                assert forall|xx: int, yy: int| 0 <= xx < w && 0 <= yy < y implies is_applied(
                    multiply,
                    src.spec_pixel(xx, yy),
                    #[trigger] dst.spec_pixel(xx, yy),
                ) by {
                    lemma_row_major_injective(w as int, xx, yy, x as int, y as int);
                    lemma_row_major_index(w as int, h as int, xx, yy);
                    let idx = y as int * w as int + x as int;
                    let j = yy * w as int + xx;
                    assert(prev.spec_pixels().update(idx, p)[j] == prev.spec_pixels()[j]);
                    assert(dst.spec_pixel(xx, yy) == prev.spec_pixel(xx, yy));
                }
                assert forall|xx: int| 0 <= xx < x implies is_applied(
                    multiply,
                    src.spec_pixel(xx, y as int),
                    #[trigger] dst.spec_pixel(xx, y as int),
                ) by {
                    lemma_row_major_injective(w as int, xx, y as int, x as int, y as int);
                    lemma_row_major_index(w as int, h as int, xx, y as int);
                    let idx = y as int * w as int + x as int;
                    let j = y as int * w as int + xx;
                    assert(prev.spec_pixels().update(idx, p)[j] == prev.spec_pixels()[j]);
                    assert(dst.spec_pixel(xx, y as int) == prev.spec_pixel(xx, y as int));
                }
                assert(dst.spec_pixel(x as int, y as int) == p);
            }
        }
    }
}

/// Applies the chosen per-pixel transform to every pixel of `image` in
/// place.
#[verifier::loop_isolation(false)]
fn apply_rows_inplace(image: &mut TypedImage<U8x2>, multiply: bool)
    requires
        old(image).wf(),
    ensures
        final(image).wf(),
        final(image).spec_width() == old(image).spec_width(),
        final(image).spec_height() == old(image).spec_height(),
        forall|x: int, y: int|
            0 <= x < old(image).spec_width() && 0 <= y < old(image).spec_height() ==> is_applied(
                multiply,
                old(image).spec_pixel(x, y),
                #[trigger] final(image).spec_pixel(x, y),
            ),
{
    let w = image.width();
    let h = image.height();
    for y in 0..h
        invariant
            image.wf(),
            image.spec_width() == old(image).spec_width(),
            image.spec_height() == old(image).spec_height(),
            forall|xx: int, yy: int|
                0 <= xx < w && 0 <= yy < y ==> is_applied(
                    multiply,
                    old(image).spec_pixel(xx, yy),
                    #[trigger] image.spec_pixel(xx, yy),
                ),
            forall|xx: int, yy: int|
                0 <= xx < w && y <= yy < h ==> old(image).spec_pixel(xx, yy) == #[trigger] image.spec_pixel(
                    xx,
                    yy,
                ),
    {
        for x in 0..w
            invariant
                image.wf(),
                image.spec_width() == old(image).spec_width(),
                image.spec_height() == old(image).spec_height(),
                forall|xx: int, yy: int|
                    0 <= xx < w && 0 <= yy < y ==> is_applied(
                        multiply,
                        old(image).spec_pixel(xx, yy),
                        #[trigger] image.spec_pixel(xx, yy),
                    ),
                forall|xx: int|
                    0 <= xx < x ==> is_applied(
                        multiply,
                        old(image).spec_pixel(xx, y as int),
                        #[trigger] image.spec_pixel(xx, y as int),
                    ),
                forall|xx: int, yy: int|
                    0 <= xx < w && y <= yy < h && (yy != y || x <= xx) ==> old(image).spec_pixel(
                        xx,
                        yy,
                    ) == #[trigger] image.spec_pixel(xx, yy),
        {
            let s = image.pixel(x, y);
            let p = if multiply {
                multiply_pixel(s)
            } else {
                divide_pixel(s)
            };
            let ghost prev = *image;
            image.set_pixel(x, y, p);
            proof {
                lemma_row_major_index(w as int, h as int, x as int, y as int);
                assert forall|xx: int, yy: int|
                    0 <= xx < w && 0 <= yy < h && !(xx == x && yy == y as int) implies #[trigger] image.spec_pixel(
                    xx,
                    yy,
                ) == prev.spec_pixel(xx, yy) by {
                    lemma_row_major_injective(w as int, xx, yy, x as int, y as int);
                    lemma_row_major_index(w as int, h as int, xx, yy);
                    let idx = y as int * w as int + x as int;
                    let j = yy * w as int + xx;
                    assert(prev.spec_pixels().update(idx, p)[j] == prev.spec_pixels()[j]);
                }
                assert(image.spec_pixel(x as int, y as int) == p);
                assert(prev.spec_pixel(x as int, y as int) == old(image).spec_pixel(
                    x as int,
                    y as int,
                ));
            }
        }
    }
}

} // verus!
