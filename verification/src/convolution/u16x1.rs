use crate::coefficients::{
    conv_channel_spec, lemma_sum_abs_nonneg, lemma_sum_abs_take_le, lemma_weighted_sum_bound,
    weighted_sum, CoefficientsI32Chunk, Normalizer32,
};
use crate::pixels::U16;
use crate::typed_image::{lemma_row_major_index, lemma_row_major_injective, TypedImage};
use vstd::prelude::*;

verus! {

/// Row `y` of a single-channel image as integer samples.
pub open spec fn row_vals(img: TypedImage<U16>, y: int) -> Seq<int> {
    Seq::new(img.spec_width() as nat, |x: int| img.spec_pixel(x, y).0 as int)
}

/// What the kernel stores at destination column `x` of row `y`: the scalar
/// fixed-point accumulator of record `x` over source row `y + offset`.
pub open spec fn dst_pixel_spec(
    src: TypedImage<U16>,
    normalizer: Normalizer32,
    offset: int,
    x: int,
    y: int,
) -> int {
    let chunk = normalizer.spec_chunks()[x];
    conv_channel_spec(
        row_vals(src, y + offset),
        chunk.start as int,
        chunk.values@,
        normalizer.spec_precision() as nat,
    )
}

/// Identity record: when record `x` holds the single weight `2^precision` at
/// start `x`, destination pixel `(x, y)` reproduces source pixel
/// `(x, y + offset)` exactly.
pub proof fn lemma_identity_pixel(
    src: TypedImage<U16>,
    normalizer: Normalizer32,
    offset: int,
    x: int,
    y: int,
)
    requires
        src.wf(),
        normalizer.wf(),
        normalizer.spec_src_size() == src.spec_width(),
        0 <= x < normalizer.spec_chunks().len(),
        x < src.spec_width(),
        0 <= y,
        0 <= offset,
        y + offset < src.spec_height(),
        normalizer.spec_chunks()[x].start == x,
        normalizer.spec_chunks()[x].values@.len() == 1,
        normalizer.spec_chunks()[x].values@[0] == vstd::arithmetic::power2::pow2(
            normalizer.spec_precision() as nat,
        ),
    ensures
        dst_pixel_spec(src, normalizer, offset, x, y) == src.spec_pixel(x, y + offset).0,
{
    let vals = row_vals(src, y + offset);
    normalizer.lemma_precision_range();
    crate::coefficients::lemma_identity_record(
        vals,
        x,
        normalizer.spec_chunks()[x].values@,
        normalizer.spec_precision() as nat,
    );
}

/// Saturation: when every sample of source row `y + offset` holds the
/// channel maximum, destination pixel `(x, y)` holds it too, whatever the
/// signs of record `x`'s weights.
pub proof fn lemma_saturation_pixel(
    src: TypedImage<U16>,
    normalizer: Normalizer32,
    offset: int,
    x: int,
    y: int,
)
    requires
        src.wf(),
        normalizer.wf(),
        normalizer.spec_src_size() == src.spec_width(),
        0 <= x < normalizer.spec_chunks().len(),
        0 <= y,
        0 <= offset,
        y + offset < src.spec_height(),
        forall|k: int|
            0 <= k < src.spec_width() ==> (#[trigger] src.spec_pixel(k, y + offset)).0 == 65535,
    ensures
        dst_pixel_spec(src, normalizer, offset, x, y) == 65535,
{
    let vals = row_vals(src, y + offset);
    let chunk = normalizer.spec_chunks()[x];
    normalizer.lemma_precision_range();
    normalizer.lemma_chunk_wf(x);
    crate::coefficients::lemma_saturation_max(
        vals,
        chunk.start as int,
        chunk.values@,
        normalizer.spec_precision() as nat,
    );
}

/// One destination pixel: the record's window over source row `row`,
/// accumulated in 64 bits, shifted and clamped.
#[verifier::loop_isolation(false)]
fn conv_pixel(
    src: &TypedImage<U16>,
    row: u32,
    chunk: &CoefficientsI32Chunk,
    normalizer: &Normalizer32,
) -> (r: U16)
    requires
        src.wf(),
        normalizer.wf(),
        normalizer.spec_src_size() == src.spec_width(),
        row < src.spec_height(),
        Normalizer32::chunk_wf(*chunk, normalizer.spec_precision(), normalizer.spec_src_size()),
    ensures
        r.0 as int == conv_channel_spec(
            row_vals(*src, row as int),
            chunk.start as int,
            chunk.values@,
            normalizer.spec_precision() as nat,
        ),
{
    let ghost vals = row_vals(*src, row as int);
    let ghost start = chunk.start as int;
    let mut ss: i64 = normalizer.rounding_bias();
    let len = chunk.values.len();
    for j in 0..len
        invariant
            ss == normalizer.spec_rounding_bias() + weighted_sum(
                vals,
                start,
                chunk.values@.take(j as int),
            ),
    {
        let w = chunk.values[j];
        let px = src.pixel(chunk.start + j as u32, row);
        proof {
            let ws1 = chunk.values@.take(j + 1);
            assert(ws1.drop_last() =~= chunk.values@.take(j as int));
            assert(ws1.last() == chunk.values@[j as int]);
            assert(vals[start + j] == px.0 as int);
            lemma_sum_abs_take_le(chunk.values@, j + 1);
            lemma_sum_abs_nonneg(ws1);
            lemma_weighted_sum_bound(vals, start, ws1, 65535);
            let pxv = px.0 as int;
            let wv = w as int;
            assert(-(0x7fff_8000_0000_0000) <= pxv * wv <= 0x7fff_8000_0000_0000)
                by (nonlinear_arith)
                requires
                    0 <= pxv <= 65535,
                    -0x8000_0000 <= wv <= 0x7fff_ffff,
            ;
        }
        ss = ss + px.0 as i64 * (w as i64);
    }
    proof {
        assert(chunk.values@.take(len as int) =~= chunk.values@);
    }
    U16(normalizer.clip(ss))
}

/// Writes each destination pixel of `dst` as the fixed-point weighted sum of
/// the source pixels selected by that column's coefficient record, reading
/// source rows starting at `offset`.
#[verifier::loop_isolation(false)]
pub fn horiz_convolution(
    src: &TypedImage<U16>,
    dst: &mut TypedImage<U16>,
    offset: u32,
    normalizer: &Normalizer32,
)
    requires
        src.wf(),
        old(dst).wf(),
        normalizer.wf(),
        normalizer.spec_src_size() == src.spec_width(),
        normalizer.spec_chunks().len() == old(dst).spec_width(),
        offset + old(dst).spec_height() <= src.spec_height(),
    ensures
        final(dst).wf(),
        final(dst).spec_width() == old(dst).spec_width(),
        final(dst).spec_height() == old(dst).spec_height(),
        forall|x: int, y: int|
            0 <= x < final(dst).spec_width() && 0 <= y < final(dst).spec_height()
                ==> (#[trigger] final(dst).spec_pixel(x, y)).0 as int == dst_pixel_spec(
                *src,
                *normalizer,
                offset as int,
                x,
                y,
            ),
{
    let w = dst.width();
    let h = dst.height();
    for y in 0..h
        invariant
            dst.wf(),
            dst.spec_width() == old(dst).spec_width(),
            dst.spec_height() == old(dst).spec_height(),
            forall|xx: int, yy: int|
                0 <= xx < w && 0 <= yy < y ==> (#[trigger] dst.spec_pixel(xx, yy)).0 as int
                    == dst_pixel_spec(*src, *normalizer, offset as int, xx, yy),
    {
        for x in 0..w
            invariant
                dst.wf(),
                dst.spec_width() == old(dst).spec_width(),
                dst.spec_height() == old(dst).spec_height(),
                forall|xx: int, yy: int|
                    0 <= xx < w && 0 <= yy < y ==> (#[trigger] dst.spec_pixel(xx, yy)).0 as int
                        == dst_pixel_spec(*src, *normalizer, offset as int, xx, yy),
                forall|xx: int|
                    0 <= xx < x ==> (#[trigger] dst.spec_pixel(xx, y as int)).0 as int
                        == dst_pixel_spec(*src, *normalizer, offset as int, xx, y as int),
        {
            let chunks = normalizer.chunks();
            let chunk = &chunks[x as usize];
            proof {
                normalizer.lemma_chunk_wf(x as int);
            }
            let px = conv_pixel(src, offset + y, chunk, normalizer);
            let ghost prev = *dst;
            dst.set_pixel(x, y, px);
            proof {
                lemma_row_major_index(w as int, h as int, x as int, y as int);
                assert forall|xx: int, yy: int|
                    0 <= xx < w && 0 <= yy < y implies (#[trigger] dst.spec_pixel(xx, yy)).0 as int
                    == dst_pixel_spec(*src, *normalizer, offset as int, xx, yy) by {
                    lemma_row_major_injective(w as int, xx, yy, x as int, y as int);
                    lemma_row_major_index(w as int, h as int, xx, yy);
                    let idx = y as int * w as int + x as int;
                    let j = yy * w as int + xx;
                    assert(prev.spec_pixels().update(idx, px)[j] == prev.spec_pixels()[j]);
                    assert(dst.spec_pixel(xx, yy) == prev.spec_pixel(xx, yy));
                }
                assert forall|xx: int| 0 <= xx < x implies (#[trigger] dst.spec_pixel(
                    xx,
                    y as int,
                )).0 as int == dst_pixel_spec(*src, *normalizer, offset as int, xx, y as int) by {
                    lemma_row_major_injective(w as int, xx, y as int, x as int, y as int);
                    lemma_row_major_index(w as int, h as int, xx, y as int);
                    let idx = y as int * w as int + x as int;
                    let j = y as int * w as int + xx;
                    assert(prev.spec_pixels().update(idx, px)[j] == prev.spec_pixels()[j]);
                    assert(dst.spec_pixel(xx, y as int) == prev.spec_pixel(xx, y as int));
                }
                assert(dst.spec_pixel(x as int, y as int) == px);
            }
        }
    }
}

} // verus!
