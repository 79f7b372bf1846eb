use crate::coefficients::{
    conv_channel_spec, lemma_sum_abs_nonneg, lemma_sum_abs_take_le, lemma_weighted_sum_bound,
    weighted_sum, CoefficientsI32Chunk, Normalizer32,
};
use crate::pixels::U16x2;
use crate::typed_image::{lemma_row_major_index, lemma_row_major_injective, TypedImage};
use vstd::prelude::*;

verus! {

/// Channel `c` of row `y` of a two-channel image as integer samples.
pub open spec fn row_vals(img: TypedImage<U16x2>, y: int, c: int) -> Seq<int> {
    Seq::new(img.spec_width() as nat, |x: int| img.spec_pixel(x, y).0[c] as int)
}

/// What the kernel stores in channel `c` of destination column `x`, row `y`:
/// the scalar fixed-point accumulator of record `x` over source row
/// `y + offset`.
pub open spec fn dst_pixel_spec(
    src: TypedImage<U16x2>,
    normalizer: Normalizer32,
    offset: int,
    x: int,
    y: int,
    c: int,
) -> int {
    let chunk = normalizer.spec_chunks()[x];
    conv_channel_spec(
        row_vals(src, y + offset, c),
        chunk.start as int,
        chunk.values@,
        normalizer.spec_precision() as nat,
    )
}

/// One destination pixel: the record's window over source row `row`,
/// accumulated per channel in 64 bits, shifted and clamped.
#[verifier::loop_isolation(false)]
fn conv_pixel(
    src: &TypedImage<U16x2>,
    row: u32,
    chunk: &CoefficientsI32Chunk,
    normalizer: &Normalizer32,
) -> (r: U16x2)
    requires
        src.wf(),
        normalizer.wf(),
        normalizer.spec_src_size() == src.spec_width(),
        row < src.spec_height(),
        Normalizer32::chunk_wf(*chunk, normalizer.spec_precision(), normalizer.spec_src_size()),
    ensures
        forall|c: int|
            0 <= c < 2 ==> r.0[c] as int == conv_channel_spec(
                #[trigger] row_vals(*src, row as int, c),
                chunk.start as int,
                chunk.values@,
                normalizer.spec_precision() as nat,
            ),
{
    let ghost vals0 = row_vals(*src, row as int, 0);
    let ghost vals1 = row_vals(*src, row as int, 1);
    let ghost start = chunk.start as int;
    let bias = normalizer.rounding_bias();
    let mut ss0: i64 = bias;
    let mut ss1: i64 = bias;
    let len = chunk.values.len();
    for j in 0..len
        invariant
            ss0 == normalizer.spec_rounding_bias() + weighted_sum(
                vals0,
                start,
                chunk.values@.take(j as int),
            ),
            ss1 == normalizer.spec_rounding_bias() + weighted_sum(
                vals1,
                start,
                chunk.values@.take(j as int),
            ),
    {
        let w = chunk.values[j];
        let px = src.pixel(chunk.start + j as u32, row);
        proof {
            let ws1 = chunk.values@.take(j + 1);
            assert(ws1.drop_last() =~= chunk.values@.take(j as int));
            assert(ws1.last() == chunk.values@[j as int]);
            assert(vals0[start + j] == px.0[0] as int);
            assert(vals1[start + j] == px.0[1] as int);
            lemma_sum_abs_take_le(chunk.values@, j + 1);
            lemma_sum_abs_nonneg(ws1);
            lemma_weighted_sum_bound(vals0, start, ws1, 65535);
            lemma_weighted_sum_bound(vals1, start, ws1, 65535);
            let wv = w as int;
            let pxv0 = px.0[0] as int;
            let pxv1 = px.0[1] as int;
            assert((-0x7fff_8000_0000_0000 <= pxv0 * wv <= 0x7fff_8000_0000_0000) && (
            -0x7fff_8000_0000_0000 <= pxv1 * wv <= 0x7fff_8000_0000_0000)) by (nonlinear_arith)
                requires
                    0 <= pxv0 <= 65535,
                    0 <= pxv1 <= 65535,
                    -0x8000_0000 <= wv <= 0x7fff_ffff,
            ;
        }
        ss0 = ss0 + px.0[0] as i64 * (w as i64);
        ss1 = ss1 + px.0[1] as i64 * (w as i64);
    }
    proof {
        assert(chunk.values@.take(len as int) =~= chunk.values@);
    }
    U16x2([normalizer.clip(ss0), normalizer.clip(ss1)])
}

/// Writes each destination pixel of `dst` as the per-channel fixed-point
/// weighted sum of the source pixels selected by that column's coefficient
/// record, reading source rows starting at `offset`.
#[verifier::loop_isolation(false)]
pub fn horiz_convolution(
    src: &TypedImage<U16x2>,
    dst: &mut TypedImage<U16x2>,
    offset: u32,
    normalizer: &Normalizer32,
)
    requires
        src.wf(),
        old(dst).wf(),
        normalizer.wf(),
        normalizer.spec_src_size() == src.spec_width(),
        normalizer.spec_chunks().len() == old(dst).spec_width(),
        offset + old(dst).spec_height() <= src.spec_height(),
    ensures
        final(dst).wf(),
        final(dst).spec_width() == old(dst).spec_width(),
        final(dst).spec_height() == old(dst).spec_height(),
        forall|x: int, y: int|
            0 <= x < final(dst).spec_width() && 0 <= y < final(dst).spec_height() ==> {
                let px = #[trigger] final(dst).spec_pixel(x, y);
                &&& px.0[0] as int == dst_pixel_spec(
                    *src,
                    *normalizer,
                    offset as int,
                    x,
                    y,
                    0,
                )
                &&& px.0[1] as int == dst_pixel_spec(
                    *src,
                    *normalizer,
                    offset as int,
                    x,
                    y,
                    1,
                )
            },
{
    let w = dst.width();
    let h = dst.height();
    for y in 0..h
        invariant
            dst.wf(),
            dst.spec_width() == old(dst).spec_width(),
            dst.spec_height() == old(dst).spec_height(),
            forall|xx: int, yy: int|
                0 <= xx < w && 0 <= yy < y ==> {
                    let px = #[trigger] dst.spec_pixel(xx, yy);
                    &&& px.0[0] as int == dst_pixel_spec(
                        *src,
                        *normalizer,
                        offset as int,
                        xx,
                        yy,
                        0,
                    )
                    &&& px.0[1] as int == dst_pixel_spec(
                        *src,
                        *normalizer,
                        offset as int,
                        xx,
                        yy,
                        1,
                    )
                },
    {
        for x in 0..w
            invariant
                dst.wf(),
                dst.spec_width() == old(dst).spec_width(),
                dst.spec_height() == old(dst).spec_height(),
                forall|xx: int, yy: int|
                    0 <= xx < w && 0 <= yy < y ==> {
                        let px = #[trigger] dst.spec_pixel(xx, yy);
                        &&& px.0[0] as int == dst_pixel_spec(
                            *src,
                            *normalizer,
                            offset as int,
                            xx,
                            yy,
                            0,
                        )
                        &&& px.0[1] as int == dst_pixel_spec(
                            *src,
                            *normalizer,
                            offset as int,
                            xx,
                            yy,
                            1,
                        )
                    },
                forall|xx: int|
                    0 <= xx < x ==> {
                        let px = #[trigger] dst.spec_pixel(xx, y as int);
                        &&& px.0[0] as int == dst_pixel_spec(
                            *src,
                            *normalizer,
                            offset as int,
                            xx,
                            y as int,
                            0,
                        )
                        &&& px.0[1] as int == dst_pixel_spec(
                            *src,
                            *normalizer,
                            offset as int,
                            xx,
                            y as int,
                            1,
                        )
                    },
        {
            let chunks = normalizer.chunks();
            let chunk = &chunks[x as usize];
            proof {
                normalizer.lemma_chunk_wf(x as int);
            }
            let px = conv_pixel(src, offset + y, chunk, normalizer);
            let ghost prev = *dst;
            dst.set_pixel(x, y, px);
            proof {
                lemma_row_major_index(w as int, h as int, x as int, y as int);
                assert forall|xx: int, yy: int| 0 <= xx < w && 0 <= yy < y implies {
                    let p = #[trigger] dst.spec_pixel(xx, yy);
                    &&& p.0[0] as int == dst_pixel_spec(
                        *src,
                        *normalizer,
                        offset as int,
                        xx,
                        yy,
                        0,
                    )
                    &&& p.0[1] as int == dst_pixel_spec(
                        *src,
                        *normalizer,
                        offset as int,
                        xx,
                        yy,
                        1,
                    )
                } by {
                    lemma_row_major_injective(w as int, xx, yy, x as int, y as int);
                    lemma_row_major_index(w as int, h as int, xx, yy);
                    let idx = y as int * w as int + x as int;
                    let j = yy * w as int + xx;
                    assert(prev.spec_pixels().update(idx, px)[j] == prev.spec_pixels()[j]);
                    assert(dst.spec_pixel(xx, yy) == prev.spec_pixel(xx, yy));
                }
                assert forall|xx: int| 0 <= xx < x implies {
                    let p = #[trigger] dst.spec_pixel(xx, y as int);
                    &&& p.0[0] as int == dst_pixel_spec(
                        *src,
                        *normalizer,
                        offset as int,
                        xx,
                        y as int,
                        0,
                    )
                    &&& p.0[1] as int == dst_pixel_spec(
                        *src,
                        *normalizer,
                        offset as int,
                        xx,
                        y as int,
                        1,
                    )
                } by {
                    lemma_row_major_injective(w as int, xx, y as int, x as int, y as int);
                    lemma_row_major_index(w as int, h as int, xx, y as int);
                    let idx = y as int * w as int + x as int;
                    let j = y as int * w as int + xx;
                    assert(prev.spec_pixels().update(idx, px)[j] == prev.spec_pixels()[j]);
                    assert(dst.spec_pixel(xx, y as int) == prev.spec_pixel(xx, y as int));
                }
                assert(dst.spec_pixel(x as int, y as int) == px);
            }
        }
    }
}

} // verus!
