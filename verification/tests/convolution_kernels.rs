use fast_image_resize::coefficients::{CoefficientsI32Chunk, Normalizer32};
use fast_image_resize::convolution::{u16x1, u16x2, u16x3, u16x4};
use fast_image_resize::pixels::{U16, U16x2, U16x3, U16x4};
use fast_image_resize::typed_image::TypedImage;

fn chunk(start: u32, values: Vec<i32>) -> CoefficientsI32Chunk {
    CoefficientsI32Chunk { start, values }
}

#[test]
fn normalizer_accepts_well_formed_records() {
    let chunks = vec![chunk(0, vec![128, 128]), chunk(2, vec![64, 128, 64])];
    let n = Normalizer32::new(chunks, 8, 5).expect("records are well formed");
    assert_eq!(n.precision(), 8);
    assert_eq!(n.src_size(), 5);
    assert_eq!(n.chunks().len(), 2);
    assert_eq!(n.chunks()[0].start, 0);
    assert_eq!(n.chunks()[0].values, vec![128, 128]);
}

#[test]
fn normalizer_rejects_wrong_weight_sum() {
    // 128 + 127 misses 1 << 8.
    let chunks = vec![chunk(0, vec![128, 127])];
    assert!(Normalizer32::new(chunks, 8, 4).is_none());
}

#[test]
fn normalizer_rejects_window_past_source() {
    // start 3 plus two weights needs a source of at least 5.
    let chunks = vec![chunk(3, vec![128, 128])];
    assert!(Normalizer32::new(chunks, 8, 4).is_none());
}

#[test]
fn normalizer_rejects_empty_record() {
    let chunks = vec![chunk(0, vec![])];
    assert!(Normalizer32::new(chunks, 8, 4).is_none());
}

#[test]
fn normalizer_rejects_precision_out_of_range() {
    assert!(Normalizer32::new(vec![chunk(0, vec![1])], 0, 4).is_none());
    assert!(Normalizer32::new(vec![chunk(0, vec![2])], 31, 4).is_none());
}

#[test]
fn normalizer_accepts_negative_lobes() {
    // Negative outer weights still sum to 1 << 8.
    let chunks = vec![chunk(0, vec![-20, 290, -14])];
    assert!(Normalizer32::new(chunks, 8, 3).is_some());
}

#[test]
fn clip_shifts_and_saturates() {
    let n = Normalizer32::new(vec![chunk(0, vec![256])], 8, 1).unwrap();
    assert_eq!(n.clip(-5000), 0);
    assert_eq!(n.clip(256), 1);
    assert_eq!(n.clip(255), 0);
    assert_eq!(n.clip((65535i64 << 8) + 255), 65535);
    assert_eq!(n.clip(i64::MAX), 65535);
}

#[test]
fn horiz_convolution_averages_adjacent_pairs() {
    // Each destination pixel is the half-and-half average of a source pair.
    let src = TypedImage::from_pixels(4, 1, vec![U16(10), U16(20), U16(30), U16(40)]).unwrap();
    let chunks = vec![chunk(0, vec![128, 128]), chunk(2, vec![128, 128])];
    let n = Normalizer32::new(chunks, 8, 4).unwrap();
    let mut dst = TypedImage::new(2, 1, U16(0));
    u16x1::horiz_convolution(&src, &mut dst, 0, &n);
    assert_eq!(dst.pixel(0, 0), U16(15));
    assert_eq!(dst.pixel(1, 0), U16(35));
}

#[test]
fn horiz_convolution_identity_record_reproduces_row() {
    let src = TypedImage::from_pixels(3, 2, vec![
        U16(1),
        U16(2),
        U16(3),
        U16(40000),
        U16(50000),
        U16(65535),
    ])
    .unwrap();
    let chunks = vec![chunk(0, vec![256]), chunk(1, vec![256]), chunk(2, vec![256])];
    let n = Normalizer32::new(chunks, 8, 3).unwrap();
    let mut dst = TypedImage::new(3, 2, U16(0));
    u16x1::horiz_convolution(&src, &mut dst, 0, &n);
    assert_eq!(dst.pixels(), src.pixels());
}

#[test]
fn horiz_convolution_row_offset_skips_rows() {
    let src = TypedImage::from_pixels(2, 2, vec![U16(1), U16(2), U16(3), U16(4)]).unwrap();
    let chunks = vec![chunk(0, vec![256]), chunk(1, vec![256])];
    let n = Normalizer32::new(chunks, 8, 2).unwrap();
    let mut dst = TypedImage::new(2, 1, U16(0));
    u16x1::horiz_convolution(&src, &mut dst, 1, &n);
    assert_eq!(dst.pixel(0, 0), U16(3));
    assert_eq!(dst.pixel(1, 0), U16(4));
}

#[test]
fn horiz_convolution_saturates_at_max_for_nonnegative_weights() {
    let src = TypedImage::from_pixels(3, 1, vec![U16(65535); 3]).unwrap();
    let chunks = vec![chunk(0, vec![64, 128, 64])];
    let n = Normalizer32::new(chunks, 8, 3).unwrap();
    let mut dst = TypedImage::new(1, 1, U16(0));
    u16x1::horiz_convolution(&src, &mut dst, 0, &n);
    assert_eq!(dst.pixel(0, 0), U16(65535));
}

#[test]
fn horiz_convolution_negative_lobes_never_exceed_max() {
    let src = TypedImage::from_pixels(3, 1, vec![U16(65535); 3]).unwrap();
    let chunks = vec![chunk(0, vec![-20, 290, -14])];
    let n = Normalizer32::new(chunks, 8, 3).unwrap();
    let mut dst = TypedImage::new(1, 1, U16(0));
    u16x1::horiz_convolution(&src, &mut dst, 0, &n);
    assert!(dst.pixel(0, 0).0 <= 65535);
    assert_eq!(dst.pixel(0, 0), U16(65535));
}

#[test]
fn horiz_convolution_negative_lobes_clamp_below_zero() {
    // A negative weight on the only bright pixel drives the sum below zero.
    let src = TypedImage::from_pixels(2, 1, vec![U16(65535), U16(0)]).unwrap();
    let chunks = vec![chunk(0, vec![-256, 512])];
    let n = Normalizer32::new(chunks, 8, 2).unwrap();
    let mut dst = TypedImage::new(1, 1, U16(0));
    u16x1::horiz_convolution(&src, &mut dst, 0, &n);
    assert_eq!(dst.pixel(0, 0), U16(0));
}

#[test]
fn horiz_convolution_u16x2_per_channel() {
    let src =
        TypedImage::from_pixels(2, 1, vec![U16x2([100, 1000]), U16x2([300, 3000])]).unwrap();
    let chunks = vec![chunk(0, vec![128, 128])];
    let n = Normalizer32::new(chunks, 8, 2).unwrap();
    let mut dst = TypedImage::new(1, 1, U16x2([0, 0]));
    u16x2::horiz_convolution(&src, &mut dst, 0, &n);
    assert_eq!(dst.pixel(0, 0), U16x2([200, 2000]));
}

#[test]
fn horiz_convolution_u16x3_per_channel() {
    let src =
        TypedImage::from_pixels(2, 1, vec![U16x3([10, 20, 30]), U16x3([30, 60, 90])]).unwrap();
    let chunks = vec![chunk(0, vec![128, 128])];
    let n = Normalizer32::new(chunks, 8, 2).unwrap();
    let mut dst = TypedImage::new(1, 1, U16x3([0, 0, 0]));
    u16x3::horiz_convolution(&src, &mut dst, 0, &n);
    assert_eq!(dst.pixel(0, 0), U16x3([20, 40, 60]));
}

#[test]
fn horiz_convolution_u16x4_per_channel() {
    let src = TypedImage::from_pixels(2, 1, vec![
        U16x4([10, 20, 30, 65535]),
        U16x4([30, 60, 90, 65535]),
    ])
    .unwrap();
    let chunks = vec![chunk(0, vec![128, 128])];
    let n = Normalizer32::new(chunks, 8, 2).unwrap();
    let mut dst = TypedImage::new(1, 1, U16x4([0, 0, 0, 0]));
    u16x4::horiz_convolution(&src, &mut dst, 0, &n);
    assert_eq!(dst.pixel(0, 0), U16x4([20, 40, 60, 65535]));
}

#[test]
fn horiz_convolution_rounds_half_up() {
    // (10 + 21) / 2 = 15.5 carries the rounding bias up to 16.
    let src = TypedImage::from_pixels(2, 1, vec![U16(10), U16(21)]).unwrap();
    let chunks = vec![chunk(0, vec![128, 128])];
    let n = Normalizer32::new(chunks, 8, 2).unwrap();
    let mut dst = TypedImage::new(1, 1, U16(0));
    u16x1::horiz_convolution(&src, &mut dst, 0, &n);
    assert_eq!(dst.pixel(0, 0), U16(16));
}
