use fast_image_resize::alpha::u8x2::{
    divide_alpha, divide_alpha_inplace, divide_alpha_row, divide_alpha_row_inplace,
    multiply_alpha, multiply_alpha_inplace, multiply_alpha_row, multiply_alpha_row_inplace,
};
use fast_image_resize::alpha::{div_and_clip, mul_div_255};
use fast_image_resize::pixels::U8x2;
use fast_image_resize::typed_image::TypedImage;

#[test]
fn mul_div_255_exact_values() {
    // 200 scaled by alpha 128 rounds to 100.
    assert_eq!(mul_div_255(200, 128), 100);
    assert_eq!(mul_div_255(0, 77), 0);
    assert_eq!(mul_div_255(255, 255), 255);
    assert_eq!(mul_div_255(255, 0), 0);
    assert_eq!(mul_div_255(1, 255), 1);
}

#[test]
fn div_and_clip_exact_values() {
    // round(100 * 255 / 128) = round(199.2) = 199.
    assert_eq!(div_and_clip(100, 128), 199);
    // Fully transparent pixels unpremultiply to zero.
    assert_eq!(div_and_clip(123, 0), 0);
    // A component above alpha saturates at the channel maximum.
    assert_eq!(div_and_clip(200, 128), 255);
    assert_eq!(div_and_clip(255, 255), 255);
}

#[test]
fn alpha_roundtrip_within_one_for_large_alpha() {
    for a in 128u16..=255 {
        for c in 0u16..=255 {
            let m = mul_div_255(c as u8, a as u8);
            let back = div_and_clip(m, a as u8) as i32;
            let diff = (back - c as i32).abs();
            assert!(diff <= 1, "c={} a={} m={} back={}", c, a, m, back);
        }
    }
}

#[test]
fn alpha_roundtrip_exact_for_opaque() {
    for c in 0u16..=255 {
        let m = mul_div_255(c as u8, 255);
        assert_eq!(div_and_clip(m, 255), c as u8);
    }
}

#[test]
fn multiply_alpha_row_scales_components() {
    let src = vec![U8x2([200, 128]), U8x2([255, 255]), U8x2([10, 0])];
    let mut dst = vec![U8x2([0, 0]); 3];
    multiply_alpha_row(&src, &mut dst);
    assert_eq!(dst[0], U8x2([100, 128]));
    assert_eq!(dst[1], U8x2([255, 255]));
    assert_eq!(dst[2], U8x2([0, 0]));
}

#[test]
fn multiply_alpha_row_inplace_matches_out_of_place() {
    let src = vec![U8x2([200, 128]), U8x2([42, 77]), U8x2([1, 255])];
    let mut dst = vec![U8x2([0, 0]); 3];
    multiply_alpha_row(&src, &mut dst);
    let mut row = src.clone();
    multiply_alpha_row_inplace(&mut row);
    assert_eq!(row, dst);
}

#[test]
fn divide_alpha_row_unscales_components() {
    let src = vec![U8x2([100, 128]), U8x2([50, 0])];
    let mut dst = vec![U8x2([0, 0]); 2];
    divide_alpha_row(&src, &mut dst);
    assert_eq!(dst[0], U8x2([199, 128]));
    assert_eq!(dst[1], U8x2([0, 0]));
}

#[test]
fn divide_alpha_row_inplace_matches_out_of_place() {
    let src = vec![U8x2([100, 128]), U8x2([7, 9]), U8x2([255, 1])];
    let mut dst = vec![U8x2([0, 0]); 3];
    divide_alpha_row(&src, &mut dst);
    let mut row = src.clone();
    divide_alpha_row_inplace(&mut row);
    assert_eq!(row, dst);
}

#[test]
fn multiply_alpha_image_all_pixels() {
    // Every pixel carries colour 200 at alpha 128, as a 2x2 raster.
    let src = TypedImage::from_pixels(2, 2, vec![U8x2([200, 128]); 4]).unwrap();
    let mut dst = TypedImage::new(2, 2, U8x2([0, 0]));
    multiply_alpha(&src, &mut dst);
    for y in 0..2 {
        for x in 0..2 {
            assert_eq!(dst.pixel(x, y), U8x2([100, 128]));
        }
    }
}

#[test]
fn multiply_alpha_inplace_matches_out_of_place() {
    let pixels = vec![
        U8x2([200, 128]),
        U8x2([13, 255]),
        U8x2([255, 77]),
        U8x2([4, 4]),
        U8x2([90, 200]),
        U8x2([0, 1]),
    ];
    let src = TypedImage::from_pixels(3, 2, pixels.clone()).unwrap();
    let mut dst = TypedImage::new(3, 2, U8x2([0, 0]));
    multiply_alpha(&src, &mut dst);
    let mut inplace = TypedImage::from_pixels(3, 2, pixels).unwrap();
    multiply_alpha_inplace(&mut inplace);
    assert_eq!(inplace.pixels(), dst.pixels());
}

#[test]
fn divide_alpha_image_reverses_multiply_for_opaque() {
    let pixels = vec![U8x2([5, 255]), U8x2([100, 255]), U8x2([254, 255]), U8x2([0, 255])];
    let src = TypedImage::from_pixels(4, 1, pixels.clone()).unwrap();
    let mut tmp = TypedImage::new(4, 1, U8x2([0, 0]));
    multiply_alpha(&src, &mut tmp);
    let mut out = TypedImage::new(4, 1, U8x2([0, 0]));
    divide_alpha(&tmp, &mut out);
    assert_eq!(out.pixels(), &pixels);
}

#[test]
fn divide_alpha_inplace_matches_out_of_place() {
    let pixels = vec![U8x2([100, 128]), U8x2([7, 9]), U8x2([255, 1]), U8x2([60, 0])];
    let src = TypedImage::from_pixels(2, 2, pixels.clone()).unwrap();
    let mut dst = TypedImage::new(2, 2, U8x2([0, 0]));
    divide_alpha(&src, &mut dst);
    let mut inplace = TypedImage::from_pixels(2, 2, pixels).unwrap();
    divide_alpha_inplace(&mut inplace);
    assert_eq!(inplace.pixels(), dst.pixels());
}
