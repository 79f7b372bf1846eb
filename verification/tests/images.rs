use fast_image_resize::dyn_image::Image;
use fast_image_resize::errors::ImageBufferError;
use fast_image_resize::pixels::{PixelType, U16, U16x2, U16x3, U16x4, U8, U8x2};
use fast_image_resize::typed_image::TypedImage;

#[test]
fn pixel_type_sizes() {
    assert_eq!(PixelType::U8.size(), 1);
    assert_eq!(PixelType::U8x2.size(), 2);
    assert_eq!(PixelType::U8x3.size(), 3);
    assert_eq!(PixelType::U8x4.size(), 4);
    assert_eq!(PixelType::U16.size(), 2);
    assert_eq!(PixelType::U16x2.size(), 4);
    assert_eq!(PixelType::U16x3.size(), 6);
    assert_eq!(PixelType::U16x4.size(), 8);
    assert_eq!(PixelType::I32.size(), 4);
    assert_eq!(PixelType::F32.size(), 4);
}

#[test]
fn pixel_type_alpha() {
    assert!(PixelType::U8x2.has_alpha());
    assert!(PixelType::U8x4.has_alpha());
    assert!(PixelType::U16x2.has_alpha());
    assert!(PixelType::U16x4.has_alpha());
    assert!(!PixelType::U8.has_alpha());
    assert!(!PixelType::U16x3.has_alpha());
    assert!(!PixelType::F32.has_alpha());
}

#[test]
fn one_byte_alignment_always_holds() {
    let buf = vec![1u8, 2, 3];
    assert!(PixelType::U8.is_aligned(&buf));
    assert!(PixelType::U8x3.is_aligned(&buf));
}

#[test]
fn new_image_is_zeroed() {
    let img = Image::new(3, 2, PixelType::U8x4);
    assert_eq!(img.width(), 3);
    assert_eq!(img.height(), 2);
    assert_eq!(img.pixel_type(), PixelType::U8x4);
    assert_eq!(img.buffer().len(), 3 * 2 * 4);
    assert!(img.buffer().iter().all(|&b| b == 0));
}

#[test]
fn from_vec_u8_rejects_small_buffer() {
    let r = Image::from_vec_u8(4, 4, vec![0u8; 15], PixelType::U8);
    assert!(matches!(r, Err(ImageBufferError::InvalidBufferSize)));
}

#[test]
fn from_vec_u8_accepts_exact_buffer() {
    let r = Image::from_vec_u8(4, 4, vec![7u8; 16], PixelType::U8);
    let img = r.expect("16 bytes back a 4x4 single-byte image");
    assert_eq!(img.buffer(), &vec![7u8; 16]);
}

#[test]
fn from_vec_u8_accepts_larger_buffer() {
    let r = Image::from_vec_u8(2, 2, vec![9u8; 10], PixelType::U8);
    assert!(r.is_ok());
}

#[test]
fn from_slice_u8_copies_bytes() {
    let mut data = [1u8, 2, 3, 4, 5, 6];
    let img = Image::from_slice_u8(3, 2, &mut data, PixelType::U8).unwrap();
    assert_eq!(img.buffer().as_slice(), &data);
}

#[test]
fn from_slice_u8_rejects_small_buffer() {
    let data = [0u8; 5];
    let r = Image::from_slice_u8(3, 2, &data, PixelType::U8);
    assert!(matches!(r, Err(ImageBufferError::InvalidBufferSize)));
}

#[test]
fn copy_is_independent() {
    let img = Image::from_vec_u8(2, 1, vec![10u8, 20], PixelType::U8).unwrap();
    let copy = img.copy();
    assert_eq!(copy.buffer(), img.buffer());
    assert_eq!(copy.width(), 2);
    assert_eq!(copy.height(), 1);
    assert_eq!(copy.pixel_type(), PixelType::U8);
}

#[test]
fn into_vec_returns_buffer() {
    let img = Image::from_vec_u8(2, 1, vec![10u8, 20], PixelType::U8).unwrap();
    assert_eq!(img.into_vec(), vec![10u8, 20]);
}

#[test]
fn typed_image_requires_matching_pixel_type() {
    let img = Image::new(2, 2, PixelType::U8);
    assert!(img.typed_image::<U16>().is_none());
    assert!(img.typed_image::<U8>().is_some());
}

#[test]
fn typed_image_decodes_u16_little_endian() {
    let img = Image::from_vec_u8(2, 1, vec![0x34, 0x12, 0xff, 0x00], PixelType::U16).unwrap();
    let t = img.typed_image::<U16>().unwrap();
    assert_eq!(t.width(), 2);
    assert_eq!(t.height(), 1);
    assert_eq!(t.pixel(0, 0), U16(0x1234));
    assert_eq!(t.pixel(1, 0), U16(0x00ff));
}

#[test]
fn set_typed_image_encodes_u16_little_endian() {
    let mut img = Image::new(2, 1, PixelType::U16);
    let t = TypedImage::from_pixels(2, 1, vec![U16(0xabcd), U16(0x0102)]).unwrap();
    assert!(img.set_typed_image(&t));
    assert_eq!(img.buffer(), &vec![0xcd, 0xab, 0x02, 0x01]);
}

#[test]
fn set_typed_image_rejects_mismatched_shape() {
    let mut img = Image::new(2, 1, PixelType::U16);
    let t = TypedImage::from_pixels(1, 1, vec![U16(5)]).unwrap();
    assert!(!img.set_typed_image(&t));
    assert!(img.buffer().iter().all(|&b| b == 0));
}

#[test]
fn typed_image_roundtrip_preserves_bytes() {
    let bytes: Vec<u8> = (0u8..12).collect();
    let img = Image::from_vec_u8(3, 2, bytes.clone(), PixelType::U16).unwrap();
    let t = img.typed_image::<U16>().unwrap();
    let mut img2 = Image::new(3, 2, PixelType::U16);
    assert!(img2.set_typed_image(&t));
    assert_eq!(img2.buffer(), &bytes);
}

#[test]
fn typed_image_new_fills() {
    let t = TypedImage::new(4, 3, U16(7));
    assert_eq!(t.pixels().len(), 12);
    assert!(t.pixels().iter().all(|p| *p == U16(7)));
}

#[test]
fn from_pixels_checks_length() {
    assert!(TypedImage::from_pixels(2, 2, vec![U8(0); 3]).is_none());
    assert!(TypedImage::from_pixels(2, 2, vec![U8(0); 4]).is_some());
}

#[test]
fn typed_image_roundtrip_u8x2() {
    let img = Image::from_vec_u8(2, 1, vec![10, 20, 30, 40], PixelType::U8x2).unwrap();
    let t = img.typed_image::<U8x2>().unwrap();
    assert_eq!(t.pixel(0, 0), U8x2([10, 20]));
    assert_eq!(t.pixel(1, 0), U8x2([30, 40]));
    let mut out = Image::new(2, 1, PixelType::U8x2);
    assert!(out.set_typed_image(&t));
    assert_eq!(out.buffer(), img.buffer());
}

#[test]
fn typed_image_roundtrip_u16x3() {
    let bytes = vec![0x01, 0x02, 0x03, 0x04, 0x05, 0x06];
    let img = Image::from_vec_u8(1, 1, bytes.clone(), PixelType::U16x3).unwrap();
    let t = img.typed_image::<U16x3>().unwrap();
    assert_eq!(t.pixel(0, 0), U16x3([0x0201, 0x0403, 0x0605]));
    let mut out = Image::new(1, 1, PixelType::U16x3);
    assert!(out.set_typed_image(&t));
    assert_eq!(out.buffer(), &bytes);
}

#[test]
fn typed_image_roundtrip_u16x2_and_u16x4() {
    let img2 = Image::from_vec_u8(1, 1, vec![0xaa, 0xbb, 0xcc, 0xdd], PixelType::U16x2).unwrap();
    let t2 = img2.typed_image::<U16x2>().unwrap();
    assert_eq!(t2.pixel(0, 0), U16x2([0xbbaa, 0xddcc]));

    let bytes4: Vec<u8> = (1u8..=8).collect();
    let img4 = Image::from_vec_u8(1, 1, bytes4.clone(), PixelType::U16x4).unwrap();
    let t4 = img4.typed_image::<U16x4>().unwrap();
    assert_eq!(t4.pixel(0, 0), U16x4([0x0201, 0x0403, 0x0605, 0x0807]));
    let mut out = Image::new(1, 1, PixelType::U16x4);
    assert!(out.set_typed_image(&t4));
    assert_eq!(out.buffer(), &bytes4);
}
