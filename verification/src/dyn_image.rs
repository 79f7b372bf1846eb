use crate::errors::ImageBufferError;
use crate::pixels::{InnerPixel, PixelType};
use crate::typed_image::TypedImage;
use vstd::arithmetic::mul::lemma_mul_inequality;
use vstd::prelude::*;

verus! {


/// With at least one byte per pixel, the pixel count is bounded by the byte
/// count.
proof fn lemma_count_fits(w: int, h: int, psize: int, blen: int)
    requires
        0 <= w,
        0 <= h,
        1 <= psize,
        w * h * psize <= blen,
    ensures
        w * h <= blen,
{
    assert(w * h <= w * h * psize) by (nonlinear_arith)
        requires
            0 <= w,
            0 <= h,
            1 <= psize,
    ;
}

/// The byte run of pixel `i` lies inside the first `count` pixel runs.
proof fn lemma_pixel_offset(i: int, count: int, psize: int)
    requires
        0 <= i < count,
        0 <= psize,
    ensures
        (i + 1) * psize == i * psize + psize,
        i * psize + psize <= count * psize,
        0 <= i * psize,
{
    assert((i + 1) * psize == i * psize + psize) by (nonlinear_arith);
    lemma_mul_inequality(i + 1, count, psize);
    assert(0 <= i * psize) by (nonlinear_arith)
        requires
            0 <= i,
            0 <= psize,
    ;
}

/// The byte count of any declarable shape fits far inside 128 bits.
proof fn lemma_bytes_fit_u128(w: int, h: int, psize: int)
    requires
        0 <= w <= 0xffff_ffff,
        0 <= h <= 0xffff_ffff,
        0 <= psize <= 8,
    ensures
        0 <= w * h <= 0xffff_ffff * 0xffff_ffff,
        0 <= w * h * psize <= 0xffff_ffff * 0xffff_ffff * 8,
{
    assert(0 <= w * h <= 0xffff_ffff * 0xffff_ffff) by (nonlinear_arith)
        requires
            0 <= w <= 0xffff_ffff,
            0 <= h <= 0xffff_ffff,
    ;
    assert(0 <= w * h * psize <= 0xffff_ffff * 0xffff_ffff * 8) by (nonlinear_arith)
        requires
            0 <= w * h <= 0xffff_ffff * 0xffff_ffff,
            0 <= psize <= 8,
    ;
}

/// Dynamic container of image data: dimensions, a pixel-type tag, and an
/// owned byte buffer holding the packed pixels row-major.
pub struct Image {
    width: u32,
    height: u32,
    buffer: Vec<u8>,
    pixel_type: PixelType,
}

impl Image {
    pub closed spec fn spec_width(self) -> u32 {
        self.width
    }

    pub closed spec fn spec_height(self) -> u32 {
        self.height
    }

    pub closed spec fn spec_pixel_type(self) -> PixelType {
        self.pixel_type
    }

    pub closed spec fn spec_buffer(self) -> Seq<u8> {
        self.buffer@
    }

    /// Bytes needed by the declared dimensions and pixel layout.
    pub open spec fn spec_pixels_bytes(self) -> int {
        self.spec_width() * self.spec_height() * self.spec_pixel_type().spec_size()
    }

    /// Well-formedness: the buffer is at least as large as the declared
    /// shape demands.
    pub open spec fn wf(self) -> bool {
        self.spec_buffer().len() >= self.spec_pixels_bytes()
    }

    /// Creates an image of the given shape with every byte zero.
    #[verifier::loop_isolation(false)]
    pub fn new(width: u32, height: u32, pixel_type: PixelType) -> (r: Image)
        requires
            width * height * pixel_type.spec_size() <= usize::MAX,
        ensures
            r.wf(),
            r.spec_width() == width,
            r.spec_height() == height,
            r.spec_pixel_type() == pixel_type,
            r.spec_buffer().len() == width * height * pixel_type.spec_size(),
            forall|i: int| 0 <= i < r.spec_buffer().len() ==> r.spec_buffer()[i] == 0,
    {
        let psize = pixel_type.size();
        proof {
            lemma_count_fits(width as int, height as int, psize as int, usize::MAX as int);
        }
        let count = width as usize * height as usize;
        let total = count * psize;
        let mut buffer: Vec<u8> = Vec::new();
        while buffer.len() < total
            invariant
                buffer@.len() <= total,
                forall|i: int| 0 <= i < buffer@.len() ==> buffer@[i] == 0,
            decreases total - buffer@.len(),
        {
            buffer.push(0);
        }
        Image { width, height, buffer, pixel_type }
    }

    /// Wraps a byte vector as an image.  Fails when the vector is too small
    /// for the declared shape, or when its address violates the pixel type's
    /// component alignment; one-byte-aligned layouts always succeed on a
    /// large enough vector.
    pub fn from_vec_u8(width: u32, height: u32, buffer: Vec<u8>, pixel_type: PixelType) -> (r:
        Result<Image, ImageBufferError>)
        ensures
            match r {
                Ok(img) => {
                    &&& img.wf()
                    &&& img.spec_width() == width
                    &&& img.spec_height() == height
                    &&& img.spec_pixel_type() == pixel_type
                    &&& img.spec_buffer() == buffer@
                    &&& buffer@.len() >= width * height * pixel_type.spec_size()
                },
                Err(ImageBufferError::InvalidBufferSize) => buffer@.len() < width * height
                    * pixel_type.spec_size(),
                Err(ImageBufferError::InvalidBufferAlignment) => {
                    &&& buffer@.len() >= width * height * pixel_type.spec_size()
                    &&& pixel_type.spec_alignment() != 1
                },
            },
    {
        let n = buffer.len();
        let psize = pixel_type.size();
        proof {
            lemma_bytes_fit_u128(width as int, height as int, psize as int);
        }
        let needed: u128 = width as u128 * height as u128 * psize as u128;
        if (n as u128) < needed {
            return Err(ImageBufferError::InvalidBufferSize);
        }
        if !pixel_type.is_aligned(buffer.as_slice()) {
            return Err(ImageBufferError::InvalidBufferAlignment);
        }
        Ok(Image { width, height, buffer, pixel_type })
    }

    /// Wraps a copy of a byte slice as an image, under the same checks as
    /// `from_vec_u8`; alignment is judged on the given slice.
    pub fn from_slice_u8(width: u32, height: u32, buffer: &[u8], pixel_type: PixelType) -> (r:
        Result<Image, ImageBufferError>)
        ensures
            match r {
                Ok(img) => {
                    &&& img.wf()
                    &&& img.spec_width() == width
                    &&& img.spec_height() == height
                    &&& img.spec_pixel_type() == pixel_type
                    &&& img.spec_buffer() == buffer@
                    &&& buffer@.len() >= width * height * pixel_type.spec_size()
                },
                Err(ImageBufferError::InvalidBufferSize) => buffer@.len() < width * height
                    * pixel_type.spec_size(),
                Err(ImageBufferError::InvalidBufferAlignment) => {
                    &&& buffer@.len() >= width * height * pixel_type.spec_size()
                    &&& pixel_type.spec_alignment() != 1
                },
            },
    {
        let n = buffer.len();
        let psize = pixel_type.size();
        proof {
            lemma_bytes_fit_u128(width as int, height as int, psize as int);
        }
        let needed: u128 = width as u128 * height as u128 * psize as u128;
        if (n as u128) < needed {
            return Err(ImageBufferError::InvalidBufferSize);
        }
        if !pixel_type.is_aligned(buffer) {
            return Err(ImageBufferError::InvalidBufferAlignment);
        }
        let mut copied: Vec<u8> = Vec::new();
        for i in 0..n
            invariant
                copied@.len() == i,
                n == buffer@.len(),
                forall|k: int| 0 <= k < i ==> copied@[k] == buffer@[k],
        {
            copied.push(buffer[i]);
        }
        proof {
            assert(copied@ =~= buffer@);
        }
        Ok(Image { width, height, buffer: copied, pixel_type })
    }

    /// The pixel layout of the image.
    pub fn pixel_type(&self) -> (r: PixelType)
        ensures
            r == self.spec_pixel_type(),
    {
        self.pixel_type
    }

    pub fn width(&self) -> (r: u32)
        ensures
            r == self.spec_width(),
    {
        self.width
    }

    pub fn height(&self) -> (r: u32)
        ensures
            r == self.spec_height(),
    {
        self.height
    }

    /// Buffer with the image's pixel data.
    pub fn buffer(&self) -> (r: &Vec<u8>)
        ensures
            r@ == self.spec_buffer(),
    {
        &self.buffer
    }

    /// Gives the pixel buffer up.
    pub fn into_vec(self) -> (r: Vec<u8>)
        ensures
            r@ == self.spec_buffer(),
    {
        self.buffer
    }

    /// Creates a copy of the image with its own buffer.
    pub fn copy(&self) -> (r: Image)
        ensures
            r.spec_width() == self.spec_width(),
            r.spec_height() == self.spec_height(),
            r.spec_pixel_type() == self.spec_pixel_type(),
            r.spec_buffer() == self.spec_buffer(),
    {
        let n = self.buffer.len();
        let mut copied: Vec<u8> = Vec::new();
        for i in 0..n
            invariant
                copied@.len() == i,
                n == self.buffer@.len(),
                forall|k: int| 0 <= k < i ==> copied@[k] == self.buffer@[k],
        {
            copied.push(self.buffer[i]);
        }
        proof {
            assert(copied@ =~= self.buffer@);
        }
        Image {
            width: self.width,
            height: self.height,
            buffer: copied,
            pixel_type: self.pixel_type,
        }
    }

    /// Decodes the buffer into a typed image of pixel type `P`.  Succeeds
    /// exactly when `P` matches the image's dynamic pixel type; the result
    /// holds, pixel by pixel, the decoding of the buffer's byte runs.
    #[verifier::loop_isolation(false)]
    pub fn typed_image<P: InnerPixel>(&self) -> (r: Option<TypedImage<P>>)
        requires
            self.wf(),
        ensures
            match r {
                Some(t) => {
                    &&& P::spec_pixel_type() == self.spec_pixel_type()
                    &&& t.wf()
                    &&& t.spec_width() == self.spec_width()
                    &&& t.spec_height() == self.spec_height()
                    &&& forall|i: int|
                        0 <= i < t.spec_pixels().len() ==> #[trigger] t.spec_pixels()[i]
                            == P::spec_of_bytes(
                            self.spec_buffer().subrange(
                                i * P::spec_pixel_type().spec_size(),
                                (i + 1) * P::spec_pixel_type().spec_size(),
                            ),
                        )
                },
                None => P::spec_pixel_type() != self.spec_pixel_type(),
            },
    {
        let pt = P::pixel_type();
        if pt != self.pixel_type {
            return None;
        }
        let psize = pt.size();
        let bn = self.buffer.len();
        proof {
            lemma_count_fits(self.width as int, self.height as int, psize as int, bn as int);
        }
        let count = self.width as usize * self.height as usize;
        let mut pixels: Vec<P> = Vec::new();
        for i in 0..count
            invariant
                pixels@.len() == i,
                forall|k: int|
                    0 <= k < i ==> #[trigger] pixels@[k] == P::spec_of_bytes(
                        self.spec_buffer().subrange(
                            k * P::spec_pixel_type().spec_size(),
                            (k + 1) * P::spec_pixel_type().spec_size(),
                        ),
                    ),
        {
            proof {
                lemma_pixel_offset(i as int, count as int, psize as int);
            }
            let px = P::read_pixel(&self.buffer, i * psize);
            pixels.push(px);
        }
        let t = TypedImage::from_pixels(self.width, self.height, pixels);
        match t {
            Some(timg) => Some(timg),
            None => {
                proof {
                    assert(false);
                }
                None
            },
        }
    }

    /// Encodes a typed image of pixel type `P` back into the buffer.
    /// Succeeds exactly when `P` matches the image's dynamic pixel type and
    /// the shapes agree; each pixel's bytes overwrite its run of the buffer,
    /// trailing bytes stay as they were, and a failed call changes nothing.
    #[verifier::loop_isolation(false)]
    pub fn set_typed_image<P: InnerPixel>(&mut self, t: &TypedImage<P>) -> (r: bool)
        requires
            old(self).wf(),
            t.wf(),
        ensures
            final(self).wf(),
            final(self).spec_width() == old(self).spec_width(),
            final(self).spec_height() == old(self).spec_height(),
            final(self).spec_pixel_type() == old(self).spec_pixel_type(),
            final(self).spec_buffer().len() == old(self).spec_buffer().len(),
            r <==> {
                &&& P::spec_pixel_type() == old(self).spec_pixel_type()
                &&& t.spec_width() == old(self).spec_width()
                &&& t.spec_height() == old(self).spec_height()
            },
            r ==> forall|i: int|
                0 <= i < t.spec_pixels().len() ==> final(self).spec_buffer().subrange(
                    i * P::spec_pixel_type().spec_size(),
                    (i + 1) * P::spec_pixel_type().spec_size(),
                ) == (#[trigger] t.spec_pixels()[i]).spec_to_bytes(),
            r ==> forall|k: int|
                t.spec_pixels().len() * P::spec_pixel_type().spec_size() <= k < old(
                    self,
                ).spec_buffer().len() ==> final(self).spec_buffer()[k] == old(
                    self,
                ).spec_buffer()[k],
            !r ==> *final(self) == *old(self),
    {
        let pt = P::pixel_type();
        if pt != self.pixel_type || t.width() != self.width || t.height() != self.height {
            return false;
        }
        let psize = pt.size();
        let bn = self.buffer.len();
        proof {
            lemma_count_fits(self.width as int, self.height as int, psize as int, bn as int);
        }
        let count = self.width as usize * self.height as usize;
        let tp = t.pixels();
        for i in 0..count
            invariant
                self.buffer@.len() == old(self).spec_buffer().len(),
                self.width == old(self).spec_width(),
                self.height == old(self).spec_height(),
                self.pixel_type == old(self).spec_pixel_type(),
                count == t.spec_pixels().len(),
                forall|k: int|
                    0 <= k < i ==> self.spec_buffer().subrange(
                        k * P::spec_pixel_type().spec_size(),
                        (k + 1) * P::spec_pixel_type().spec_size(),
                    ) == (#[trigger] t.spec_pixels()[k]).spec_to_bytes(),
                forall|k: int|
                    i * P::spec_pixel_type().spec_size() <= k < self.spec_buffer().len()
                        ==> #[trigger] self.spec_buffer()[k] == old(self).spec_buffer()[k],
        {
            proof {
                lemma_pixel_offset(i as int, count as int, psize as int);
            }
            let px = tp[i];
            let ghost prev = self.buffer@;
            proof {
                assert(forall|k: int|
                    i * P::spec_pixel_type().spec_size() <= k < self.spec_buffer().len()
                        ==> #[trigger] self.spec_buffer()[k] == old(self).spec_buffer()[k]);
                assert(prev =~= self.spec_buffer());
                assert(forall|k: int|
                    i * P::spec_pixel_type().spec_size() <= k < prev.len() ==> #[trigger] prev[k]
                        == old(self).spec_buffer()[k]);
            }
            P::write_pixel(px, &mut self.buffer, i * psize);
            proof {
                assert forall|k: int| 0 <= k < i implies self.spec_buffer().subrange(
                    k * P::spec_pixel_type().spec_size(),
                    (k + 1) * P::spec_pixel_type().spec_size(),
                ) == (#[trigger] t.spec_pixels()[k]).spec_to_bytes() by {
                    lemma_pixel_offset(k, i as int, psize as int);
                    assert(self.spec_buffer().subrange(
                        k * P::spec_pixel_type().spec_size(),
                        (k + 1) * P::spec_pixel_type().spec_size(),
                    ) =~= prev.subrange(
                        k * P::spec_pixel_type().spec_size(),
                        (k + 1) * P::spec_pixel_type().spec_size(),
                    ));
                }
                assert forall|k: int|
                    (i + 1) * P::spec_pixel_type().spec_size() <= k < self.spec_buffer().len()
                        implies #[trigger] self.spec_buffer()[k] == old(
                    self,
                ).spec_buffer()[k] by {
                    assert(self.spec_buffer()[k] == prev[k]);
                }
            }
        }
        true
    }
}

} // verus!
