use vstd::prelude::*;
use vstd::pervasive::VecAdditionalExecFns;

verus! {

/// An owned, typed raster: `width * height` pixels of type `P` in row-major
/// order, rows packed without padding.
pub struct TypedImage<P> {
    width: u32,
    height: u32,
    pixels: Vec<P>,
}

impl<P: Copy> TypedImage<P> {
    pub closed spec fn spec_width(self) -> u32 {
        self.width
    }

    pub closed spec fn spec_height(self) -> u32 {
        self.height
    }

    pub closed spec fn spec_pixels(self) -> Seq<P> {
        self.pixels@
    }

    /// The pixel at column `x` of row `y`.
    pub open spec fn spec_pixel(self, x: int, y: int) -> P {
        self.spec_pixels()[y * self.spec_width() + x]
    }

    /// Well-formedness: the buffer holds exactly one pixel per position.
    pub open spec fn wf(self) -> bool {
        self.spec_pixels().len() == self.spec_width() * self.spec_height()
    }

    /// Creates an image of the given dimensions with every pixel set to
    /// `fill`.
    pub fn new(width: u32, height: u32, fill: P) -> (r: Self)
        requires
            width * height <= usize::MAX,
        ensures
            r.wf(),
            r.spec_width() == width,
            r.spec_height() == height,
            forall|i: int| 0 <= i < r.spec_pixels().len() ==> r.spec_pixels()[i] == fill,
    {
        let count = width as usize * height as usize;
        let mut pixels: Vec<P> = Vec::new();
        while pixels.len() < count
            invariant
                pixels@.len() <= count,
                forall|i: int| 0 <= i < pixels@.len() ==> pixels@[i] == fill,
            decreases count - pixels@.len(),
        {
            pixels.push(fill);
        }
        TypedImage { width, height, pixels }
    }

    /// Wraps an existing pixel buffer.  Succeeds exactly when the buffer
    /// holds one pixel per position.
    pub fn from_pixels(width: u32, height: u32, pixels: Vec<P>) -> (r: Option<Self>)
        ensures
            match r {
                Some(img) => {
                    &&& img.wf()
                    &&& img.spec_width() == width
                    &&& img.spec_height() == height
                    &&& img.spec_pixels() == pixels@
                },
                None => pixels@.len() != width * height,
            },
    {
        let n = pixels.len();
        proof {
            assert(width as int * height as int <= u32::MAX as int * u32::MAX as int)
                by (nonlinear_arith)
                requires
                    width <= u32::MAX,
                    height <= u32::MAX,
            ;
        }
        if width as u64 * height as u64 == n as u64 {
            Some(TypedImage { width, height, pixels })
        } else {
            None
        }
    }

    pub fn width(&self) -> (r: u32)
        ensures
            r == self.spec_width(),
    {
        self.width
    }

    pub fn height(&self) -> (r: u32)
        ensures
            r == self.spec_height(),
    {
        self.height
    }

    /// The backing pixel buffer, row-major.
    pub fn pixels(&self) -> (r: &Vec<P>)
        ensures
            r@ == self.spec_pixels(),
    {
        &self.pixels
    }

    /// Gives the buffer up.
    pub fn into_pixels(self) -> (r: Vec<P>)
        ensures
            r@ == self.spec_pixels(),
    {
        self.pixels
    }

    /// The pixel at column `x` of row `y`.
    pub fn pixel(&self, x: u32, y: u32) -> (r: P)
        requires
            self.wf(),
            x < self.spec_width(),
            y < self.spec_height(),
        ensures
            r == self.spec_pixel(x as int, y as int),
    {
        let _n = self.pixels.len();
        proof {
            lemma_row_major_index(self.width as int, self.height as int, x as int, y as int);
        }
        self.pixels[y as usize * self.width as usize + x as usize]
    }

    /// Overwrites the pixel at column `x` of row `y`.
    pub fn set_pixel(&mut self, x: u32, y: u32, value: P)
        requires
            old(self).wf(),
            x < old(self).spec_width(),
            y < old(self).spec_height(),
        ensures
            final(self).wf(),
            final(self).spec_width() == old(self).spec_width(),
            final(self).spec_height() == old(self).spec_height(),
            final(self).spec_pixels() == old(self).spec_pixels().update(
                y * old(self).spec_width() + x,
                value,
            ),
    {
        let _n = self.pixels.len();
        proof {
            lemma_row_major_index(self.width as int, self.height as int, x as int, y as int);
        }
        self.pixels.set(y as usize * self.width as usize + x as usize, value);
    }
}

/// Distinct positions have distinct row-major indices.
pub proof fn lemma_row_major_injective(w: int, x1: int, y1: int, x2: int, y2: int)
    requires
        0 <= x1 < w,
        0 <= x2 < w,
        0 <= y1,
        0 <= y2,
        x1 != x2 || y1 != y2,
    ensures
        y1 * w + x1 != y2 * w + x2,
{
    assert(y1 * w + x1 != y2 * w + x2) by (nonlinear_arith)
        requires
            0 <= x1 < w,
            0 <= x2 < w,
            0 <= y1,
            0 <= y2,
            x1 != x2 || y1 != y2,
    ;
}

/// A row-major index lies inside the buffer and below `usize::MAX`.
pub proof fn lemma_row_major_index(w: int, h: int, x: int, y: int)
    requires
        0 <= x < w,
        0 <= y < h,
        w <= u32::MAX,
        h <= u32::MAX,
    ensures
        0 <= y * w + x < w * h,
{
    assert(y * w + x < w * h) by (nonlinear_arith)
        requires
            0 <= x < w,
            0 <= y < h,
    ;
    assert(0 <= y * w) by (nonlinear_arith)
        requires
            0 <= y,
            0 <= w,
    ;
}

} // verus!
