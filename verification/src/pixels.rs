use vstd::arithmetic::div_mod::lemma_fundamental_div_mod;
use vstd::pervasive::VecAdditionalExecFns;
use vstd::prelude::*;

verus! {

/// The supported packed pixel layouts.
///
/// The `..x2` and `..x4` forms carry an alpha channel as their last component.
/// Multi-byte components are stored little-endian.
#[derive(Clone, Copy, Debug, PartialEq, Eq, Structural)]
pub enum PixelType {
    U8,
    U8x2,
    U8x3,
    U8x4,
    U16,
    U16x2,
    U16x3,
    U16x4,
    I32,
    F32,
}

impl PixelType {
    /// Number of bytes that one pixel of this type occupies.
    pub open spec fn spec_size(self) -> nat {
        match self {
            PixelType::U8 => 1,
            PixelType::U8x2 => 2,
            PixelType::U8x3 => 3,
            PixelType::U8x4 => 4,
            PixelType::U16 => 2,
            PixelType::U16x2 => 4,
            PixelType::U16x3 => 6,
            PixelType::U16x4 => 8,
            PixelType::I32 => 4,
            PixelType::F32 => 4,
        }
    }

    /// Number of bytes that one pixel of this type occupies.
    pub fn size(self) -> (r: usize)
        ensures
            r == self.spec_size(),
            1 <= r <= 8,
    {
        match self {
            PixelType::U8 => 1,
            PixelType::U8x2 => 2,
            PixelType::U8x3 => 3,
            PixelType::U8x4 => 4,
            PixelType::U16 => 2,
            PixelType::U16x2 => 4,
            PixelType::U16x3 => 6,
            PixelType::U16x4 => 8,
            PixelType::I32 => 4,
            PixelType::F32 => 4,
        }
    }

    /// Required alignment of the first byte of a backing buffer.
    pub open spec fn spec_alignment(self) -> nat {
        match self {
            PixelType::U8 => 1,
            PixelType::U8x2 => 1,
            PixelType::U8x3 => 1,
            PixelType::U8x4 => 1,
            PixelType::U16 => 2,
            PixelType::U16x2 => 2,
            PixelType::U16x3 => 2,
            PixelType::U16x4 => 2,
            PixelType::I32 => 4,
            PixelType::F32 => 4,
        }
    }

    /// Required alignment of the first byte of a backing buffer.
    pub fn alignment(self) -> (r: usize)
        ensures
            r == self.spec_alignment(),
            1 <= r <= 4,
    {
        match self {
            PixelType::U8 => 1,
            PixelType::U8x2 => 1,
            PixelType::U8x3 => 1,
            PixelType::U8x4 => 1,
            PixelType::U16 => 2,
            PixelType::U16x2 => 2,
            PixelType::U16x3 => 2,
            PixelType::U16x4 => 2,
            PixelType::I32 => 4,
            PixelType::F32 => 4,
        }
    }

    /// Whether pixels of this type carry an alpha channel as their last component.
    pub open spec fn spec_has_alpha(self) -> bool {
        match self {
            PixelType::U8x2 => true,
            PixelType::U8x4 => true,
            PixelType::U16x2 => true,
            PixelType::U16x4 => true,
            _ => false,
        }
    }

    /// Whether pixels of this type carry an alpha channel as their last component.
    pub fn has_alpha(self) -> (r: bool)
        ensures
            r == self.spec_has_alpha(),
    {
        match self {
            PixelType::U8x2 => true,
            PixelType::U8x4 => true,
            PixelType::U16x2 => true,
            PixelType::U16x4 => true,
            _ => false,
        }
    }

    /// Whether the buffer's start address satisfies this pixel type's
    /// component alignment.  A one-byte alignment is always satisfied; for
    /// wider components the answer depends on where the allocator placed the
    /// buffer, so nothing more is promised.
    pub fn is_aligned(self, buffer: &[u8]) -> (r: bool)
        ensures
            self.spec_alignment() == 1 ==> r,
    {
        let align = self.alignment();
        buffer_address(buffer) % align == 0
    }
}

/// Single-channel 8-bit pixel (luminance).
#[derive(Clone, Copy, Debug, PartialEq, Eq, Structural)]
pub struct U8(pub u8);

/// Two-channel 8-bit pixel (luminance and alpha).
#[derive(Clone, Copy, Debug, PartialEq, Eq)]
pub struct U8x2(pub [u8; 2]);

/// Single-channel 16-bit pixel (luminance).
#[derive(Clone, Copy, Debug, PartialEq, Eq, Structural)]
pub struct U16(pub u16);

/// Two-channel 16-bit pixel (luminance and alpha).
#[derive(Clone, Copy, Debug, PartialEq, Eq)]
pub struct U16x2(pub [u16; 2]);

/// Three-channel 16-bit pixel (red, green, blue).
#[derive(Clone, Copy, Debug, PartialEq, Eq)]
pub struct U16x3(pub [u16; 3]);

/// Four-channel 16-bit pixel (red, green, blue, alpha).
#[derive(Clone, Copy, Debug, PartialEq, Eq)]
pub struct U16x4(pub [u16; 4]);

/// Relies on `<[u8]>::as_ptr` for the numeric address of the buffer's first
/// byte.  The address depends on the allocator, so nothing is promised of the
/// result.
#[verifier::external_body]
fn buffer_address(buffer: &[u8]) -> usize {
    buffer.as_ptr() as usize
}

/// Low byte of a 16-bit component in little-endian order.
pub open spec fn u16_lo(v: u16) -> u8 {
    (v % 256) as u8
}

/// High byte of a 16-bit component in little-endian order.
pub open spec fn u16_hi(v: u16) -> u8 {
    (v / 256) as u8
}

/// The 16-bit component two little-endian bytes denote.
pub open spec fn u16_of_bytes(b0: u8, b1: u8) -> u16 {
    (b0 + b1 * 256) as u16
}

/// Splitting a component into bytes and reassembling it gives it back.
pub proof fn lemma_u16_bytes_roundtrip(v: u16)
    ensures
        u16_of_bytes(u16_lo(v), u16_hi(v)) == v,
{
    lemma_fundamental_div_mod(v as int, 256);
}

/// Reads the little-endian 16-bit component at byte offset `off`.
fn read_u16_le(buffer: &Vec<u8>, off: usize) -> (r: u16)
    requires
        off + 2 <= buffer@.len(),
    ensures
        r == u16_of_bytes(buffer@[off as int], buffer@[off + 1]),
{
    let _n = buffer.len();
    let b0 = buffer[off];
    let b1 = buffer[off + 1];
    b0 as u16 + b1 as u16 * 256
}

/// Writes the little-endian 16-bit component `v` at byte offset `off`.
fn write_u16_le(v: u16, buffer: &mut Vec<u8>, off: usize)
    requires
        off + 2 <= old(buffer)@.len(),
    ensures
        final(buffer)@ == old(buffer)@.update(off as int, u16_lo(v)).update(off + 1, u16_hi(v)),
{
    let _n = buffer.len();
    buffer.set(off, (v % 256) as u8);
    buffer.set(off + 1, (v / 256) as u8);
}

/// A packed pixel layout: its dynamic tag and its little-endian byte
/// encoding, together with verified readers and writers over byte buffers.
pub trait InnerPixel: Sized + Copy {
    /// The dynamic tag of this pixel layout.
    spec fn spec_pixel_type() -> PixelType;

    /// The little-endian bytes of one pixel.
    spec fn spec_to_bytes(self) -> Seq<u8>;

    /// The pixel a run of bytes denotes.
    spec fn spec_of_bytes(s: Seq<u8>) -> Self;

    /// One pixel's bytes are exactly its layout's size.
    proof fn lemma_to_bytes_len(self)
        ensures
            self.spec_to_bytes().len() == Self::spec_pixel_type().spec_size(),
    ;

    /// Encoding a pixel and decoding the bytes gives the pixel back.
    proof fn lemma_bytes_roundtrip(self)
        ensures
            Self::spec_of_bytes(self.spec_to_bytes()) == self,
    ;

    /// The dynamic tag of this pixel layout.
    fn pixel_type() -> (r: PixelType)
        ensures
            r == Self::spec_pixel_type(),
    ;

    /// Reads the pixel stored at byte offset `off`.
    fn read_pixel(buffer: &Vec<u8>, off: usize) -> (r: Self)
        requires
            off + Self::spec_pixel_type().spec_size() <= buffer@.len(),
        ensures
            r == Self::spec_of_bytes(
                buffer@.subrange(off as int, off + Self::spec_pixel_type().spec_size()),
            ),
    ;

    /// Writes the pixel over the bytes at offset `off`.
    fn write_pixel(self, buffer: &mut Vec<u8>, off: usize)
        requires
            off + Self::spec_pixel_type().spec_size() <= old(buffer)@.len(),
        ensures
            final(buffer)@.len() == old(buffer)@.len(),
            final(buffer)@.subrange(off as int, off + Self::spec_pixel_type().spec_size())
                == self.spec_to_bytes(),
            forall|k: int|
                0 <= k < old(buffer)@.len() && !(off <= k < off
                    + Self::spec_pixel_type().spec_size()) ==> final(buffer)@[k] == old(
                    buffer,
                )@[k],
    ;
}

impl InnerPixel for U8 {
    open spec fn spec_pixel_type() -> PixelType {
        PixelType::U8
    }

    open spec fn spec_to_bytes(self) -> Seq<u8> {
        seq![self.0]
    }

    open spec fn spec_of_bytes(s: Seq<u8>) -> Self {
        U8(s[0])
    }

    proof fn lemma_to_bytes_len(self) {
    }

    proof fn lemma_bytes_roundtrip(self) {
    }

    fn pixel_type() -> (r: PixelType) {
        PixelType::U8
    }

    fn read_pixel(buffer: &Vec<u8>, off: usize) -> (r: Self) {
        proof {
            assert(buffer@.subrange(off as int, off + 1)[0] == buffer@[off as int]);
        }
        U8(buffer[off])
    }

    fn write_pixel(self, buffer: &mut Vec<u8>, off: usize) {
        buffer.set(off, self.0);
        proof {
            assert(buffer@.subrange(off as int, off + 1) =~= self.spec_to_bytes());
        }
    }
}

impl InnerPixel for U8x2 {
    open spec fn spec_pixel_type() -> PixelType {
        PixelType::U8x2
    }

    open spec fn spec_to_bytes(self) -> Seq<u8> {
        seq![self.0[0], self.0[1]]
    }

    open spec fn spec_of_bytes(s: Seq<u8>) -> Self {
        U8x2([s[0], s[1]])
    }

    proof fn lemma_to_bytes_len(self) {
    }

    proof fn lemma_bytes_roundtrip(self) {
        assert(Self::spec_of_bytes(self.spec_to_bytes()).0 =~= self.0);
    }

    fn pixel_type() -> (r: PixelType) {
        PixelType::U8x2
    }

    fn read_pixel(buffer: &Vec<u8>, off: usize) -> (r: Self) {
        let _n = buffer.len();
        let r = U8x2([buffer[off], buffer[off + 1]]);
        proof {
            let s = buffer@.subrange(off as int, off + 2);
            assert(s[0] == buffer@[off as int]);
            assert(s[1] == buffer@[off + 1]);
            assert(r.0 =~= Self::spec_of_bytes(s).0);
        }
        r
    }

    fn write_pixel(self, buffer: &mut Vec<u8>, off: usize) {
        let _n = buffer.len();
        buffer.set(off, self.0[0]);
        buffer.set(off + 1, self.0[1]);
        proof {
            assert(buffer@.subrange(off as int, off + 2) =~= self.spec_to_bytes());
        }
    }
}

impl InnerPixel for U16 {
    open spec fn spec_pixel_type() -> PixelType {
        PixelType::U16
    }

    open spec fn spec_to_bytes(self) -> Seq<u8> {
        seq![u16_lo(self.0), u16_hi(self.0)]
    }

    open spec fn spec_of_bytes(s: Seq<u8>) -> Self {
        U16(u16_of_bytes(s[0], s[1]))
    }

    proof fn lemma_to_bytes_len(self) {
    }

    proof fn lemma_bytes_roundtrip(self) {
        lemma_u16_bytes_roundtrip(self.0);
    }

    fn pixel_type() -> (r: PixelType) {
        PixelType::U16
    }

    fn read_pixel(buffer: &Vec<u8>, off: usize) -> (r: Self) {
        let v = read_u16_le(buffer, off);
        proof {
            let s = buffer@.subrange(off as int, off + 2);
            assert(s[0] == buffer@[off as int]);
            assert(s[1] == buffer@[off + 1]);
        }
        U16(v)
    }

    fn write_pixel(self, buffer: &mut Vec<u8>, off: usize) {
        write_u16_le(self.0, buffer, off);
        proof {
            assert(buffer@.subrange(off as int, off + 2) =~= self.spec_to_bytes());
        }
    }
}


impl InnerPixel for U16x2 {
    open spec fn spec_pixel_type() -> PixelType {
        PixelType::U16x2
    }

    open spec fn spec_to_bytes(self) -> Seq<u8> {
        seq![u16_lo(self.0[0]), u16_hi(self.0[0]), u16_lo(self.0[1]), u16_hi(self.0[1])]
    }

    open spec fn spec_of_bytes(s: Seq<u8>) -> Self {
        U16x2([u16_of_bytes(s[0], s[1]), u16_of_bytes(s[2], s[3])])
    }

    proof fn lemma_to_bytes_len(self) {
    }

    proof fn lemma_bytes_roundtrip(self) {
        lemma_u16_bytes_roundtrip(self.0[0]);
        lemma_u16_bytes_roundtrip(self.0[1]);
        assert(Self::spec_of_bytes(self.spec_to_bytes()).0 =~= self.0);
    }

    fn pixel_type() -> (r: PixelType) {
        PixelType::U16x2
    }

    fn read_pixel(buffer: &Vec<u8>, off: usize) -> (r: Self) {
        let _n = buffer.len();
        let c0 = read_u16_le(buffer, off);
        let c1 = read_u16_le(buffer, off + 2);
        let r = U16x2([c0, c1]);
        proof {
            let s = buffer@.subrange(off as int, off + 4);
            assert(s[0] == buffer@[off + 0]);
            assert(s[1] == buffer@[off + 1]);
            assert(s[2] == buffer@[off + 2]);
            assert(s[3] == buffer@[off + 3]);
            assert(r.0 =~= Self::spec_of_bytes(s).0);
        }
        r
    }

    fn write_pixel(self, buffer: &mut Vec<u8>, off: usize) {
        let _n = buffer.len();
        write_u16_le(self.0[0], buffer, off);
        write_u16_le(self.0[1], buffer, off + 2);
        proof {
            assert(buffer@.subrange(off as int, off + 4) =~= self.spec_to_bytes());
        }
    }
}

impl InnerPixel for U16x3 {
    open spec fn spec_pixel_type() -> PixelType {
        PixelType::U16x3
    }

    open spec fn spec_to_bytes(self) -> Seq<u8> {
        seq![u16_lo(self.0[0]), u16_hi(self.0[0]), u16_lo(self.0[1]), u16_hi(self.0[1]), u16_lo(self.0[2]), u16_hi(self.0[2])]
    }

    open spec fn spec_of_bytes(s: Seq<u8>) -> Self {
        U16x3([u16_of_bytes(s[0], s[1]), u16_of_bytes(s[2], s[3]), u16_of_bytes(s[4], s[5])])
    }

    proof fn lemma_to_bytes_len(self) {
    }

    proof fn lemma_bytes_roundtrip(self) {
        lemma_u16_bytes_roundtrip(self.0[0]);
        lemma_u16_bytes_roundtrip(self.0[1]);
        lemma_u16_bytes_roundtrip(self.0[2]);
        assert(Self::spec_of_bytes(self.spec_to_bytes()).0 =~= self.0);
    }

    fn pixel_type() -> (r: PixelType) {
        PixelType::U16x3
    }

    fn read_pixel(buffer: &Vec<u8>, off: usize) -> (r: Self) {
        let _n = buffer.len();
        let c0 = read_u16_le(buffer, off);
        let c1 = read_u16_le(buffer, off + 2);
        let c2 = read_u16_le(buffer, off + 4);
        let r = U16x3([c0, c1, c2]);
        proof {
            let s = buffer@.subrange(off as int, off + 6);
            assert(s[0] == buffer@[off + 0]);
            assert(s[1] == buffer@[off + 1]);
            assert(s[2] == buffer@[off + 2]);
            assert(s[3] == buffer@[off + 3]);
            assert(s[4] == buffer@[off + 4]);
            assert(s[5] == buffer@[off + 5]);
            assert(r.0 =~= Self::spec_of_bytes(s).0);
        }
        r
    }

    fn write_pixel(self, buffer: &mut Vec<u8>, off: usize) {
        let _n = buffer.len();
        write_u16_le(self.0[0], buffer, off);
        write_u16_le(self.0[1], buffer, off + 2);
        write_u16_le(self.0[2], buffer, off + 4);
        proof {
            assert(buffer@.subrange(off as int, off + 6) =~= self.spec_to_bytes());
        }
    }
}

impl InnerPixel for U16x4 {
    open spec fn spec_pixel_type() -> PixelType {
        PixelType::U16x4
    }

    open spec fn spec_to_bytes(self) -> Seq<u8> {
        seq![u16_lo(self.0[0]), u16_hi(self.0[0]), u16_lo(self.0[1]), u16_hi(self.0[1]), u16_lo(self.0[2]), u16_hi(self.0[2]), u16_lo(self.0[3]), u16_hi(self.0[3])]
    }

    open spec fn spec_of_bytes(s: Seq<u8>) -> Self {
        U16x4([u16_of_bytes(s[0], s[1]), u16_of_bytes(s[2], s[3]), u16_of_bytes(s[4], s[5]), u16_of_bytes(s[6], s[7])])
    }

    proof fn lemma_to_bytes_len(self) {
    }

    proof fn lemma_bytes_roundtrip(self) {
        lemma_u16_bytes_roundtrip(self.0[0]);
        lemma_u16_bytes_roundtrip(self.0[1]);
        lemma_u16_bytes_roundtrip(self.0[2]);
        lemma_u16_bytes_roundtrip(self.0[3]);
        assert(Self::spec_of_bytes(self.spec_to_bytes()).0 =~= self.0);
    }

    fn pixel_type() -> (r: PixelType) {
        PixelType::U16x4
    }

    fn read_pixel(buffer: &Vec<u8>, off: usize) -> (r: Self) {
        let _n = buffer.len();
        let c0 = read_u16_le(buffer, off);
        let c1 = read_u16_le(buffer, off + 2);
        let c2 = read_u16_le(buffer, off + 4);
        let c3 = read_u16_le(buffer, off + 6);
        let r = U16x4([c0, c1, c2, c3]);
        proof {
            let s = buffer@.subrange(off as int, off + 8);
            assert(s[0] == buffer@[off + 0]);
            assert(s[1] == buffer@[off + 1]);
            assert(s[2] == buffer@[off + 2]);
            assert(s[3] == buffer@[off + 3]);
            assert(s[4] == buffer@[off + 4]);
            assert(s[5] == buffer@[off + 5]);
            assert(s[6] == buffer@[off + 6]);
            assert(s[7] == buffer@[off + 7]);
            assert(r.0 =~= Self::spec_of_bytes(s).0);
        }
        r
    }

    fn write_pixel(self, buffer: &mut Vec<u8>, off: usize) {
        let _n = buffer.len();
        write_u16_le(self.0[0], buffer, off);
        write_u16_le(self.0[1], buffer, off + 2);
        write_u16_le(self.0[2], buffer, off + 4);
        write_u16_le(self.0[3], buffer, off + 6);
        proof {
            assert(buffer@.subrange(off as int, off + 8) =~= self.spec_to_bytes());
        }
    }
}

} // verus!
