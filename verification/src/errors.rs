use vstd::prelude::*;

verus! {

/// Why a byte buffer cannot back an image of the stated shape.
#[derive(Clone, Copy, Debug, PartialEq, Eq, Structural)]
pub enum ImageBufferError {
    /// The buffer holds fewer bytes than `width * height * pixel_size`.
    InvalidBufferSize,
    /// The buffer's start address violates the pixel type's component alignment.
    InvalidBufferAlignment,
}

} // verus!
