//! What goes to and comes back from the decode workers.

use vstd::prelude::*;

verus! {

/// A request to decode the item at `index` of the review stream.
#[derive(Debug, Clone)]
pub struct DecodeJob {
    pub index: usize,
    pub path: String,
    pub generation: u64,
}

/// Plain decoded pixel data: tightly packed RGBA8 (stride is `width * 4`).
#[derive(Debug, Clone)]
pub struct DecodedImage {
    pub width: u32,
    pub height: u32,
    pub rgba: Vec<u8>,
}

impl DecodedImage {
    /// The bytes the pixel data takes.
    pub fn approx_bytes(&self) -> (r: usize)
        ensures
            r == self.rgba@.len(),
    {
        self.rgba.len()
    }
}

/// A finished decode: the image, or the error message.
#[derive(Debug)]
pub struct DecodeResult {
    pub index: usize,
    pub generation: u64,
    pub outcome: Result<DecodedImage, String>,
}

} // verus!
