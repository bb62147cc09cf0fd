use vstd::prelude::*;

verus! {

/// Width of the source buffer in pixels, and byte-columns per panel.
pub const IMAGE_WIDTH: usize = 128;

/// Height of the source buffer in pixels; the top 32 rows go to the left
/// panel, the bottom 32 rows to the right panel.
pub const IMAGE_HEIGHT: usize = 64;

/// A 128x64 single-channel intensity buffer, one byte per pixel, row-major.
/// The external resampling step produces one per animation frame; it is
/// immutable once handed to the packer.
pub struct LumaBuffer {
    samples: Vec<u8>,
}

impl View for LumaBuffer {
    type V = Seq<u8>;

    /// One sample per pixel, row-major: pixel `(x, y)` sits at `y * 128 + x`.
    closed spec fn view(&self) -> Seq<u8> {
        self.samples@
    }
}

impl LumaBuffer {
    pub open spec fn wf(&self) -> bool {
        self@.len() == IMAGE_WIDTH * IMAGE_HEIGHT
    }

    /// The intensity of pixel `(x, y)`.
    pub open spec fn sample_at(&self, x: int, y: int) -> u8 {
        self@[y * (IMAGE_WIDTH as int) + x]
    }

    /// Threshold convention: a pixel counts as lit when its sample exceeds
    /// 127. Dithered input is expected to sit near 0 or 255, but nothing here
    /// assumes pre-binarized samples.
    pub open spec fn pixel_on(&self, x: int, y: int) -> bool {
        self.sample_at(x, y) > 127
    }

    /// Wraps a row-major sample vector; rejects any vector that is not
    /// exactly 128 * 64 bytes long.
    pub fn from_samples(samples: Vec<u8>) -> (r: Option<LumaBuffer>)
        ensures
            match r {
                Some(b) => b.wf() && b@ == samples@,
                None => samples@.len() != IMAGE_WIDTH * IMAGE_HEIGHT,
            },
    {
        if samples.len() == IMAGE_WIDTH * IMAGE_HEIGHT {
            Some(LumaBuffer { samples })
        } else {
            None
        }
    }

    pub fn sample(&self, x: usize, y: usize) -> (v: u8)
        requires
            self.wf(),
            x < IMAGE_WIDTH,
            y < IMAGE_HEIGHT,
        ensures
            v == self.sample_at(x as int, y as int),
    {
        self.samples[y * IMAGE_WIDTH + x]
    }
}

} // verus!
