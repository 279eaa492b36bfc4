//! Pixel-grid frame types shared by every stage of the transcoding pipeline.
use vstd::prelude::*;

verus! {

/// Largest width or height, in pixels, that a frame may have. Keeping both
/// dimensions under this bound lets every pixel-address computation stay
/// inside `u64` and `usize` without overflow.
pub const MAX_FRAME_DIM: u32 = 16384;

/// A fully decoded frame: a `width` x `height` grid of RGB samples, stored
/// row-major with three bytes (red, green, blue) per pixel.
#[derive(Debug, PartialEq, Eq)]
pub struct RasterFrame {
    pub width: u32,
    pub height: u32,
    pub data: Vec<u8>,
}

impl RasterFrame {
    /// A frame is well formed when both dimensions are positive, bounded by
    /// `MAX_FRAME_DIM`, and the byte buffer holds exactly three bytes per pixel.
    pub open spec fn wf(self) -> bool {
        &&& 1 <= self.width <= MAX_FRAME_DIM
        &&& 1 <= self.height <= MAX_FRAME_DIM
        &&& self.data@.len() == 3 * self.width * self.height
    }
}

/// A single-channel luminance frame, one byte per pixel, row-major.
#[derive(Debug, PartialEq, Eq)]
pub struct GrayFrame {
    pub width: u32,
    pub height: u32,
    pub data: Vec<u8>,
}

impl GrayFrame {
    pub open spec fn wf(self) -> bool {
        &&& 1 <= self.width <= MAX_FRAME_DIM
        &&& 1 <= self.height <= MAX_FRAME_DIM
        &&& self.data@.len() == self.width * self.height
    }
}

/// A frame paired with the stable sequence position the sampler assigned to
/// it. Indices order the transformed frames back into source order after the
/// parallel transform phase.
#[derive(Debug, PartialEq, Eq)]
pub struct IndexedFrame {
    pub index: usize,
    pub frame: RasterFrame,
}

/// Reorders a frame's channels between BGR and RGB byte order: the first and
/// third byte of every pixel swap places. Decoders that hand frames over in
/// BGR order pass through this before the transform, and its own inverse
/// converts back.
pub fn swap_red_blue(frame: &RasterFrame) -> (r: RasterFrame)
    requires
        frame.wf(),
    ensures
        r.wf(),
        r.width == frame.width,
        r.height == frame.height,
        forall|p: int|
            0 <= p < frame.width * frame.height ==> #[trigger] r.data@[3 * p] == frame.data@[3 * p + 2]
                && r.data@[3 * p + 1] == frame.data@[3 * p + 1]
                && r.data@[3 * p + 2] == frame.data@[3 * p],
{
    let ghost wi = frame.width as int;
    let ghost hi = frame.height as int;
    proof {
        assert(3 * (wi * hi) <= 3 * 16384 * 16384 && 3 * (wi * hi) == 3 * wi * hi)
            by (nonlinear_arith)
            requires
                1 <= wi <= 16384,
                1 <= hi <= 16384;
    }
    let count: usize = (frame.width as usize) * (frame.height as usize);
    let mut data: Vec<u8> = Vec::new();
    let mut p: usize = 0;
    while p < count
        invariant
            frame.wf(),
            wi == frame.width as int,
            hi == frame.height as int,
            count == wi * hi,
            count <= 268435456,
            3 * count == frame.data@.len(),
            p <= count,
            data@.len() == 3 * p,
            forall|q: int|
                0 <= q < p ==> #[trigger] data@[3 * q] == frame.data@[3 * q + 2]
                    && data@[3 * q + 1] == frame.data@[3 * q + 1]
                    && data@[3 * q + 2] == frame.data@[3 * q],
        decreases count - p,
    {
        let ghost data_pre = data@;
        let b = frame.data[3 * p + 2];
        let g = frame.data[3 * p + 1];
        let r = frame.data[3 * p];
        data.push(b);
        data.push(g);
        data.push(r);
        proof {
            assert forall|q: int| 0 <= q < p as int + 1 implies
                #[trigger] data@[3 * q] == frame.data@[3 * q + 2]
                    && data@[3 * q + 1] == frame.data@[3 * q + 1]
                    && data@[3 * q + 2] == frame.data@[3 * q] by {
                if q < p as int {
                    assert(data@[3 * q] == data_pre[3 * q]);
                    assert(data@[3 * q + 1] == data_pre[3 * q + 1]);
                    assert(data@[3 * q + 2] == data_pre[3 * q + 2]);
                }
            }
        }
        p = p + 1;
    }
    RasterFrame { width: frame.width, height: frame.height, data }
}

/// The error taxonomy of the pipeline. Every failure is fatal for the whole
/// job: nothing in the core retries, and no partial output is reported as
/// success.
#[derive(Clone, Copy, Debug, PartialEq, Eq, Structural)]
pub enum TranscodeError {
    /// The input container could not be opened or is unsupported.
    SourceOpen,
    /// A mid-stream read of the source failed.
    Decode,
    /// A per-frame transform task failed; the first such failure aborts the batch.
    Transform,
    /// The output container could not be created.
    SinkOpen,
    /// The sink rejected a frame; remaining writes are abandoned.
    SinkWrite,
}

} // verus!
