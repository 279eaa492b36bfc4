//! Frame transform: the pure per-frame function of the pipeline, composed of
//! resize, luminance quantization, and glyph rasterization. It is safe to run
//! concurrently on disjoint frames: it reads only its arguments and the
//! shared read-only atlas.
use vstd::prelude::*;
use crate::ascii::ascii_art_rows;
use crate::ascii::image_to_ascii;
use crate::frame::IndexedFrame;
use crate::frame::RasterFrame;
use crate::frame::TranscodeError;
use crate::frame::MAX_FRAME_DIM;
use crate::palette::palette_for_style;
use crate::rasterize::render_ascii_to_image;
use crate::rasterize::render_spec;
use crate::rasterize::GlyphAtlas;
use crate::resize::grayscale_frame;
use crate::resize::nearest_resized;
use crate::resize::resize_image_dynamic;
use crate::resize::spec_luma;
use crate::resize::spec_output_height;

verus! {

/// Process-scoped configuration of a transcoding run, fixed at startup and
/// read-only for the run's lifetime.
pub struct TranscodeJob {
    /// Path of the source container.
    pub input: String,
    /// Path of the output container.
    pub output: String,
    /// Output canvas width, in pixels.
    pub width: u32,
    /// Output canvas height, in pixels.
    pub height: u32,
    /// Number of glyph columns each frame is quantized to.
    pub char_width: u32,
    /// Palette style selector.
    pub style: Option<u8>,
    /// Font point size used by the rasterizer.
    pub font_size: u32,
    /// Requested output frame rate in millihertz; the source rate when absent.
    pub fps_milli: Option<u64>,
}

impl TranscodeJob {
    pub open spec fn wf(self) -> bool {
        &&& 1 <= self.width <= MAX_FRAME_DIM
        &&& 1 <= self.height <= MAX_FRAME_DIM
        &&& 1 <= self.char_width <= MAX_FRAME_DIM
        &&& 1 <= self.font_size <= 4096
        &&& match self.fps_milli {
            Some(f) => 1 <= f <= 1_000_000_000,
            None => true,
        }
    }
}

/// The luminance grid of a frame after the resize step: the frame scaled to
/// `char_width` columns (height from the aspect-ratio rule), each pixel
/// reduced to its luminance.
pub open spec fn transformed_gray(frame: RasterFrame, char_width: int) -> Seq<u8> {
    let oh = spec_output_height(char_width, frame.width as int, frame.height as int);
    let resized = nearest_resized(
        frame.data@,
        frame.width as int,
        frame.height as int,
        char_width,
        oh,
    );
    Seq::new(
        (char_width * oh) as nat,
        |i: int| spec_luma(resized[3 * i], resized[3 * i + 1], resized[3 * i + 2]),
    )
}

/// The text rendition of a frame: its resized luminance grid quantized
/// through the job's palette, one row of glyphs per pixel row.
pub open spec fn transformed_text(frame: RasterFrame, job: TranscodeJob) -> Seq<char> {
    let oh = spec_output_height(job.char_width as int, frame.width as int, frame.height as int);
    ascii_art_rows(
        transformed_gray(frame, job.char_width as int),
        job.char_width as int,
        palette_for_style(job.style),
        oh,
    )
}

/// The pixel buffer of a fully transformed frame: the text rendition drawn
/// onto a fresh canvas of the job's output resolution.
pub open spec fn transformed_data(frame: RasterFrame, job: TranscodeJob, atlas: GlyphAtlas) -> Seq<u8> {
    render_spec(transformed_text(frame, job), atlas, job.width as int, job.height as int)
}

/// What the frame transform returns: success exactly for well-formed input
/// frames, whose output keeps the input's index and holds the rendered text
/// rendition at the job's resolution; a malformed frame fails its task with
/// the transform error.
pub open spec fn transform_post(
    f: IndexedFrame,
    job: TranscodeJob,
    atlas: GlyphAtlas,
    r: Result<IndexedFrame, TranscodeError>,
) -> bool {
    &&& (r is Ok <==> f.frame.wf())
    &&& (r is Ok ==> {
        let out = r->Ok_0;
        &&& out.index == f.index
        &&& out.frame.wf()
        &&& out.frame.width == job.width
        &&& out.frame.height == job.height
        &&& out.frame.data@ == transformed_data(f.frame, job, atlas)
    })
    &&& (r is Err ==> r->Err_0 == TranscodeError::Transform)
}

/// Transforms one sampled frame: resize to the glyph-column width, quantize
/// to text through the palette, and rasterize the text onto a canvas of the
/// job's output resolution. Pure: no state outside the arguments is read or
/// written.
pub fn process_single_frame(
    frame_data: IndexedFrame,
    job: &TranscodeJob,
    atlas: &GlyphAtlas,
) -> (r: Result<IndexedFrame, TranscodeError>)
    requires
        job.wf(),
        atlas.wf(),
    ensures
        transform_post(frame_data, *job, *atlas, r),
{
    let idx = frame_data.index;
    let f = frame_data.frame;
    // A malformed frame is a failed task, not a panic: the scheduler
    // propagates the first such failure for the whole batch.
    if !(1 <= f.width && f.width <= MAX_FRAME_DIM && 1 <= f.height && f.height <= MAX_FRAME_DIM) {
        return Err(TranscodeError::Transform);
    }
    proof {
        assert(3 * (f.width as int) * (f.height as int) <= 3 * 16384 * 16384) by (nonlinear_arith)
            requires
                1 <= (f.width as int) <= 16384,
                1 <= (f.height as int) <= 16384;
    }
    if f.data.len() != 3 * (f.width as usize) * (f.height as usize) {
        return Err(TranscodeError::Transform);
    }
    let resized = resize_image_dynamic(&f, job.char_width);
    let gray = grayscale_frame(&resized);
    proof {
        assert(gray.data@ =~= transformed_gray(f, job.char_width as int));
    }
    let ascii = image_to_ascii(&gray, job.style);
    proof {
        assert(ascii@ == transformed_text(f, *job));
    }
    let out = render_ascii_to_image(ascii.as_str(), atlas, job.width, job.height);
    Ok(IndexedFrame { index: idx, frame: out })
}

/// The frame transform is a pure function of its inputs: any two results of
/// transforming the same indexed frame under the same job and atlas agree on
/// success, index, dimensions, and every pixel, and on the error otherwise.
pub proof fn lemma_transform_deterministic(
    f: IndexedFrame,
    job: TranscodeJob,
    atlas: GlyphAtlas,
    r1: Result<IndexedFrame, TranscodeError>,
    r2: Result<IndexedFrame, TranscodeError>,
)
    requires
        transform_post(f, job, atlas, r1),
        transform_post(f, job, atlas, r2),
    ensures
        r1 is Ok <==> r2 is Ok,
        r1 is Ok ==> r1->Ok_0.index == r2->Ok_0.index
            && r1->Ok_0.frame.width == r2->Ok_0.frame.width
            && r1->Ok_0.frame.height == r2->Ok_0.frame.height
            && r1->Ok_0.frame.data@ == r2->Ok_0.frame.data@,
        r1 is Err ==> r1->Err_0 == r2->Err_0,
{
}

} // verus!
