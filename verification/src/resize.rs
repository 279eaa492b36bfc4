//! Resize phase of the frame transform: scale a frame to the glyph-column
//! width, with the output height compensating for glyph cells being taller
//! than they are wide, and reduce it to a single luminance channel.
use vstd::prelude::*;
use crate::frame::GrayFrame;
use crate::frame::RasterFrame;
use crate::frame::MAX_FRAME_DIM;

verus! {

/// The pixels of `data` (a `w` x `h` RGB grid) rescaled to an `out_w` x
/// `out_h` grid by nearest-neighbor sampling. The result depends on the
/// arguments alone.
pub uninterp spec fn nearest_resized(data: Seq<u8>, w: int, h: int, out_w: int, out_h: int) -> Seq<u8>;

/// Relies on `image::imageops::resize` with `FilterType::Nearest`: the result
/// is an image of exactly the requested dimensions (three bytes per pixel in
/// its raw buffer), computed from the input pixels and the two sizes alone.
#[verifier::external_body]
pub(crate) fn resize_nearest(frame: &RasterFrame, out_w: u32, out_h: u32) -> (r: RasterFrame)
    requires
        frame.wf(),
        1 <= out_w <= MAX_FRAME_DIM,
        1 <= out_h <= MAX_FRAME_DIM,
    ensures
        r.width == out_w,
        r.height == out_h,
        r.data@.len() == 3 * out_w * out_h,
        r.data@ == nearest_resized(
            frame.data@,
            frame.width as int,
            frame.height as int,
            out_w as int,
            out_h as int,
        ),
{
    let img: image::RgbImage =
        image::ImageBuffer::from_raw(frame.width, frame.height, frame.data.clone())
            .expect("buffer holds width * height RGB pixels");
    let out = image::imageops::resize(&img, out_w, out_h, image::imageops::FilterType::Nearest);
    RasterFrame { width: out_w, height: out_h, data: out.into_raw() }
}

/// The luminance of an RGB sample: `(2126 r + 7152 g + 722 b) / 10000`,
/// rounded toward zero.
pub open spec fn spec_luma(r: u8, g: u8, b: u8) -> u8 {
    ((2126 * (r as int) + 7152 * (g as int) + 722 * (b as int)) / 10000) as u8
}

/// Relies on `image::imageops::grayscale`: each output pixel is the luminance
/// of the corresponding input pixel, computed as
/// `(2126 r + 7152 g + 722 b) / 10000` in integer arithmetic.
#[verifier::external_body]
pub(crate) fn grayscale_frame(frame: &RasterFrame) -> (g: GrayFrame)
    requires
        frame.wf(),
    ensures
        g.width == frame.width,
        g.height == frame.height,
        g.data@.len() == frame.width * frame.height,
        forall|i: int|
            0 <= i < frame.width * frame.height ==> g.data@[i] == spec_luma(
                frame.data@[3 * i],
                frame.data@[3 * i + 1],
                frame.data@[3 * i + 2],
            ),
{
    let img: image::RgbImage =
        image::ImageBuffer::from_raw(frame.width, frame.height, frame.data.clone())
            .expect("buffer holds width * height RGB pixels");
    let gray = image::imageops::grayscale(&img);
    GrayFrame { width: frame.width, height: frame.height, data: gray.into_raw() }
}

/// `a / b` rounded to the nearest integer, ties away from zero, for positive
/// `b` and nonnegative `a`.
pub open spec fn rounded_div(a: int, b: int) -> int {
    (2 * a + b) / (2 * b)
}

/// The scaled height of a frame resized to `char_width` columns:
/// `round(char_width * (orig_h / orig_w) * 0.55)`, the factor compensating
/// for glyph cells being taller than wide, clamped into `1 ..= MAX_FRAME_DIM`
/// so that the result is a usable frame height.
pub open spec fn spec_output_height(char_width: int, orig_w: int, orig_h: int) -> int {
    let raw = rounded_div(char_width * orig_h * 11, orig_w * 20);
    if raw < 1 {
        1
    } else if raw > MAX_FRAME_DIM as int {
        MAX_FRAME_DIM as int
    } else {
        raw
    }
}

/// Computes the output height for a resize to `char_width` columns.
pub fn compute_output_height(char_width: u32, orig_w: u32, orig_h: u32) -> (r: u32)
    requires
        1 <= char_width <= MAX_FRAME_DIM,
        1 <= orig_w <= MAX_FRAME_DIM,
        1 <= orig_h <= MAX_FRAME_DIM,
    ensures
        r == spec_output_height(char_width as int, orig_w as int, orig_h as int),
        1 <= r <= MAX_FRAME_DIM,
{
    proof {
        assert((char_width as int) * (orig_h as int) * 11 <= 16384 * 16384 * 11
            && 0 <= (char_width as int) * (orig_h as int) * 11
            && (orig_w as int) * 20 <= 16384 * 20) by (nonlinear_arith)
            requires
                1 <= (char_width as int) <= 16384,
                1 <= (orig_w as int) <= 16384,
                1 <= (orig_h as int) <= 16384;
    }
    let num: u64 = (char_width as u64) * (orig_h as u64) * 11;
    let den: u64 = (orig_w as u64) * 20;
    let raw: u64 = (2 * num + den) / (2 * den);
    if raw < 1 {
        1
    } else if raw > MAX_FRAME_DIM as u64 {
        MAX_FRAME_DIM
    } else {
        raw as u32
    }
}

/// Resizes a frame to `width` columns with nearest-neighbor sampling,
/// choosing the height that preserves the aspect ratio scaled by the glyph
/// cell factor.
pub fn resize_image_dynamic(img: &RasterFrame, width: u32) -> (r: RasterFrame)
    requires
        img.wf(),
        1 <= width <= MAX_FRAME_DIM,
    ensures
        r.wf(),
        r.width == width,
        r.height == spec_output_height(width as int, img.width as int, img.height as int),
        r.data@ == nearest_resized(
            img.data@,
            img.width as int,
            img.height as int,
            width as int,
            r.height as int,
        ),
{
    let height = compute_output_height(width, img.width, img.height);
    resize_nearest(img, width, height)
}

} // verus!
