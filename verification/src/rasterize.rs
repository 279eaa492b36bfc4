//! Glyph rasterizer: draws a block of text onto a fixed-size raster canvas.
//! Glyph shapes arrive as plain coverage data (a `GlyphAtlas`), prepared once
//! per run from the font resource; everything here — background fill, pen
//! layout, clipping, and pixel writes — is ordinary integer logic.
use vstd::prelude::*;
use crate::frame::RasterFrame;
use crate::frame::MAX_FRAME_DIM;

verus! {

/// Horizontal pen origin of the text block, in pixels.
pub const PEN_START_X: u32 = 10;

/// Vertical margin above the first baseline, in pixels.
pub const PEN_START_Y: u32 = 10;

/// The background luminance of the canvas, written to all three channels.
pub const BACKGROUND_LEVEL: u8 = 8;

/// One covered pixel of a rasterized glyph: an offset from the pen position
/// and the ink level to write there. `inked` records whether the rasterizer
/// reported any coverage at all for the pixel; a covered pixel whose level
/// rounds to zero is still written.
#[derive(Clone, Copy)]
pub struct CoverageSpan {
    pub dx: u32,
    pub dy: u32,
    pub level: u8,
    pub inked: bool,
}

/// The coverage pixels of one character at the atlas's font size.
pub struct GlyphBitmap {
    pub ch: char,
    pub spans: Vec<CoverageSpan>,
}

/// A read-only table of rasterized glyph shapes plus the font's vertical
/// metrics, shared unchanged by all worker tasks of a run.
pub struct GlyphAtlas {
    pub font_size: u32,
    pub ascent: u32,
    pub glyphs: Vec<GlyphBitmap>,
}

impl GlyphAtlas {
    pub open spec fn wf(self) -> bool {
        &&& 1 <= self.font_size <= 4096
        &&& self.ascent <= MAX_FRAME_DIM
    }

    /// Horizontal pen advance per character: `0.6 * font_size`, truncated.
    pub open spec fn char_advance(self) -> int {
        (self.font_size as int) * 6 / 10
    }

    /// Vertical pen advance per line: `1.2 * font_size`, truncated.
    pub open spec fn line_advance(self) -> int {
        (self.font_size as int) * 12 / 10
    }

    /// The first baseline: the vertical margin plus the font's ascent.
    pub open spec fn pen_start_y(self) -> int {
        PEN_START_Y as int + self.ascent as int
    }
}

/// The canvas background: every byte of a `w` x `h` RGB buffer holds the
/// background level.
pub open spec fn background(w: int, h: int) -> Seq<u8> {
    Seq::new((3 * w * h) as nat, |i: int| BACKGROUND_LEVEL)
}

/// One coverage pixel written onto `data` (a `w` x `h` RGB grid) for a glyph
/// whose pen position is `(x, y)`: all three channels of the target pixel
/// take the ink level, unless the pixel falls outside the canvas or carries
/// no ink, in which case nothing changes.
pub open spec fn span_written(
    data: Seq<u8>,
    w: int,
    h: int,
    x: int,
    y: int,
    s: CoverageSpan,
) -> Seq<u8> {
    let px = x + s.dx;
    let py = y + s.dy;
    if s.inked && px < w && py < h {
        let base = 3 * (py * w + px);
        data.update(base, s.level).update(base + 1, s.level).update(base + 2, s.level)
    } else {
        data
    }
}

/// A glyph's coverage pixels written in order onto `data`.
pub open spec fn spans_written(
    data: Seq<u8>,
    w: int,
    h: int,
    x: int,
    y: int,
    spans: Seq<CoverageSpan>,
) -> Seq<u8>
    decreases spans.len(),
{
    if spans.len() == 0 {
        data
    } else {
        spans_written(span_written(data, w, h, x, y, spans[0]), w, h, x, y, spans.drop_first())
    }
}

/// The coverage pixels the atlas holds for a character: those of the first
/// entry for it, or none when the atlas has no entry (the character is then
/// skipped, like a glyph with zero ink).
pub open spec fn glyph_spans(glyphs: Seq<GlyphBitmap>, ch: char) -> Seq<CoverageSpan>
    decreases glyphs.len(),
{
    if glyphs.len() == 0 {
        Seq::empty()
    } else if glyphs[0].ch == ch {
        glyphs[0].spans@
    } else {
        glyph_spans(glyphs.drop_first(), ch)
    }
}

proof fn lemma_glyph_spans_skip(glyphs: Seq<GlyphBitmap>, ch: char, i: int)
    requires
        0 <= i <= glyphs.len(),
        forall|k: int| 0 <= k < i ==> (#[trigger] glyphs[k]).ch != ch,
    ensures
        glyph_spans(glyphs, ch) == glyph_spans(glyphs.skip(i), ch),
    decreases i,
{
    if i > 0 {
        lemma_glyph_spans_skip(glyphs.drop_first(), ch, i - 1);
        assert(glyphs.drop_first().skip(i - 1) =~= glyphs.skip(i));
    } else {
        assert(glyphs.skip(0) =~= glyphs);
    }
}

/// Finds the first atlas entry for a character.
fn find_glyph(glyphs: &Vec<GlyphBitmap>, ch: char) -> (r: Option<usize>)
    ensures
        match r {
            Some(i) => i < glyphs@.len() && glyphs@[i as int].ch == ch
                && glyph_spans(glyphs@, ch) == glyphs@[i as int].spans@,
            None => glyph_spans(glyphs@, ch) == Seq::<CoverageSpan>::empty(),
        },
{
    let mut j: usize = 0;
    while j < glyphs.len()
        invariant
            j <= glyphs@.len(),
            forall|k: int| 0 <= k < j ==> (#[trigger] glyphs@[k]).ch != ch,
        decreases glyphs@.len() - j,
    {
        if glyphs[j].ch == ch {
            proof {
                lemma_glyph_spans_skip(glyphs@, ch, j as int);
                assert(glyphs@.skip(j as int)[0] == glyphs@[j as int]);
            }
            return Some(j);
        }
        j = j + 1;
    }
    proof {
        lemma_glyph_spans_skip(glyphs@, ch, glyphs@.len() as int);
        assert(glyphs@.skip(glyphs@.len() as int) =~= Seq::<GlyphBitmap>::empty());
    }
    None
}

/// Sets every byte of the frame's pixel buffer to `value`, keeping the
/// dimensions.
pub fn fill_background(frame: &mut RasterFrame, value: u8)
    requires
        old(frame).wf(),
    ensures
        final(frame).wf(),
        final(frame).width == old(frame).width,
        final(frame).height == old(frame).height,
        final(frame).data@ == Seq::new(old(frame).data@.len(), |i: int| value),
{
    let n = frame.data.len();
    let mut i: usize = 0;
    while i < n
        invariant
            frame.wf(),
            frame.width == old(frame).width,
            frame.height == old(frame).height,
            frame.data@.len() == n,
            i <= n,
            forall|k: int| 0 <= k < i ==> frame.data@[k] == value,
            forall|k: int| i <= k < n ==> frame.data@[k] == old(frame).data@[k],
        decreases n - i,
    {
        frame.data[i] = value;
        i = i + 1;
    }
    proof {
        assert(frame.data@ =~= Seq::new(old(frame).data@.len(), |k: int| value));
    }
}

/// Creates a frame of the given dimensions with every byte of every pixel
/// holding `value`.
pub fn new_canvas_frame(width: u32, height: u32, value: u8) -> (r: RasterFrame)
    requires
        1 <= width <= MAX_FRAME_DIM,
        1 <= height <= MAX_FRAME_DIM,
    ensures
        r.wf(),
        r.width == width,
        r.height == height,
        r.data@ == Seq::new((3 * width * height) as nat, |i: int| value),
{
    proof {
        assert(3 * (width as int) * (height as int) <= 3 * 16384 * 16384) by (nonlinear_arith)
            requires
                1 <= (width as int) <= 16384,
                1 <= (height as int) <= 16384;
    }
    let n: usize = 3 * (width as usize) * (height as usize);
    let mut data: Vec<u8> = Vec::new();
    let mut i: usize = 0;
    while i < n
        invariant
            i <= n,
            data@.len() == i,
            forall|k: int| 0 <= k < i ==> data@[k] == value,
        decreases n - i,
    {
        data.push(value);
        i = i + 1;
    }
    let r = RasterFrame { width, height, data };
    proof {
        assert(r.data@ =~= Seq::new((3 * width * height) as nat, |i: int| value));
    }
    r
}

/// Writes one glyph's coverage pixels onto the frame at pen position
/// `(x, y)`, clipping every pixel that falls outside the canvas.
pub fn apply_glyph(frame: &mut RasterFrame, x: u32, y: u32, spans: &Vec<CoverageSpan>)
    requires
        old(frame).wf(),
    ensures
        final(frame).wf(),
        final(frame).width == old(frame).width,
        final(frame).height == old(frame).height,
        final(frame).data@ == spans_written(
            old(frame).data@,
            old(frame).width as int,
            old(frame).height as int,
            x as int,
            y as int,
            spans@,
        ),
{
    let w = frame.width;
    let h = frame.height;
    let ghost wi = w as int;
    let ghost hi = h as int;
    let ghost xi = x as int;
    let ghost yi = y as int;
    let mut i: usize = 0;
    proof {
        assert(spans@.skip(0) =~= spans@);
    }
    while i < spans.len()
        invariant
            frame.wf(),
            frame.width == w,
            frame.height == h,
            wi == w as int,
            hi == h as int,
            xi == x as int,
            yi == y as int,
            1 <= wi <= MAX_FRAME_DIM,
            1 <= hi <= MAX_FRAME_DIM,
            i <= spans@.len(),
            spans_written(frame.data@, wi, hi, xi, yi, spans@.skip(i as int))
                == spans_written(old(frame).data@, wi, hi, xi, yi, spans@),
        decreases spans@.len() - i,
    {
        let ghost data_pre = frame.data@;
        let s = spans[i];
        if s.inked {
            let px: u64 = x as u64 + s.dx as u64;
            let py: u64 = y as u64 + s.dy as u64;
            if px < w as u64 && py < h as u64 {
                proof {
                    assert((py as int) * wi + (px as int) < wi * hi
                        && 0 <= (py as int) * wi + (px as int)
                        && wi * hi <= 16384 * 16384
                        && 3 * ((py as int) * wi + (px as int)) + 2 < 3 * wi * hi)
                        by (nonlinear_arith)
                        requires
                            0 <= (px as int) < wi <= 16384,
                            0 <= (py as int) < hi <= 16384;
                }
                let base: usize = 3 * ((py as usize) * (w as usize) + (px as usize));
                frame.data[base] = s.level;
                frame.data[base + 1] = s.level;
                frame.data[base + 2] = s.level;
            }
        }
        proof {
            assert(frame.data@ == span_written(data_pre, wi, hi, xi, yi, spans@[i as int]));
            assert(spans@.skip(i as int).drop_first() =~= spans@.skip(i as int + 1));
            assert(spans@.skip(i as int)[0] == spans@[i as int]);
        }
        i = i + 1;
    }
    proof {
        assert(spans@.skip(spans@.len() as int) =~= Seq::<CoverageSpan>::empty());
    }
}

/// The rendering of a text block, resumed from character position `i` with
/// the pen at `(x, y)`: glyphs advance the pen by `cw` per character and a
/// newline returns it to the left margin one line (`lh`) further down.
/// A character that would advance past the right edge is clipped, and once
/// the baseline passes the bottom edge nothing more is drawn.
pub open spec fn render_from(
    data: Seq<u8>,
    chars: Seq<char>,
    i: int,
    x: int,
    y: int,
    w: int,
    h: int,
    cw: int,
    lh: int,
    glyphs: Seq<GlyphBitmap>,
) -> Seq<u8>
    decreases chars.len() - i,
{
    if i < 0 || i >= chars.len() || y >= h {
        data
    } else if chars[i] == '\n' {
        render_from(data, chars, i + 1, PEN_START_X as int, y + lh, w, h, cw, lh, glyphs)
    } else if x + cw > w {
        render_from(data, chars, i + 1, x, y, w, h, cw, lh, glyphs)
    } else {
        render_from(
            spans_written(data, w, h, x, y, glyph_spans(glyphs, chars[i])),
            chars,
            i + 1,
            x + cw,
            y,
            w,
            h,
            cw,
            lh,
            glyphs,
        )
    }
}

/// The full rendering of a text block onto a fresh background canvas.
pub open spec fn render_spec(ascii: Seq<char>, atlas: GlyphAtlas, w: int, h: int) -> Seq<u8> {
    render_from(
        background(w, h),
        ascii,
        0,
        PEN_START_X as int,
        atlas.pen_start_y(),
        w,
        h,
        atlas.char_advance(),
        atlas.line_advance(),
        atlas.glyphs@,
    )
}

/// Renders a text block onto a dark canvas of the requested size, drawing
/// each character's atlas glyph at the pen position, left to right and top
/// to bottom, with fixed monospace advances derived from the font size.
pub fn render_ascii_to_image(
    ascii: &str,
    atlas: &GlyphAtlas,
    img_width: u32,
    img_height: u32,
) -> (r: RasterFrame)
    requires
        atlas.wf(),
        1 <= img_width <= MAX_FRAME_DIM,
        1 <= img_height <= MAX_FRAME_DIM,
    ensures
        r.wf(),
        r.width == img_width,
        r.height == img_height,
        r.data@ == render_spec(ascii@, *atlas, img_width as int, img_height as int),
{
    let ghost chars = ascii@;
    let ghost wi = img_width as int;
    let ghost hi = img_height as int;
    let mut frame = new_canvas_frame(img_width, img_height, BACKGROUND_LEVEL);
    let cw: u32 = atlas.font_size * 6 / 10;
    let lh: u32 = atlas.font_size * 12 / 10;
    let y0: u32 = PEN_START_Y + atlas.ascent;
    let ghost target = render_spec(ascii@, *atlas, wi, hi);
    proof {
        assert(background(wi, hi) =~= frame.data@);
    }
    let len: usize = ascii.unicode_len();
    let mut i: usize = 0;
    let mut x: u32 = PEN_START_X;
    let mut y: u32 = y0;
    proof {
        vstd::arithmetic::div_mod::lemma_div_is_ordered(
            (atlas.font_size as int) * 6, (4096 * 6) as int, 10);
        vstd::arithmetic::div_mod::lemma_div_is_ordered(
            (atlas.font_size as int) * 12, (4096 * 12) as int, 10);
        vstd::arithmetic::div_mod::lemma_div_pos_is_pos((atlas.font_size as int) * 6, 10);
        vstd::arithmetic::div_mod::lemma_div_pos_is_pos((atlas.font_size as int) * 12, 10);
    }
    while i < len
        invariant
            frame.wf(),
            frame.width == img_width,
            frame.height == img_height,
            atlas.wf(),
            chars == ascii@,
            wi == img_width as int,
            hi == img_height as int,
            1 <= wi <= MAX_FRAME_DIM,
            1 <= hi <= MAX_FRAME_DIM,
            i <= len,
            len == chars.len(),
            x <= 2 * MAX_FRAME_DIM,
            y <= 2 * MAX_FRAME_DIM + 4916,
            cw <= 2458,
            lh <= 4916,
            cw == atlas.char_advance(),
            lh == atlas.line_advance(),
            render_from(frame.data@, chars, i as int, x as int, y as int, wi, hi, cw as int,
                lh as int, atlas.glyphs@) == target,
        ensures
            frame.wf(),
            frame.width == img_width,
            frame.height == img_height,
            frame.data@ == target,
        decreases len - i,
    {
        if y >= img_height {
            proof {
                assert(render_from(frame.data@, chars, i as int, x as int, y as int, wi, hi,
                    cw as int, lh as int, atlas.glyphs@) == frame.data@);
            }
            break;
        }
        let ch = ascii.get_char(i);
        if ch == '\n' {
            x = PEN_START_X;
            y = y + lh;
        } else if x as u64 + cw as u64 > img_width as u64 {
            // The glyph would pass the right edge: the rest of this line is
            // clipped, and the pen stays put until the next newline.
        } else {
            let ghost data_pre = frame.data@;
            let spans_idx = find_glyph(&atlas.glyphs, ch);
            match spans_idx {
                Some(g) => {
                    let entry = &atlas.glyphs[g];
                    apply_glyph(&mut frame, x, y, &entry.spans);
                }
                None => {
                    proof {
                        assert(spans_written(frame.data@, wi, hi, x as int, y as int,
                            glyph_spans(atlas.glyphs@, ch)) == frame.data@);
                    }
                }
            }
            proof {
                assert(frame.data@ == spans_written(data_pre, wi, hi, x as int, y as int,
                    glyph_spans(atlas.glyphs@, ch)));
            }
            x = x + cw;
        }
        i = i + 1;
    }
    frame
}

} // verus!
