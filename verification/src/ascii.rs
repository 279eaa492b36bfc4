//! Quantization phase of the frame transform: a luminance frame becomes a
//! block of text, one palette glyph per pixel and a newline after each row.
use vstd::prelude::*;
use vstd::string::*;
use crate::frame::GrayFrame;
use crate::palette::ascii_set_for_style;
use crate::palette::lemma_quant_index_in_range;
use crate::palette::palette_char;
use crate::palette::palette_for_style;

verus! {

/// One text row of the quantized image: the glyphs for row `y`, followed by a
/// newline.
pub open spec fn ascii_row(gray: Seq<u8>, w: int, palette: Seq<char>, y: int) -> Seq<char> {
    Seq::new(w as nat, |x: int| palette_char(palette, gray[y * w + x])).push('\n')
}

/// The first `h` text rows of the quantized image, concatenated.
pub open spec fn ascii_art_rows(gray: Seq<u8>, w: int, palette: Seq<char>, h: int) -> Seq<char>
    decreases h,
{
    if h <= 0 {
        Seq::empty()
    } else {
        ascii_art_rows(gray, w, palette, h - 1) + ascii_row(gray, w, palette, h - 1)
    }
}

/// Converts a luminance frame to its text rendition under the palette the
/// style selector picks: one glyph per pixel, rows separated (and terminated)
/// by newlines.
pub fn image_to_ascii(img: &GrayFrame, style: Option<u8>) -> (s: String)
    requires
        img.wf(),
    ensures
        s@ == ascii_art_rows(img.data@, img.width as int, palette_for_style(style), img.height as int),
{
    let ghost gray = img.data@;
    let ghost pal = palette_for_style(style);
    let w = img.width;
    let h = img.height;
    let ascii_set = ascii_set_for_style(style);
    let n: usize = ascii_set.unicode_len();
    let mut s = String::new();
    let mut y: u32 = 0;
    proof {
        reveal_strlit("\n");
    }
    while y < h
        invariant
            img.wf(),
            w == img.width,
            h == img.height,
            gray == img.data@,
            pal == palette_for_style(style),
            ascii_set@ == pal,
            n == pal.len(),
            2 <= n <= 100,
            y <= h,
            s@ == ascii_art_rows(gray, w as int, pal, y as int),
            "\n"@ == seq!['\n'],
        decreases h - y,
    {
        let mut x: u32 = 0;
        while x < w
            invariant
                img.wf(),
                w == img.width,
                h == img.height,
                gray == img.data@,
                pal == palette_for_style(style),
                ascii_set@ == pal,
                n == pal.len(),
                2 <= n <= 100,
                y < h,
                x <= w,
                s@ == ascii_art_rows(gray, w as int, pal, y as int)
                    + Seq::new(x as nat, |xx: int| palette_char(pal, gray[y as int * w as int + xx])),
            decreases w - x,
        {
            proof {
                assert((y as int) * (w as int) + (x as int) < (w as int) * (h as int)
                    && 0 <= (y as int) * (w as int) + (x as int)
                    && (w as int) * (h as int) <= 16384 * 16384) by (nonlinear_arith)
                    requires
                        0 <= (x as int) < (w as int) <= 16384,
                        0 <= (y as int) < (h as int) <= 16384;
            }
            let pix: u8 = img.data[(y as usize) * (w as usize) + (x as usize)];
            proof {
                lemma_quant_index_in_range(pix, n as int);
            }
            let idx: usize = (pix as usize) * (n - 1) / 255;
            let glyph = ascii_set.substring_char(idx, idx + 1);
            proof {
                assert(glyph@ =~= seq![palette_char(pal, pix)]);
            }
            s.append(glyph);
            proof {
                assert(s@ =~= ascii_art_rows(gray, w as int, pal, y as int)
                    + Seq::new((x + 1) as nat, |xx: int| palette_char(pal, gray[y as int * w as int + xx])));
            }
            x = x + 1;
        }
        s.append("\n");
        proof {
            assert(s@ =~= ascii_art_rows(gray, w as int, pal, (y + 1) as int));
        }
        y = y + 1;
    }
    s
}

} // verus!
