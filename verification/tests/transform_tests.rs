use rascii::ascii::image_to_ascii;
use rascii::frame::GrayFrame;
use rascii::frame::RasterFrame;
use rascii::frame::swap_red_blue;
use rascii::palette::ascii_set_for_style;
use rascii::palette::pixel_to_ascii;
use rascii::rasterize::fill_background;
use rascii::rasterize::new_canvas_frame;
use rascii::rasterize::render_ascii_to_image;
use rascii::rasterize::CoverageSpan;
use rascii::rasterize::GlyphAtlas;
use rascii::rasterize::GlyphBitmap;
use rascii::resize::compute_output_height;
use rascii::resize::resize_image_dynamic;
use rascii::resolution::parse_resolution;
use rascii::timer::timer_debug;

fn solid_frame(width: u32, height: u32, r: u8, g: u8, b: u8) -> RasterFrame {
    let mut data = Vec::new();
    for _ in 0..(width * height) {
        data.push(r);
        data.push(g);
        data.push(b);
    }
    RasterFrame { width, height, data }
}

fn span(dx: u32, dy: u32, level: u8) -> CoverageSpan {
    CoverageSpan { dx, dy, level, inked: true }
}

/// An atlas whose every glyph covers a single pixel at the pen position,
/// with an ink level that identifies the character.
fn test_atlas(font_size: u32, ascent: u32) -> GlyphAtlas {
    let mut glyphs = Vec::new();
    let chars = "@%#*+=-:."; // the blank of the palette stays without an entry
    for (i, ch) in chars.chars().enumerate() {
        glyphs.push(GlyphBitmap { ch, spans: vec![span(0, 0, 100 + i as u8)] });
    }
    GlyphAtlas { font_size, ascent, glyphs }
}

#[test]
fn quantization_endpoints_and_midpoint() {
    let set = ascii_set_for_style(None);
    assert_eq!(set.len(), 10);
    assert_eq!(pixel_to_ascii(0, set), '@'); // luminance 0 -> palette[0]
    assert_eq!(pixel_to_ascii(255, set), ' '); // luminance 255 -> palette[9]
    assert_eq!(pixel_to_ascii(128, set), '+'); // floor(128/255*9) = 4 -> palette[4]
}

#[test]
fn quantization_inverted_palette() {
    let set = ascii_set_for_style(Some(2));
    assert_eq!(set, " .:-=+*#%@");
    assert_eq!(pixel_to_ascii(0, set), ' ');
    assert_eq!(pixel_to_ascii(255, set), '@');
}

#[test]
fn style_selector_falls_back_to_standard() {
    assert_eq!(ascii_set_for_style(None), "@%#*+=-:. ");
    assert_eq!(ascii_set_for_style(Some(0)), "@%#*+=-:. ");
    assert_eq!(ascii_set_for_style(Some(9)), "@%#*+=-:. ");
    assert_eq!(ascii_set_for_style(Some(1)), "@%#*+=-:.      ");
    assert_eq!(ascii_set_for_style(Some(3)).len(), 72);
    assert_eq!(ascii_set_for_style(Some(4)).len(), 69);
}

#[test]
fn image_to_ascii_renders_rows_with_newlines() {
    let img = GrayFrame { width: 2, height: 2, data: vec![0, 255, 128, 64] };
    let ascii = image_to_ascii(&img, None);
    // 0 -> '@', 255 -> ' ', 128 -> '+', 64 -> floor(64*9/255) = 2 -> '#'
    assert_eq!(ascii, "@ \n+#\n");
}

#[test]
fn image_to_ascii_is_pure() {
    let img = GrayFrame { width: 3, height: 1, data: vec![10, 200, 90] };
    let once = image_to_ascii(&img, None);
    let twice = image_to_ascii(&img, None);
    assert_eq!(once, twice);
}

#[test]
fn output_height_follows_aspect_rule() {
    // round(20 * 64 * 11 / (64 * 20)) = round(0.55 * 20 * 1) = 11
    assert_eq!(compute_output_height(20, 64, 64), 11);
    // round(100 * (9/16) * 0.55) = round(30.9375) = 31
    assert_eq!(compute_output_height(100, 1920, 1080), 31);
    // a very wide strip clamps up to a height of 1
    assert_eq!(compute_output_height(2, 4096, 1), 1);
}

#[test]
fn resize_changes_dimensions() {
    let frame = solid_frame(4, 4, 10, 20, 30);
    let resized = resize_image_dynamic(&frame, 2);
    // round(2 * 4 * 11 / (4 * 20)) = round(1.1) = 1
    assert_eq!(resized.width, 2);
    assert_eq!(resized.height, 1);
    assert_eq!(resized.data.len(), 6);
}

#[test]
fn swap_red_blue_swaps_channels() {
    let frame = RasterFrame { width: 2, height: 1, data: vec![1, 2, 3, 4, 5, 6] };
    let swapped = swap_red_blue(&frame);
    assert_eq!(swapped.data, vec![3, 2, 1, 6, 5, 4]);
    let back = swap_red_blue(&swapped);
    assert_eq!(back.data, frame.data);
}

#[test]
fn fill_background_sets_every_byte() {
    let mut frame = solid_frame(2, 2, 1, 2, 3);
    fill_background(&mut frame, 8);
    assert!(frame.data.iter().all(|&b| b == 8));
    assert_eq!(frame.data.len(), 12);
}

#[test]
fn canvas_frame_starts_dark() {
    let frame = new_canvas_frame(3, 2, 8);
    assert_eq!(frame.width, 3);
    assert_eq!(frame.height, 2);
    assert_eq!(frame.data, vec![8; 18]);
}

#[test]
fn render_draws_glyph_at_pen_position() {
    // font size 10: advance 6 per char; ascent 2 puts the first pen at (10, 12).
    let atlas = test_atlas(10, 2);
    let frame = render_ascii_to_image("@", &atlas, 20, 20);
    assert_eq!(frame.width, 20);
    assert_eq!(frame.height, 20);
    let base = 3 * (12 * 20 + 10);
    assert_eq!(&frame.data[base..base + 3], &[100, 100, 100]);
    // everything else is background
    let lit: usize = frame.data.iter().filter(|&&b| b != 8).count();
    assert_eq!(lit, 3);
}

#[test]
fn render_advances_pen_and_wraps_lines() {
    let atlas = test_atlas(10, 2);
    let frame = render_ascii_to_image("@%\n#", &atlas, 30, 40);
    // '@' at (10, 12), '%' at (16, 12), '#' at (10, 24) after the newline.
    let at = |x: usize, y: usize| {
        let base = 3 * (y * 30 + x);
        frame.data[base]
    };
    assert_eq!(at(10, 12), 100);
    assert_eq!(at(16, 12), 101);
    assert_eq!(at(10, 24), 102);
}

#[test]
fn render_clips_at_right_edge() {
    let atlas = test_atlas(10, 2);
    // width 17: '@' fits at x = 10 (10 + 6 <= 17), '%' would pass the edge.
    let frame = render_ascii_to_image("@%", &atlas, 17, 20);
    let lit: usize = frame.data.iter().filter(|&&b| b != 8).count();
    assert_eq!(lit, 3);
}

#[test]
fn render_skips_unknown_and_blank_glyphs() {
    let atlas = test_atlas(10, 2);
    // ' ' has no atlas entry and draws nothing; the pen still advances.
    let frame = render_ascii_to_image(" @", &atlas, 30, 30);
    let base = 3 * (12 * 30 + 16);
    assert_eq!(frame.data[base], 100);
    let lit: usize = frame.data.iter().filter(|&&b| b != 8).count();
    assert_eq!(lit, 3);
}

#[test]
fn render_below_bottom_edge_draws_nothing() {
    let atlas = test_atlas(10, 20);
    // first baseline at y = 30, past the 8-pixel-high canvas
    let frame = render_ascii_to_image("@@@", &atlas, 30, 8);
    assert!(frame.data.iter().all(|&b| b == 8));
}

#[test]
fn parse_resolution_presets_ignore_case() {
    assert_eq!(parse_resolution("fhd"), Some((1920, 1080)));
    assert_eq!(parse_resolution("FHD"), Some((1920, 1080)));
    assert_eq!(parse_resolution("2k"), Some((2560, 1440)));
    assert_eq!(parse_resolution("2K"), Some((2560, 1440)));
    assert_eq!(parse_resolution("WxGa"), Some((1440, 900)));
}

#[test]
fn parse_resolution_explicit_pairs() {
    assert_eq!(parse_resolution("800x600"), Some((800, 600)));
    assert_eq!(parse_resolution("+800x+600"), Some((800, 600)));
    assert_eq!(parse_resolution("4096x16384"), Some((4096, 16384)));
}

#[test]
fn parse_resolution_rejects_bad_pairs() {
    assert_eq!(parse_resolution("800X600"), None); // the separator is a lowercase x
    assert_eq!(parse_resolution("0x600"), None);
    assert_eq!(parse_resolution("800x0"), None);
    assert_eq!(parse_resolution("4097x600"), None);
    assert_eq!(parse_resolution("800x16385"), None);
    assert_eq!(parse_resolution("800x600x400"), None);
    assert_eq!(parse_resolution("x600"), None);
    assert_eq!(parse_resolution("800x"), None);
    assert_eq!(parse_resolution("800x6a0"), None);
    assert_eq!(parse_resolution("abc"), None);
    assert_eq!(parse_resolution(""), None);
    assert_eq!(parse_resolution("99999999999x600"), None);
}

#[test]
fn timer_debug_returns_closure_result() {
    let v = timer_debug("phase", || 41 + 1);
    assert_eq!(v, 42);
}
