//! Glyph palettes: ordered tables mapping normalized brightness to a
//! representative character, and the brightness quantization rule.
use vstd::prelude::*;
use vstd::arithmetic::div_mod::*;
use vstd::string::*;

verus! {

/// The default palette, darkest glyph first.
pub open spec fn standard_palette() -> Seq<char> {
    "@%#*+=-:. "@
}

/// The default palette padded with extra blank space at the bright end.
pub open spec fn extended_palette() -> Seq<char> {
    "@%#*+=-:.      "@
}

/// The default palette reversed: brightest glyph first.
pub open spec fn inverted_palette() -> Seq<char> {
    " .:-=+*#%@"@
}

/// A long palette with finer brightness steps.
pub open spec fn moderate_detail_palette() -> Seq<char> {
    "   .'`^\",:;Il!i><~+_-?][}{1)(|\\/tfjrxnuvczXYUJCLQ0OZmwqpdbkhao*#MW&8%B@$"@
}

/// The long palette reversed.
pub open spec fn moderate_detail_inverted_palette() -> Seq<char> {
    "$@%B&8W#*oahkbdpqmwZO0QLCJUYXzcvunxrjft\\/|)(1}{][?-_+~><i!lI;:,\"^`'. "@
}

/// The palette a style selector picks: styles 1 through 4 name the variant
/// palettes, and every other selector (including none) falls back to the
/// standard palette.
pub open spec fn palette_for_style(style: Option<u8>) -> Seq<char> {
    match style {
        Option::Some(1u8) => extended_palette(),
        Option::Some(2u8) => inverted_palette(),
        Option::Some(3u8) => moderate_detail_palette(),
        Option::Some(4u8) => moderate_detail_inverted_palette(),
        _ => standard_palette(),
    }
}

/// Returns the character table for a style selector.
pub fn ascii_set_for_style(style: Option<u8>) -> (r: &'static str)
    ensures
        r@ == palette_for_style(style),
        2 <= r@.len() <= 100,
{
    proof {
        reveal_strlit("@%#*+=-:. ");
        reveal_strlit("@%#*+=-:.      ");
        reveal_strlit(" .:-=+*#%@");
        reveal_strlit("   .'`^\",:;Il!i><~+_-?][}{1)(|\\/tfjrxnuvczXYUJCLQ0OZmwqpdbkhao*#MW&8%B@$");
        reveal_strlit("$@%B&8W#*oahkbdpqmwZO0QLCJUYXzcvunxrjft\\/|)(1}{][?-_+~><i!lI;:,\"^`'. ");
    }
    match style {
        Option::Some(1u8) => "@%#*+=-:.      ",
        Option::Some(2u8) => " .:-=+*#%@",
        Option::Some(3u8) => "   .'`^\",:;Il!i><~+_-?][}{1)(|\\/tfjrxnuvczXYUJCLQ0OZmwqpdbkhao*#MW&8%B@$",
        Option::Some(4u8) => "$@%B&8W#*oahkbdpqmwZO0QLCJUYXzcvunxrjft\\/|)(1}{][?-_+~><i!lI;:,\"^`'. ",
        _ => "@%#*+=-:. ",
    }
}

/// The palette slot a luminance value selects from a table of `n` glyphs:
/// the zero-based index `floor(luminance / 255 * (n - 1))`.
pub open spec fn quant_index(pixel: u8, n: int) -> int {
    (pixel as int) * (n - 1) / 255
}

/// The glyph a luminance value maps to under a given palette.
pub open spec fn palette_char(palette: Seq<char>, pixel: u8) -> char {
    palette[quant_index(pixel, palette.len() as int)]
}

/// The quantization index always lands inside the palette.
pub proof fn lemma_quant_index_in_range(pixel: u8, n: int)
    requires
        1 <= n,
    ensures
        0 <= quant_index(pixel, n) < n,
{
    let p = pixel as int;
    assert(p * (n - 1) <= 255 * (n - 1)) by (nonlinear_arith)
        requires 0 <= p <= 255 && 1 <= n;
    assert(0 <= p * (n - 1)) by (nonlinear_arith)
        requires 0 <= p && 1 <= n;
    lemma_div_is_ordered(p * (n - 1), 255 * (n - 1), 255);
    lemma_div_multiples_vanish(n - 1, 255);
    lemma_div_pos_is_pos(p * (n - 1), 255);
}

/// Minimum brightness selects the first glyph of a palette and maximum
/// brightness the last.
pub proof fn lemma_quant_index_endpoints(n: int)
    requires
        1 <= n,
    ensures
        quant_index(0, n) == 0,
        quant_index(255, n) == n - 1,
{
    lemma_div_multiples_vanish(n - 1, 255);
}

/// Maps a luminance value to a glyph of the given table, the zero byte to the
/// first entry and full brightness to the last.
pub fn pixel_to_ascii(pixel: u8, ascii_set: &str) -> (c: char)
    requires
        1 <= ascii_set@.len() <= 10000,
    ensures
        c == palette_char(ascii_set@, pixel),
{
    let n: usize = ascii_set.unicode_len();
    proof {
        assert((pixel as int) * (n - 1) <= 255 * 9999) by (nonlinear_arith)
            requires 0 <= pixel as int <= 255 && 0 <= (n - 1) as int <= 9999;
        lemma_quant_index_in_range(pixel, n as int);
    }
    let idx: usize = (pixel as usize) * (n - 1) / 255;
    ascii_set.get_char(idx)
}

} // verus!
