//! Output-resolution selection: a handful of named presets, matched without
//! regard to letter case, or an explicit `<width>x<height>` pair within the
//! supported bounds.
use vstd::prelude::*;

verus! {

/// ASCII lowercasing of one character: letters `A` through `Z` shift into
/// `a` through `z`, everything else is unchanged.
pub open spec fn lower_char(c: char) -> char {
    if 65 <= c as int && c as int <= 90 {
        (((c as int) + 32) as u8) as char
    } else {
        c
    }
}

/// ASCII lowercasing of a character sequence.
pub open spec fn lower_chars(s: Seq<char>) -> Seq<char> {
    s.map_values(|c: char| lower_char(c))
}

/// Whether `c` is a decimal digit.
pub open spec fn is_digit(c: char) -> bool {
    48 <= c as int <= 57
}

/// Whether `s` is one or more decimal digits.
pub open spec fn all_digits(s: Seq<char>) -> bool {
    s.len() >= 1 && forall|i: int| 0 <= i < s.len() ==> is_digit(#[trigger] s[i])
}

/// The number a digit sequence denotes.
pub open spec fn digits_val(s: Seq<char>) -> int
    decreases s.len(),
{
    if s.len() == 0 {
        0
    } else {
        digits_val(s.drop_last()) * 10 + (s.last() as int - 48)
    }
}

/// The value of a digit sequence is never negative.
proof fn lemma_digits_val_nonneg(s: Seq<char>)
    requires
        forall|i: int| 0 <= i < s.len() ==> is_digit(#[trigger] s[i]),
    ensures
        digits_val(s) >= 0,
    decreases s.len(),
{
    if s.len() > 0 {
        lemma_digits_val_nonneg(s.drop_last());
    }
}

/// Appending digits never shrinks the value: a prefix's value bounds the
/// whole sequence's value from below.
proof fn lemma_digits_val_prefix_le(s: Seq<char>, j: int)
    requires
        forall|i: int| 0 <= i < s.len() ==> is_digit(#[trigger] s[i]),
        0 <= j <= s.len(),
    ensures
        digits_val(s.take(j)) <= digits_val(s),
    decreases s.len(),
{
    if j < s.len() && s.len() > 0 {
        assert forall|i: int| 0 <= i < s.drop_last().len() implies
            is_digit(#[trigger] s.drop_last()[i]) by {
            assert(s.drop_last()[i] == s[i]);
        }
        assert(s.take(j) =~= s.drop_last().take(j));
        lemma_digits_val_prefix_le(s.drop_last(), j);
        lemma_digits_val_nonneg(s.drop_last());
        assert(is_digit(s[s.len() - 1]));
        assert(s.last() == s[s.len() - 1]);
        assert(digits_val(s.drop_last()) <= digits_val(s.drop_last()) * 10) by (nonlinear_arith)
            requires digits_val(s.drop_last()) >= 0;
    } else {
        assert(s.take(j) =~= s);
    }
}

/// The number an unsigned decimal field denotes, as `u32::from_str` reads
/// it: an optional leading `+`, then one or more digits, rejected when the
/// value passes `u32::MAX`.
pub open spec fn spec_parse_u32(s: Seq<char>) -> Option<u32> {
    let t = if s.len() >= 1 && s[0] == '+' {
        s.drop_first()
    } else {
        s
    };
    if all_digits(t) && digits_val(t) <= u32::MAX {
        Some(digits_val(t) as u32)
    } else {
        None
    }
}

/// Parses an unsigned decimal field.
pub fn parse_u32_field(s: &str) -> (r: Option<u32>)
    ensures
        r == spec_parse_u32(s@),
{
    let n: usize = s.unicode_len();
    let mut start: usize = 0;
    if n >= 1 {
        if s.get_char(0) == '+' {
            start = 1;
        }
    }
    let ghost t = if s@.len() >= 1 && s@[0] == '+' {
        s@.drop_first()
    } else {
        s@
    };
    proof {
        assert(t =~= s@.skip(start as int));
    }
    if n == start {
        return None;
    }
    let mut acc: u64 = 0;
    let mut i: usize = start;
    while i < n
        invariant
            start <= i <= n,
            n == s@.len(),
            t == s@.skip(start as int),
            t == (if s@.len() >= 1 && s@[0] == '+' { s@.drop_first() } else { s@ }),
            t.len() == n - start,
            forall|k: int| 0 <= k < i - start ==> is_digit(#[trigger] t[k]),
            acc == digits_val(t.take(i - start)),
            acc <= u32::MAX,
        decreases n - i,
    {
        let c = s.get_char(i);
        let code: u32 = c as u32;
        proof {
            assert(t[i - start] == s@[i as int]);
        }
        if !(48 <= code && code <= 57) {
            proof {
                assert(!is_digit(t[i - start]));
                assert(!all_digits(t));
            }
            return None;
        }
        let d: u64 = (code - 48) as u64;
        let next: u64 = acc * 10 + d;
        proof {
            assert(t.take(i - start + 1).drop_last() =~= t.take(i - start));
            assert(t.take(i - start + 1).last() == t[i - start]);
        }
        if next > 0xffff_ffff {
            proof {
                if all_digits(t) {
                    lemma_digits_val_prefix_le(t, i - start + 1);
                }
            }
            return None;
        }
        acc = next;
        i = i + 1;
    }
    proof {
        assert(t.take(n - start) =~= t);
    }
    Some(acc as u32)
}

/// How many times `c` occurs in `s`.
pub open spec fn count_char(s: Seq<char>, c: char) -> int
    decreases s.len(),
{
    if s.len() == 0 {
        0
    } else {
        count_char(s.drop_last(), c) + if s.last() == c {
            1int
        } else {
            0int
        }
    }
}

/// The resolution a selector denotes: the presets `2k`, `fhd` and `wxga`
/// (matched in any letter case), or a `<width>x<height>` pair — exactly one
/// lowercase `x` between two decimal fields — accepted when both sides are
/// positive, the width is at most 4096 and the height at most 16384.
pub open spec fn spec_parse_resolution(s: Seq<char>) -> Option<(u32, u32)> {
    let low = lower_chars(s);
    if low == "2k"@ {
        Some((2560u32, 1440u32))
    } else if low == "fhd"@ {
        Some((1920u32, 1080u32))
    } else if low == "wxga"@ {
        Some((1440u32, 900u32))
    } else if count_char(s, 'x') == 1 {
        let k = choose|k: int|
            0 <= k < s.len() && s[k] == 'x' && (forall|j: int| 0 <= j < k ==> s[j] != 'x');
        match (spec_parse_u32(s.take(k)), spec_parse_u32(s.skip(k + 1))) {
            (Some(w), Some(h)) => if 0 < w <= 4096 && 0 < h <= 16384 {
                Some((w, h))
            } else {
                None
            },
            _ => None,
        }
    } else {
        None
    }
}

/// Compares a selector against a preset name without regard to letter case.
fn eq_ignore_case(s: &str, t: &str) -> (b: bool)
    ensures
        b == (lower_chars(s@) == t@),
{
    let n: usize = s.unicode_len();
    let m: usize = t.unicode_len();
    if n != m {
        proof {
            assert(lower_chars(s@).len() == s@.len());
        }
        return false;
    }
    let mut i: usize = 0;
    while i < n
        invariant
            i <= n,
            n == s@.len(),
            n == t@.len(),
            forall|k: int| 0 <= k < i ==> lower_char(s@[k]) == #[trigger] t@[k],
        decreases n - i,
    {
        let c = s.get_char(i);
        let code: u32 = c as u32;
        let lc: char = if 65 <= code && code <= 90 {
            ((code + 32) as u8) as char
        } else {
            c
        };
        proof {
            assert(lc == lower_char(s@[i as int]));
        }
        if lc != t.get_char(i) {
            proof {
                assert(lower_chars(s@)[i as int] == lower_char(s@[i as int]));
            }
            return false;
        }
        i = i + 1;
    }
    proof {
        assert(lower_chars(s@) =~= t@);
    }
    true
}

/// Parses an output-resolution selector: a named preset in any letter case,
/// or an explicit `<width>x<height>` pair within the supported bounds.
pub fn parse_resolution(res_str: &str) -> (r: Option<(u32, u32)>)
    ensures
        r == spec_parse_resolution(res_str@),
{
    if eq_ignore_case(res_str, "2k") {
        return Some((2560, 1440));
    }
    if eq_ignore_case(res_str, "fhd") {
        return Some((1920, 1080));
    }
    if eq_ignore_case(res_str, "wxga") {
        return Some((1440, 900));
    }
    let n: usize = res_str.unicode_len();
    let mut xpos: usize = 0;
    let mut count: usize = 0;
    let mut i: usize = 0;
    while i < n
        invariant
            i <= n,
            n == res_str@.len(),
            count == count_char(res_str@.take(i as int), 'x'),
            count <= i,
            count == 0 ==> (forall|j: int| 0 <= j < i ==> res_str@[j] != 'x'),
            count >= 1 ==> xpos < i && res_str@[xpos as int] == 'x' && (forall|j: int|
                0 <= j < xpos ==> res_str@[j] != 'x'),
        decreases n - i,
    {
        let c = res_str.get_char(i);
        proof {
            assert(res_str@.take(i as int + 1).drop_last() =~= res_str@.take(i as int));
            assert(res_str@.take(i as int + 1).last() == res_str@[i as int]);
        }
        if c == 'x' {
            if count == 0 {
                xpos = i;
            }
            count = count + 1;
        }
        i = i + 1;
    }
    proof {
        assert(res_str@.take(n as int) =~= res_str@);
    }
    if count != 1 {
        return None;
    }
    proof {
        let k = choose|k: int|
            0 <= k < res_str@.len() && res_str@[k] == 'x' && (forall|j: int|
                0 <= j < k ==> res_str@[j] != 'x');
        assert(res_str@[xpos as int] == 'x' && (forall|j: int|
            0 <= j < xpos ==> res_str@[j] != 'x'));
        if k != xpos as int {
            if k < xpos as int {
                assert(res_str@[k] != 'x');
            } else {
                assert(res_str@[xpos as int] != 'x');
            }
        }
        assert(k == xpos as int);
    }
    let left = res_str.substring_char(0, xpos);
    let right = res_str.substring_char(xpos + 1, n);
    proof {
        assert(left@ =~= res_str@.take(xpos as int));
        assert(right@ =~= res_str@.skip(xpos as int + 1));
    }
    let wr = parse_u32_field(left);
    let hr = parse_u32_field(right);
    match (wr, hr) {
        (Some(w), Some(h)) => {
            if 0 < w && w <= 4096 && 0 < h && h <= 16384 {
                Some((w, h))
            } else {
                None
            }
        }
        _ => None,
    }
}

} // verus!
