//! Display width of characters and strings in terminal columns.
use vstd::prelude::*;

verus! {

/// Number of columns per tab stop (used for `\t` rendering).
pub const TAB_WIDTH: usize = 4;

/// Code points that occupy no column: combining marks, zero-width joiners,
/// variation selectors, BOM, soft hyphen and tag characters.
pub open spec fn is_zero_width_cp(cp: u32) -> bool {
    ||| 0x0300 <= cp <= 0x036F
    ||| 0x1AB0 <= cp <= 0x1AFF
    ||| 0x1DC0 <= cp <= 0x1DFF
    ||| 0x20D0 <= cp <= 0x20FF
    ||| 0xFE20 <= cp <= 0xFE2F
    ||| 0x200B <= cp <= 0x200D
    ||| cp == 0x2060
    ||| cp == 0xFEFF
    ||| cp == 0x00AD
    ||| 0xFE00 <= cp <= 0xFE0F
    ||| 0xE0100 <= cp <= 0xE01EF
    ||| 0xFFF9 <= cp <= 0xFFFB
    ||| cp == 0xE0001
    ||| 0xE0020 <= cp <= 0xE007F
}

/// Code points that occupy two columns: CJK blocks, Hangul syllables,
/// kana and fullwidth forms.
pub open spec fn is_wide_cp(cp: u32) -> bool {
    ||| 0x2E80 <= cp <= 0x2FDF
    ||| 0x2FF0 <= cp <= 0x303F
    ||| 0x3040 <= cp <= 0x33FF
    ||| 0x3400 <= cp <= 0x4DBF
    ||| 0x4E00 <= cp <= 0x9FFF
    ||| 0xA000 <= cp <= 0xA4CF
    ||| 0xAC00 <= cp <= 0xD7AF
    ||| 0xF900 <= cp <= 0xFAFF
    ||| 0xFF01 <= cp <= 0xFF60
    ||| 0xFFE0 <= cp <= 0xFFE6
    ||| 0x20000 <= cp <= 0x2A6DF
    ||| 0x2A700 <= cp <= 0x2EBEF
    ||| 0x2F800 <= cp <= 0x2FA1F
    ||| 0x30000 <= cp <= 0x3134F
}

/// Width in columns of one character: 0, 2 or 1.
pub open spec fn spec_char_width(c: char) -> nat {
    if is_zero_width_cp(c as u32) {
        0
    } else if is_wide_cp(c as u32) {
        2
    } else {
        1
    }
}

/// Sum of the widths of the characters of `s`.
pub open spec fn spec_str_width(s: Seq<char>) -> nat
    decreases s.len(),
{
    if s.len() == 0 {
        0
    } else {
        spec_str_width(s.drop_last()) + spec_char_width(s.last())
    }
}

fn is_zero_width(cp: u32) -> (r: bool)
    ensures
        r == is_zero_width_cp(cp),
{
    (0x0300 <= cp && cp <= 0x036F) || (0x1AB0 <= cp && cp <= 0x1AFF) || (0x1DC0 <= cp && cp
        <= 0x1DFF) || (0x20D0 <= cp && cp <= 0x20FF) || (0xFE20 <= cp && cp <= 0xFE2F) || (0x200B
        <= cp && cp <= 0x200D) || cp == 0x2060 || cp == 0xFEFF || cp == 0x00AD || (0xFE00 <= cp
        && cp <= 0xFE0F) || (0xE0100 <= cp && cp <= 0xE01EF) || (0xFFF9 <= cp && cp <= 0xFFFB)
        || cp == 0xE0001 || (0xE0020 <= cp && cp <= 0xE007F)
}

fn is_wide(cp: u32) -> (r: bool)
    ensures
        r == is_wide_cp(cp),
{
    (0x2E80 <= cp && cp <= 0x2FDF) || (0x2FF0 <= cp && cp <= 0x303F) || (0x3040 <= cp && cp <= 0x33FF) || (0x3400 <= cp && cp
        <= 0x4DBF) || (0x4E00 <= cp && cp <= 0x9FFF) || (0xA000 <= cp && cp <= 0xA4CF) || (0xAC00
        <= cp && cp <= 0xD7AF) || (0xF900 <= cp && cp <= 0xFAFF) || (0xFF01 <= cp && cp <= 0xFF60)
        || (0xFFE0 <= cp && cp <= 0xFFE6) || (0x20000 <= cp && cp <= 0x2A6DF) || (0x2A700 <= cp
        && cp <= 0x2EBEF) || (0x2F800 <= cp && cp <= 0x2FA1F) || (0x30000 <= cp && cp <= 0x3134F)
}

/// Return the display width (in terminal columns) of a single character.
///
/// - 0 for combining marks, zero-width chars (ZWJ, ZWNJ, ZWS, BOM, etc.)
/// - 2 for CJK ideographs, Hangul syllables, fullwidth forms, and related blocks
/// - 1 for everything else (including `\t`)
pub fn char_width(ch: char) -> (w: usize)
    ensures
        w == spec_char_width(ch),
        w <= 2,
{
    let cp = ch as u32;
    if is_zero_width(cp) {
        return 0;
    }
    if is_wide(cp) {
        return 2;
    }
    1
}

/// A width held within `usize`: a string wider than `usize::MAX` columns
/// counts as `usize::MAX`.
pub open spec fn capped_width(w: nat) -> usize {
    if w <= usize::MAX { w as usize } else { usize::MAX }
}

/// Return the display width of a string (sum of char widths).
pub fn str_width(s: &str) -> (w: usize)
    ensures
        w == capped_width(spec_str_width(s@)),
{
    let mut total: usize = 0;
    for c in it: s.chars()
        invariant
            it.seq() == s@,
            total == capped_width(spec_str_width(it.seq().take(it.index() as int))),
    {
        let ghost i = it.index() as int;
        proof {
            assert(it.seq().take(i + 1).drop_last() =~= it.seq().take(i));
        }
        total = total.saturating_add(char_width(c));
    }
    proof {
        assert(s@.take(s@.len() as int) =~= s@);
    }
    total
}

/// The width of two strings put together is the sum of their widths; so
/// is what `str_width` gives, while the sum fits in `usize`.
pub proof fn lemma_str_width_concat(a: Seq<char>, b: Seq<char>)
    ensures
        spec_str_width(a + b) == spec_str_width(a) + spec_str_width(b),
        spec_str_width(a) + spec_str_width(b) <= usize::MAX ==> capped_width(spec_str_width(a + b)) == capped_width(
            spec_str_width(a),
        ) + capped_width(spec_str_width(b)),
        spec_str_width(Seq::<char>::empty()) == 0,
    decreases b.len(),
{
    if b.len() == 0 {
        assert(a + b =~= a);
    } else {
        lemma_str_width_concat(a, b.drop_last());
        assert((a + b).drop_last() =~= a + b.drop_last());
        assert((a + b).last() == b.last());
    }
}

/// The width of a prefix never exceeds the width of the whole string.
pub proof fn lemma_str_width_prefix_le(s: Seq<char>, n: int)
    requires
        0 <= n <= s.len(),
    ensures
        spec_str_width(s.take(n)) <= spec_str_width(s),
    decreases s.len(),
{
    if n < s.len() {
        lemma_str_width_prefix_le(s.drop_last(), n);
        assert(s.drop_last().take(n) =~= s.take(n));
    } else {
        assert(s.take(n) =~= s);
    }
}

} // verus!
