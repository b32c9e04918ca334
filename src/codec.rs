//! The glyph codec: an 8-bit sub-pixel pattern and the character that shows it.
//!
//! A pattern keeps the left sub-column of a cell in its low nibble and the
//! right sub-column in its high nibble; within a nibble, bit 0 is the top
//! sub-row and bit 3 the bottom one. Braille glyphs number their dots
//! otherwise, so the codec permutes bits on the way in and out.
use vstd::prelude::*;

verus! {

/// The first codepoint of the Unicode Braille block.
pub const BRAILLE_BASE: u32 = 0x2800;

/// The codepoint of the space glyph, which stands for the empty pattern.
pub const SPACE_CODE: u32 = 0x20;

/// True of the characters that decode to a pattern: a space or any
/// character of the Braille block.
pub open spec fn is_dot_char(c: char) -> bool {
    c == ' ' || (BRAILLE_BASE <= (c as u32) && (c as u32) < BRAILLE_BASE + 256)
}

/// True of the characters that encode a pattern: a space for the empty
/// pattern, a Braille glyph with at least one dot for any other.
pub open spec fn is_glyph(c: char) -> bool {
    c == ' ' || (BRAILLE_BASE < (c as u32) && (c as u32) < BRAILLE_BASE + 256)
}

/// The Braille dot mask that shows pattern `p`.
pub open spec fn dots_of(p: u8) -> u8 {
    ((p & 0b0111_0000) >> 1u8) | (p & 0b0000_0111) | (if p & 0b0000_1000 != 0 { 0x40u8 } else { 0u8 })
        | (if p & 0b1000_0000 != 0 { 0x80u8 } else { 0u8 })
}

/// The pattern that a Braille dot mask shows.
pub open spec fn pattern_of_dots(d: u8) -> u8 {
    ((d & 0b0011_1000) << 1u8) | (d & 0b0000_0111) | (if d & 0x40 != 0 { 0b0000_1000u8 } else { 0u8 })
        | (if d & 0x80 != 0 { 0b1000_0000u8 } else { 0u8 })
}

/// The codepoint of the glyph that shows pattern `p`.
pub open spec fn glyph_code(p: u8) -> u32 {
    if p == 0 {
        SPACE_CODE
    } else {
        (BRAILLE_BASE + dots_of(p)) as u32
    }
}

/// The pattern that glyph `c` shows.
pub open spec fn glyph_pattern(c: char) -> u8 {
    if c == ' ' {
        0
    } else {
        pattern_of_dots(((c as u32) - BRAILLE_BASE) as u8)
    }
}

proof fn lemma_dots_round_trip(p: u8)
    ensures
        pattern_of_dots(dots_of(p)) == p,
        p != 0 ==> dots_of(p) != 0,
{
    assert(pattern_of_dots(dots_of(p)) == p) by (bit_vector);
    assert(p != 0 ==> dots_of(p) != 0) by (bit_vector);
}

/// Relies on `char::from_u32`: it returns the character with that codepoint,
/// and `None` only for surrogates and values past `char::MAX`.
#[verifier::external_body]
fn char_from_code(v: u32) -> (r: Option<char>)
    ensures
        r matches Some(c) ==> c as u32 == v,
        (v < 0xD800 || (0xE000 <= v && v <= 0x10FFFF)) ==> r is Some,
{
    char::from_u32(v)
}

/// Decodes a glyph into the pattern of sub-pixels that it shows.
pub fn pattern_from_char(ch: char) -> (r: u8)
    requires
        is_dot_char(ch),
    ensures
        r == glyph_pattern(ch),
{
    if ch == ' ' {
        0
    } else {
        let d = (ch as u32 - BRAILLE_BASE) as u8;
        let low_row: u8 = if d & 0x40 != 0 { 0b0000_1000 } else { 0 };
        let high_row: u8 = if d & 0x80 != 0 { 0b1000_0000 } else { 0 };
        ((d & 0b0011_1000) << 1u8) | (d & 0b0000_0111) | low_row | high_row
    }
}

/// Encodes a pattern of sub-pixels as the glyph that shows it.
pub fn char_for_pattern(pattern: u8) -> (r: char)
    ensures
        r as u32 == glyph_code(pattern),
        is_glyph(r),
        glyph_pattern(r) == pattern,
{
    proof {
        lemma_dots_round_trip(pattern);
    }
    if pattern == 0 {
        ' '
    } else {
        let low_row: u8 = if pattern & 0b0000_1000 != 0 { 0x40 } else { 0 };
        let high_row: u8 = if pattern & 0b1000_0000 != 0 { 0x80 } else { 0 };
        let d: u8 = ((pattern & 0b0111_0000) >> 1u8) | (pattern & 0b0000_0111) | low_row | high_row;
        let c = char_from_code(BRAILLE_BASE + d as u32);
        c.unwrap()
    }
}

/// Merges `pattern` into the glyph `buf`: sub-pixels already lit stay lit.
pub fn plot_at(pattern: u8, buf: &mut char)
    requires
        is_dot_char(*old(buf)),
    ensures
        is_glyph(*final(buf)),
        glyph_pattern(*final(buf)) == glyph_pattern(*old(buf)) | pattern,
{
    let current = pattern_from_char(*buf);
    let merged = pattern | current;
    proof {
        assert(merged == current | pattern) by (bit_vector)
            requires
                merged == pattern | current,
        ;
    }
    *buf = char_for_pattern(merged);
}

/// Decoding the glyph of a pattern gives the pattern back, and encoding the
/// pattern of a glyph gives the glyph back: the codec is a bijection between
/// the 256 patterns and the space and Braille glyphs.
pub proof fn lemma_codec_round_trip(p: u8, c: char)
    ensures
        c as u32 == glyph_code(p) ==> is_glyph(c) && glyph_pattern(c) == p,
        is_glyph(c) ==> glyph_code(glyph_pattern(c)) == c as u32,
{
    lemma_dots_round_trip(p);
    if is_glyph(c) && c != ' ' {
        let d = ((c as u32) - BRAILLE_BASE) as u8;
        assert(dots_of(pattern_of_dots(d)) == d && (d != 0 ==> pattern_of_dots(d) != 0)) by (bit_vector);
    }
}

/// The pattern of a cell after merging `ps` into it, one after another,
/// starting from `start`.
pub open spec fn merge_all(start: u8, ps: Seq<u8>) -> u8
    decreases ps.len(),
{
    if ps.len() == 0 {
        start
    } else {
        merge_all(start | ps[0], ps.drop_first())
    }
}

/// The bitwise OR of all patterns of `ps`.
pub open spec fn or_all(ps: Seq<u8>) -> u8
    decreases ps.len(),
{
    if ps.len() == 0 {
        0
    } else {
        ps[0] | or_all(ps.drop_first())
    }
}

proof fn lemma_or_facts(a: u8, b: u8, c: u8)
    ensures
        (a | b) | c == a | (b | c),
        a | b == b | a,
        a | a == a,
        a | 0 == a,
        0 | a == a,
        (a | b) | c == b | (a | c),
        (a | b == b && b | a == a) ==> a == b,
{
    assert((a | b) | c == a | (b | c)) by (bit_vector);
    assert(a | b == b | a) by (bit_vector);
    assert(a | a == a) by (bit_vector);
    assert(a | 0 == a) by (bit_vector);
    assert(0 | a == a) by (bit_vector);
    assert((a | b) | c == b | (a | c)) by (bit_vector);
    assert((a | b == b && b | a == a) ==> a == b) by (bit_vector);
}

proof fn lemma_merge_all_is_or(start: u8, ps: Seq<u8>)
    ensures
        merge_all(start, ps) == start | or_all(ps),
    decreases ps.len(),
{
    if ps.len() == 0 {
        lemma_or_facts(start, 0, 0);
    } else {
        lemma_merge_all_is_or(start | ps[0], ps.drop_first());
        lemma_or_facts(start, ps[0], or_all(ps.drop_first()));
    }
}

proof fn lemma_or_all_absorbs(ps: Seq<u8>, x: u8)
    requires
        ps.contains(x),
    ensures
        or_all(ps) | x == or_all(ps),
    decreases ps.len(),
{
    let rest = ps.drop_first();
    if ps[0] == x {
        lemma_or_facts(x, or_all(rest), x);
        lemma_or_facts(or_all(rest), x, x);
        lemma_or_facts(x, x, or_all(rest));
    } else {
        let i = choose|i: int| 0 <= i < ps.len() && ps[i] == x;
        assert(rest[i - 1] == x);
        lemma_or_all_absorbs(rest, x);
        lemma_or_facts(ps[0], or_all(rest), x);
    }
}

proof fn lemma_or_all_subsumed(ps: Seq<u8>, qs: Seq<u8>)
    requires
        forall|x: u8| ps.contains(x) ==> qs.contains(x),
    ensures
        or_all(ps) | or_all(qs) == or_all(qs),
    decreases ps.len(),
{
    if ps.len() == 0 {
        lemma_or_facts(or_all(qs), 0, 0);
    } else {
        let rest = ps.drop_first();
        assert forall|x: u8| rest.contains(x) implies qs.contains(x) by {
            let i = choose|i: int| 0 <= i < rest.len() && rest[i] == x;
            assert(ps[i + 1] == x);
        }
        assert(ps.contains(ps[0]));
        lemma_or_all_subsumed(rest, qs);
        lemma_or_all_absorbs(qs, ps[0]);
        lemma_or_facts(ps[0], or_all(rest), or_all(qs));
        lemma_or_facts(or_all(qs), ps[0], 0);
    }
}

/// Merging patterns into a cell lights exactly the bitwise OR of the cell's
/// pattern and all merged patterns, whatever their order and repetitions: two
/// sequences with the same members leave the same pattern.
pub proof fn lemma_merge_order_free(start: u8, ps: Seq<u8>, qs: Seq<u8>)
    requires
        forall|x: u8| ps.contains(x) <==> qs.contains(x),
    ensures
        merge_all(start, ps) == start | or_all(ps),
        merge_all(start, ps) == merge_all(start, qs),
{
    lemma_merge_all_is_or(start, ps);
    lemma_merge_all_is_or(start, qs);
    lemma_or_all_subsumed(ps, qs);
    lemma_or_all_subsumed(qs, ps);
    lemma_or_facts(or_all(ps), or_all(qs), 0);
}

} // verus!
