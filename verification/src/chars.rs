//! Character classes of the source language and byte offsets of characters.

use vstd::prelude::*;
use vstd::utf8::encode_scalar;
use vstd::utf8::encode_utf8;

verus! {

/// What `char::is_whitespace` reports of a character: whether it has the
/// Unicode property `White_Space`.
pub uninterp spec fn unicode_whitespace(c: char) -> bool;

/// What `char::is_alphabetic` reports of a character: whether it has the
/// Unicode property `Alphabetic`.
pub uninterp spec fn unicode_alphabetic(c: char) -> bool;

/// What `char::is_alphanumeric` reports of a character: whether it is a
/// Unicode letter or number.
pub uninterp spec fn unicode_alphanumeric(c: char) -> bool;

/// `char::is_whitespace`: the answer depends on the character alone. It is
/// named here and not spelled out; nothing more is claimed of it.
pub assume_specification[ char::is_whitespace ](c: char) -> (b: bool)
    ensures
        b == unicode_whitespace(c),
;

/// `char::is_alphabetic`: the answer depends on the character alone. It is
/// named here and not spelled out; nothing more is claimed of it.
pub assume_specification[ char::is_alphabetic ](c: char) -> (b: bool)
    ensures
        b == unicode_alphabetic(c),
;

/// `char::is_alphanumeric`: the answer depends on the character alone. It
/// is named here and not spelled out; nothing more is claimed of it.
pub assume_specification[ char::is_alphanumeric ](c: char) -> (b: bool)
    ensures
        b == unicode_alphanumeric(c),
;

/// One of the first 128 characters.
pub open spec fn is_ascii(c: char) -> bool {
    (c as u32) < 0x80
}

/// A decimal digit `0` to `9`.
pub open spec fn is_digit(c: char) -> bool {
    '0' <= c <= '9'
}

/// The number a decimal digit stands for.
pub open spec fn digit_value(c: char) -> int {
    (c as u32) - ('0' as u32)
}

/// White space, given what Unicode says of the character. Within ASCII it
/// is space, tab, line feed, vertical tab, form feed and carriage return,
/// whatever was reported; beyond ASCII it is what was reported.
pub open spec fn space_given(c: char, reported: bool) -> bool {
    if is_ascii(c) {
        c == ' ' || 0x09 <= (c as u32) <= 0x0d
    } else {
        reported
    }
}

/// A letter, given what Unicode says of the character. Within ASCII it is
/// `a-z` and `A-Z`, whatever was reported; beyond ASCII it is what was
/// reported.
pub open spec fn letter_given(c: char, reported: bool) -> bool {
    if is_ascii(c) {
        'a' <= c <= 'z' || 'A' <= c <= 'Z'
    } else {
        reported
    }
}

/// A letter or digit, given what Unicode says of the character. Within
/// ASCII it is `a-z`, `A-Z` and `0-9`, whatever was reported; beyond ASCII
/// it is what was reported.
pub open spec fn word_given(c: char, reported: bool) -> bool {
    if is_ascii(c) {
        'a' <= c <= 'z' || 'A' <= c <= 'Z' || is_digit(c)
    } else {
        reported
    }
}

/// White space between tokens.
pub open spec fn is_space(c: char) -> bool {
    space_given(c, unicode_whitespace(c))
}

/// A character that may start an identifier.
pub open spec fn is_letter(c: char) -> bool {
    letter_given(c, unicode_alphabetic(c))
}

/// A character that may continue an identifier.
pub open spec fn is_word(c: char) -> bool {
    word_given(c, unicode_alphanumeric(c))
}

/// Number of bytes in the UTF-8 encoding of a character.
pub open spec fn utf8_width(c: char) -> nat {
    encode_scalar(c as u32).len()
}

/// Byte offset of the character at index `i`: the length of the UTF-8
/// encoding of the first `i` characters.
pub open spec fn byte_offset(src: Seq<char>, i: int) -> nat {
    encode_utf8(src.take(i)).len()
}

/// Whether the character is a decimal digit.
pub fn is_digit_char(c: char) -> (b: bool)
    ensures
        b == is_digit(c),
{
    '0' <= c && c <= '9'
}

/// Whether the character is white space, given what Unicode says of it.
pub fn space_from(c: char, reported: bool) -> (b: bool)
    ensures
        b == space_given(c, reported),
{
    if (c as u32) < 0x80 {
        c == ' ' || (0x09 <= (c as u32) && (c as u32) <= 0x0d)
    } else {
        reported
    }
}

/// Whether the character is a letter, given what Unicode says of it.
pub fn letter_from(c: char, reported: bool) -> (b: bool)
    ensures
        b == letter_given(c, reported),
{
    if (c as u32) < 0x80 {
        ('a' <= c && c <= 'z') || ('A' <= c && c <= 'Z')
    } else {
        reported
    }
}

/// Whether the character is a letter or digit, given what Unicode says of it.
pub fn word_from(c: char, reported: bool) -> (b: bool)
    ensures
        b == word_given(c, reported),
{
    if (c as u32) < 0x80 {
        ('a' <= c && c <= 'z') || ('A' <= c && c <= 'Z') || ('0' <= c && c <= '9')
    } else {
        reported
    }
}

/// Whether the character is white space.
pub fn is_space_char(c: char) -> (b: bool)
    ensures
        b == is_space(c),
{
    space_from(c, c.is_whitespace())
}

/// Whether the character may start an identifier.
pub fn is_letter_char(c: char) -> (b: bool)
    ensures
        b == is_letter(c),
{
    letter_from(c, c.is_alphabetic())
}

/// Whether the character may continue an identifier.
pub fn is_word_char(c: char) -> (b: bool)
    ensures
        b == is_word(c),
{
    word_from(c, c.is_alphanumeric())
}

/// Number of bytes the character takes in UTF-8.
pub fn len_utf8(c: char) -> (n: usize)
    ensures
        n == utf8_width(c),
        1 <= n <= 4,
{
    let v: u32 = c as u32;
    if v < 0x80 {
        1
    } else if v < 0x800 {
        2
    } else if v < 0x10000 {
        3
    } else {
        4
    }
}

/// The value of a decimal digit.
pub fn digit_of(c: char) -> (d: i32)
    requires
        is_digit(c),
    ensures
        d == digit_value(c),
        0 <= d <= 9,
{
    ((c as u32) - ('0' as u32)) as i32
}

/// Encoding a text in two parts gives the two encodings one after the other.
pub proof fn lemma_encode_concat(a: Seq<char>, b: Seq<char>)
    ensures
        encode_utf8(a + b) == encode_utf8(a) + encode_utf8(b),
    decreases a.len(),
{
    if a.len() == 0 {
        assert(a + b == b);
        assert(encode_utf8(a) == Seq::<u8>::empty());
        assert(encode_utf8(a) + encode_utf8(b) == encode_utf8(b));
    } else {
        lemma_encode_concat(a.drop_first(), b);
        assert((a + b).drop_first() == a.drop_first() + b);
        assert((a + b)[0] == a[0]);
        assert(encode_utf8(a + b) == encode_scalar(a[0] as u32) + (encode_utf8(a.drop_first())
            + encode_utf8(b)));
        assert(encode_utf8(a) == encode_scalar(a[0] as u32) + encode_utf8(a.drop_first()));
    }
}

/// Each character moves the byte offset on by its own width.
pub proof fn lemma_byte_offset_step(src: Seq<char>, i: int)
    requires
        0 <= i < src.len(),
    ensures
        byte_offset(src, i + 1) == byte_offset(src, i) + utf8_width(src[i]),
        1 <= utf8_width(src[i]) <= 4,
{
    let a = src.take(i);
    let b = seq![src[i]];
    assert(src.take(i + 1) == a + b);
    lemma_encode_concat(a, b);
    assert(b.drop_first() == Seq::<char>::empty());
    assert(encode_utf8(b.drop_first()) == Seq::<u8>::empty());
    assert(encode_utf8(b) == encode_scalar(src[i] as u32) + Seq::<u8>::empty());
}

/// Byte offsets grow with the character index.
pub proof fn lemma_byte_offset_monotonic(src: Seq<char>, i: int, j: int)
    requires
        0 <= i <= j <= src.len(),
    ensures
        byte_offset(src, i) + (j - i) <= byte_offset(src, j),
    decreases j - i,
{
    if i < j {
        lemma_byte_offset_monotonic(src, i, j - 1);
        lemma_byte_offset_step(src, j - 1);
    }
}

/// The first character stands at byte 0, and the end of the text at the
/// length of its encoding.
pub proof fn lemma_byte_offset_ends(src: Seq<char>)
    ensures
        byte_offset(src, 0) == 0,
        byte_offset(src, src.len() as int) == encode_utf8(src).len(),
{
    assert(src.take(0) == Seq::<char>::empty());
    assert(src.take(src.len() as int) == src);
}

} // verus!
