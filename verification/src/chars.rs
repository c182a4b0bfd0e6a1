//! Character classes of the lexical grammar, and the UTF-8 widths by which
//! character positions are turned into byte offsets.

use unicode_xid::UnicodeXID;
use vstd::prelude::*;
use vstd::utf8::{encode_scalar, encode_utf8};

verus! {

/// Whether `c` has the Unicode property `XID_Start`.
pub uninterp spec fn xid_start(c: char) -> bool;

/// Whether `c` has the Unicode property `XID_Continue`.
pub uninterp spec fn xid_continue(c: char) -> bool;

/// Whether `c` has the Unicode property `White_Space`.
pub uninterp spec fn white_space(c: char) -> bool;

/// A character of ASCII.
pub open spec fn is_ascii(c: char) -> bool {
    c <= '\u{7f}'
}

/// A letter of ASCII.
pub open spec fn is_letter(c: char) -> bool {
    ('a' <= c && c <= 'z') || ('A' <= c && c <= 'Z')
}

/// A decimal digit, `0` to `9`.
pub open spec fn is_digit(c: char) -> bool {
    '0' <= c && c <= '9'
}

/// A character that may begin an identifier or keyword: in ASCII a letter
/// or the underscore, and beyond ASCII a character with the property
/// `XID_Start`.
pub open spec fn is_ident_start(c: char) -> bool {
    if is_ascii(c) {
        is_letter(c) || c == '_'
    } else {
        xid_start(c)
    }
}

/// A character that may continue an identifier or keyword: in ASCII a
/// letter, a digit or the underscore, and beyond ASCII a character with the
/// property `XID_Continue`.
pub open spec fn is_ident_continue(c: char) -> bool {
    if is_ascii(c) {
        is_letter(c) || is_digit(c) || c == '_'
    } else {
        xid_continue(c)
    }
}

/// A character that is skipped between tokens: in ASCII the space and the
/// five controls from the tabulator to the carriage return, among them the
/// line feed, and beyond ASCII a character with the property `White_Space`.
pub open spec fn is_blank(c: char) -> bool {
    if is_ascii(c) {
        c == ' ' || ('\t' <= c && c <= '\r')
    } else {
        white_space(c)
    }
}

/// `unicode_xid::UnicodeXID::is_xid_start` for `char`: whether `c` has the
/// `XID_Start` property, which the crate looks up in its table.
#[verifier::external_body]
fn xid_start_of(c: char) -> (b: bool)
    ensures
        b == xid_start(c),
{
    UnicodeXID::is_xid_start(c)
}

/// `unicode_xid::UnicodeXID::is_xid_continue` for `char`: whether `c` has
/// the `XID_Continue` property, which the crate looks up in its table.
#[verifier::external_body]
fn xid_continue_of(c: char) -> (b: bool)
    ensures
        b == xid_continue(c),
{
    UnicodeXID::is_xid_continue(c)
}

/// `char::is_whitespace` of std: whether `c` has the `White_Space` property.
#[verifier::external_body]
fn white_space_of(c: char) -> (b: bool)
    ensures
        b == white_space(c),
{
    c.is_whitespace()
}

/// Whether `c` is a letter of ASCII.
pub fn letter(c: char) -> (b: bool)
    ensures
        b == is_letter(c),
{
    ('a' <= c && c <= 'z') || ('A' <= c && c <= 'Z')
}

/// Whether `c` is a decimal digit.
pub fn digit(c: char) -> (b: bool)
    ensures
        b == is_digit(c),
{
    '0' <= c && c <= '9'
}

/// Whether `c` may begin an identifier or keyword.
pub fn ident_start(c: char) -> (b: bool)
    ensures
        b == is_ident_start(c),
{
    if c <= '\u{7f}' {
        letter(c) || c == '_'
    } else {
        xid_start_of(c)
    }
}

/// Whether `c` may continue an identifier or keyword.
pub fn ident_continue(c: char) -> (b: bool)
    ensures
        b == is_ident_continue(c),
{
    if c <= '\u{7f}' {
        letter(c) || digit(c) || c == '_'
    } else {
        xid_continue_of(c)
    }
}

/// Whether `c` is skipped between tokens.
pub fn blank(c: char) -> (b: bool)
    ensures
        b == is_blank(c),
{
    if c <= '\u{7f}' {
        c == ' ' || ('\t' <= c && c <= '\r')
    } else {
        white_space_of(c)
    }
}

/// The number of bytes that `c` takes in UTF-8.
pub open spec fn utf8_width(c: char) -> nat {
    if c <= '\u{7f}' {
        1
    } else if c <= '\u{7ff}' {
        2
    } else if c <= '\u{ffff}' {
        3
    } else {
        4
    }
}

/// The number of bytes that the characters of `s` take in UTF-8.
pub open spec fn utf8_len(s: Seq<char>) -> nat
    decreases s.len(),
{
    if s.len() == 0 {
        0
    } else {
        utf8_len(s.drop_last()) + utf8_width(s.last())
    }
}

/// The number of bytes that `c` takes in UTF-8.
pub fn width(c: char) -> (w: usize)
    ensures
        w == utf8_width(c),
        1 <= w <= 4,
{
    if c <= '\u{7f}' {
        1
    } else if c <= '\u{7ff}' {
        2
    } else if c <= '\u{ffff}' {
        3
    } else {
        4
    }
}

/// The width of a character is the length of its UTF-8 encoding.
pub proof fn lemma_width_is_encoding(c: char)
    ensures
        utf8_width(c) == encode_scalar(c as u32).len(),
{
}

/// Lengths add up over concatenation.
pub proof fn lemma_utf8_len_concat(a: Seq<char>, b: Seq<char>)
    ensures
        utf8_len(a + b) == utf8_len(a) + utf8_len(b),
    decreases b.len(),
{
    if b.len() == 0 {
        assert(a + b =~= a);
    } else {
        assert((a + b).drop_last() =~= a + b.drop_last());
        lemma_utf8_len_concat(a, b.drop_last());
    }
}

/// `utf8_len` is the length of the UTF-8 encoding of the text.
pub proof fn lemma_utf8_len_is_encoding(s: Seq<char>)
    ensures
        utf8_len(s) == encode_utf8(s).len(),
    decreases s.len(),
{
    if s.len() > 0 {
        let head = s.take(1);
        let tail = s.drop_first();
        assert(s =~= head + tail);
        lemma_utf8_len_concat(head, tail);
        lemma_utf8_len_is_encoding(tail);
        lemma_width_is_encoding(s[0]);
        assert(head.drop_last() =~= Seq::<char>::empty());
        assert(utf8_len(head.drop_last()) == 0);
        assert(head.last() == s[0]);
    }
}

/// A prefix of a text is no longer than the text.
pub proof fn lemma_utf8_len_prefix(s: Seq<char>, i: int, j: int)
    requires
        0 <= i <= j <= s.len(),
    ensures
        utf8_len(s.take(i)) <= utf8_len(s.take(j)),
        utf8_len(s.take(j)) == utf8_len(s.take(i)) + utf8_len(s.subrange(i, j)),
        i < j ==> utf8_len(s.take(i)) < utf8_len(s.take(j)),
{
    assert(s.take(j) =~= s.take(i) + s.subrange(i, j));
    lemma_utf8_len_concat(s.take(i), s.subrange(i, j));
    if i < j {
        let t = s.subrange(i, j);
        assert(utf8_len(t) == utf8_len(t.drop_last()) + utf8_width(t.last()));
    }
}

/// The encoding of a concatenation is the concatenation of the encodings.
pub proof fn lemma_encode_concat(a: Seq<char>, b: Seq<char>)
    ensures
        encode_utf8(a + b) == encode_utf8(a) + encode_utf8(b),
    decreases a.len(),
{
    if a.len() == 0 {
        assert(a + b =~= b);
        assert(encode_utf8(a) + encode_utf8(b) =~= encode_utf8(b));
    } else {
        assert((a + b).drop_first() =~= a.drop_first() + b);
        lemma_encode_concat(a.drop_first(), b);
        assert(encode_utf8(a + b) =~= encode_utf8(a) + encode_utf8(b));
    }
}

/// The bytes of a text between the byte offsets of two character positions
/// are the encoding of the characters between the two positions.
pub proof fn lemma_bytes_between(s: Seq<char>, i: int, j: int)
    requires
        0 <= i <= j <= s.len(),
    ensures
        utf8_len(s.take(i)) <= utf8_len(s.take(j)) <= encode_utf8(s).len(),
        encode_utf8(s).subrange(utf8_len(s.take(i)) as int, utf8_len(s.take(j)) as int)
            == encode_utf8(s.subrange(i, j)),
{
    let a = s.take(i);
    let b = s.subrange(i, j);
    let c = s.skip(j);
    assert(s =~= (a + b) + c);
    assert(s.take(j) =~= a + b);
    lemma_encode_concat(a + b, c);
    lemma_encode_concat(a, b);
    lemma_utf8_len_is_encoding(a);
    lemma_utf8_len_is_encoding(a + b);
    lemma_utf8_len_is_encoding(b);
    assert(encode_utf8(s).subrange(encode_utf8(a).len() as int, encode_utf8(a + b).len() as int)
        =~= encode_utf8(b));
}

} // verus!
