//! Byte predicates for the token record, the bridge from ASCII bytes back to
//! characters, and the trusted string conversions the library relies on.

use vstd::prelude::*;
use vstd::utf8::{
    decode_utf8, encode_utf8, encode_utf8_decode_utf8, encode_utf8_valid_utf8, is_ascii_chars,
    is_ascii_chars_encode_utf8, valid_utf8,
};

verus! {

/// A byte that may appear verbatim inside a quoted segment of the token
/// record: printable ASCII except the quote and the backslash.
pub open spec fn plain_byte(b: u8) -> bool {
    0x20 <= b < 0x7f && b != 0x22 && b != 0x5c
}

/// Every byte of the sequence is plain.
pub open spec fn plain_bytes(s: Seq<u8>) -> bool {
    forall|i: int| 0 <= i < s.len() ==> plain_byte(#[trigger] s[i])
}

/// The characters of an all-ASCII byte sequence, one character per byte.
pub open spec fn bytes_chars(b: Seq<u8>) -> Seq<char> {
    Seq::new(b.len(), |i: int| b[i] as char)
}

/// A sequence of bytes below `0x80` is valid UTF-8 and decodes to one
/// character per byte.
pub proof fn lemma_ascii_bytes_chars(b: Seq<u8>)
    requires
        forall|i: int| 0 <= i < b.len() ==> #[trigger] b[i] < 0x80,
    ensures
        is_ascii_chars(bytes_chars(b)),
        encode_utf8(bytes_chars(b)) == b,
        valid_utf8(b),
        decode_utf8(b) == bytes_chars(b),
{
    let s = bytes_chars(b);
    assert forall|i: int| 0 <= i < s.len() implies '\0' <= #[trigger] s[i] <= '\u{7f}' by {
        assert(s[i] == b[i] as char);
        assert(s[i] as u32 == b[i]);
    }
    assert(is_ascii_chars(s));
    is_ascii_chars_encode_utf8(s);
    assert forall|i: int| 0 <= i < s.len() implies #[trigger] encode_utf8(s)[i] == b[i] by {
        assert(s[i] as u32 == b[i]);
        assert(s[i] as u8 == b[i]);
    }
    assert(encode_utf8(s) =~= b);
    encode_utf8_valid_utf8(s);
    encode_utf8_decode_utf8(s);
}

/// What `str::to_lowercase` returns: a function of the characters alone.
pub uninterp spec fn lower_of(s: Seq<char>) -> Seq<char>;

/// The ASCII lowercase of a character: the letters `A` to `Z` map down,
/// every other ASCII character stays itself.
pub open spec fn ascii_lower_char(c: char) -> char {
    if 'A' <= c <= 'Z' {
        ((c as u8) + 0x20) as char
    } else {
        c
    }
}

/// The ASCII lowercase of a character sequence, character by character.
pub open spec fn ascii_lower(s: Seq<char>) -> Seq<char> {
    Seq::new(s.len(), |i: int| ascii_lower_char(s[i]))
}

/// Relies on `str::to_lowercase`: the result depends on the input characters
/// alone, so it is named by `lower_of`; on ASCII input it lowers each
/// character in place.
#[verifier::external_body]
pub fn lowercase(s: &str) -> (r: String)
    ensures
        r@ == lower_of(s@),
        is_ascii_chars(s@) ==> r@ == ascii_lower(s@),
{
    s.to_lowercase()
}

/// What `char::is_whitespace` returns: the Unicode white-space property, a
/// function of the character alone.
pub uninterp spec fn white_space(c: char) -> bool;

/// Relies on `char::is_whitespace`: the Unicode `White_Space` property,
/// named by `white_space`.
#[verifier::external_body]
pub fn is_whitespace_char(c: char) -> (r: bool)
    ensures
        r == white_space(c),
{
    c.is_whitespace()
}

/// Relies on `String::from_utf8`: it succeeds exactly on valid UTF-8 input
/// and returns the string those bytes encode.
#[verifier::external_body]
pub fn string_from_utf8(v: Vec<u8>) -> (r: Option<String>)
    ensures
        r is Some <==> valid_utf8(v@),
        r matches Some(s) ==> s@ == decode_utf8(v@),
{
    String::from_utf8(v).ok()
}

} // verus!
