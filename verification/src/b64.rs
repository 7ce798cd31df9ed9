//! URL-safe base64 without padding: the exact encoding as a specification,
//! and trusted wrappers over the base64 crate's engine.

use base64::Engine;
use vstd::prelude::*;
use crate::text::{plain_byte, plain_bytes};

verus! {

/// The URL-safe base64 alphabet: the byte standing for a six-bit value.
pub open spec fn b64_digit(v: int) -> u8 {
    if v < 26 {
        (0x41 + v) as u8  // 'A'..'Z'
    } else if v < 52 {
        (0x61 + (v - 26)) as u8  // 'a'..'z'
    } else if v < 62 {
        (0x30 + (v - 52)) as u8  // '0'..'9'
    } else if v == 62 {
        0x2d  // '-'
    } else {
        0x5f  // '_'
    }
}

/// The URL-safe base64 encoding of a byte sequence, without padding:
/// groups of three bytes become four digits; a tail of one or two bytes
/// becomes two or three digits.
pub open spec fn b64_bytes(s: Seq<u8>) -> Seq<u8>
    decreases s.len(),
{
    if s.len() == 0 {
        Seq::<u8>::empty()
    } else if s.len() == 1 {
        seq![b64_digit(s[0] as int / 4), b64_digit((s[0] % 4) * 16)]
    } else if s.len() == 2 {
        seq![
            b64_digit(s[0] as int / 4),
            b64_digit((s[0] % 4) * 16 + s[1] / 16),
            b64_digit((s[1] % 16) * 4),
        ]
    } else {
        seq![
            b64_digit(s[0] as int / 4),
            b64_digit((s[0] % 4) * 16 + s[1] / 16),
            b64_digit((s[1] % 16) * 4 + s[2] / 64),
            b64_digit(s[2] as int % 64),
        ] + b64_bytes(s.skip(3))
    }
}

/// A base64 encoding consists of plain bytes only.
pub proof fn lemma_b64_plain(s: Seq<u8>)
    ensures
        plain_bytes(b64_bytes(s)),
    decreases s.len(),
{
    if s.len() == 0 {
    } else if s.len() <= 2 {
        assert forall|i: int| 0 <= i < b64_bytes(s).len() implies plain_byte(
            #[trigger] b64_bytes(s)[i],
        ) by {
            assert(0 <= s[0] as int / 4 < 64);
            if s.len() == 2 {
                assert(0 <= (s[0] % 4) * 16 + s[1] / 16 < 64);
                assert(0 <= (s[1] % 16) * 4 < 64);
            } else {
                assert(0 <= (s[0] % 4) * 16 < 64);
            }
        }
    } else {
        lemma_b64_plain(s.skip(3));
        assert forall|i: int| 0 <= i < b64_bytes(s).len() implies plain_byte(
            #[trigger] b64_bytes(s)[i],
        ) by {
            assert(0 <= s[0] as int / 4 < 64);
            assert(0 <= (s[0] % 4) * 16 + s[1] / 16 < 64);
            assert(0 <= (s[1] % 16) * 4 + s[2] / 64 < 64);
            assert(0 <= s[2] as int % 64 < 64);
            if i >= 4 {
                assert(b64_bytes(s)[i] == b64_bytes(s.skip(3))[i - 4]);
            }
        }
    }
}

/// Relies on the base64 crate's `URL_SAFE_NO_PAD` engine: RFC 4648 URL-safe
/// encoding without padding, exactly `b64_bytes` of the input.
#[verifier::external_body]
pub fn b64_encode(b: &[u8]) -> (r: Vec<u8>)
    ensures
        r@ == b64_bytes(b@),
{
    base64::engine::general_purpose::URL_SAFE_NO_PAD.encode(b).into_bytes()
}

/// Relies on the base64 crate's `URL_SAFE_NO_PAD` engine: decoding rejects
/// padding and non-canonical trailing bits, so it succeeds exactly on
/// canonical encodings and returns the bytes that encode to the input.
#[verifier::external_body]
pub fn b64_decode(b: &[u8]) -> (r: Option<Vec<u8>>)
    ensures
        r is Some ==> b@ == b64_bytes(r->0@),
        forall|x: Seq<u8>| b@ == b64_bytes(x) ==> r is Some && r->0@ == x,
{
    base64::engine::general_purpose::URL_SAFE_NO_PAD.decode(b).ok()
}

} // verus!

verus! {

/// The length of an encoding: four digits per three bytes, two or three
/// digits for a tail of one or two bytes.
pub proof fn lemma_b64_len(s: Seq<u8>)
    ensures
        s.len() % 3 == 0 ==> b64_bytes(s).len() == 4 * (s.len() / 3),
        s.len() % 3 == 1 ==> b64_bytes(s).len() == 4 * (s.len() / 3) + 2,
        s.len() % 3 == 2 ==> b64_bytes(s).len() == 4 * (s.len() / 3) + 3,
    decreases s.len(),
{
    if s.len() >= 3 {
        lemma_b64_len(s.skip(3));
    }
}

/// Distinct six-bit values get distinct digits.
proof fn lemma_b64_digit_inj(v1: int, v2: int)
    requires
        0 <= v1 < 64,
        0 <= v2 < 64,
        b64_digit(v1) == b64_digit(v2),
    ensures
        v1 == v2,
{
}

/// Two byte sequences with the same encoding are the same: the encoding is
/// injective.
pub proof fn lemma_b64_inj(s1: Seq<u8>, s2: Seq<u8>)
    requires
        b64_bytes(s1) == b64_bytes(s2),
    ensures
        s1 == s2,
    decreases s1.len(),
{
    lemma_b64_len(s1);
    lemma_b64_len(s2);
    let e = b64_bytes(s1);
    if s1.len() == 0 {
        assert(s2.len() == 0);
        assert(s1 =~= s2);
    } else if s1.len() == 1 {
        assert(s2.len() == 1);
        lemma_b64_digit_inj(s1[0] as int / 4, s2[0] as int / 4);
        lemma_b64_digit_inj((s1[0] % 4) as int * 16, (s2[0] % 4) as int * 16);
        assert(s1[0] == s2[0]) by (nonlinear_arith)
            requires
                s1[0] as int / 4 == s2[0] as int / 4,
                s1[0] % 4 == s2[0] % 4,
        ;
        assert(s1 =~= s2);
    } else if s1.len() == 2 {
        assert(s2.len() == 2);
        lemma_b64_digit_inj(s1[0] as int / 4, s2[0] as int / 4);
        lemma_b64_digit_inj(
            (s1[0] % 4) as int * 16 + s1[1] as int / 16,
            (s2[0] % 4) as int * 16 + s2[1] as int / 16,
        );
        lemma_b64_digit_inj((s1[1] % 16) as int * 4, (s2[1] % 16) as int * 4);
        assert((s1[1] % 16) == (s2[1] % 16));
        assert((s1[0] % 4) as int * 16 + s1[1] as int / 16 < 64);
        assert(s1[0] % 4 == s2[0] % 4 && s1[1] as int / 16 == s2[1] as int / 16)
            by (nonlinear_arith)
            requires
                (s1[0] % 4) as int * 16 + s1[1] as int / 16 == (s2[0] % 4) as int * 16
                    + s2[1] as int / 16,
                0 <= s1[1] as int / 16 < 16,
                0 <= s2[1] as int / 16 < 16,
        ;
        assert(s1[0] == s2[0] && s1[1] == s2[1]) by (nonlinear_arith)
            requires
                s1[0] as int / 4 == s2[0] as int / 4,
                s1[0] % 4 == s2[0] % 4,
                s1[1] as int / 16 == s2[1] as int / 16,
                s1[1] % 16 == s2[1] % 16,
        ;
        assert(s1 =~= s2);
    } else {
        assert(s2.len() >= 3) by {
            if s2.len() == 0 || s2.len() == 1 || s2.len() == 2 {
                assert(e.len() <= 3);
                assert(e.len() >= 4);
            }
        }
        assert(e[0] == b64_digit(s1[0] as int / 4) && e[1] == b64_digit(
            (s1[0] % 4) as int * 16 + s1[1] as int / 16,
        ) && e[2] == b64_digit((s1[1] % 16) as int * 4 + s1[2] as int / 64) && e[3] == b64_digit(
            s1[2] as int % 64,
        ));
        assert(e[0] == b64_digit(s2[0] as int / 4) && e[1] == b64_digit(
            (s2[0] % 4) as int * 16 + s2[1] as int / 16,
        ) && e[2] == b64_digit((s2[1] % 16) as int * 4 + s2[2] as int / 64) && e[3] == b64_digit(
            s2[2] as int % 64,
        ));
        lemma_b64_digit_inj(s1[0] as int / 4, s2[0] as int / 4);
        lemma_b64_digit_inj(
            (s1[0] % 4) as int * 16 + s1[1] as int / 16,
            (s2[0] % 4) as int * 16 + s2[1] as int / 16,
        );
        lemma_b64_digit_inj(
            (s1[1] % 16) as int * 4 + s1[2] as int / 64,
            (s2[1] % 16) as int * 4 + s2[2] as int / 64,
        );
        lemma_b64_digit_inj(s1[2] as int % 64, s2[2] as int % 64);
        assert(s1[0] % 4 == s2[0] % 4 && s1[1] as int / 16 == s2[1] as int / 16)
            by (nonlinear_arith)
            requires
                (s1[0] % 4) as int * 16 + s1[1] as int / 16 == (s2[0] % 4) as int * 16
                    + s2[1] as int / 16,
                0 <= s1[1] as int / 16 < 16,
                0 <= s2[1] as int / 16 < 16,
        ;
        assert(s1[1] % 16 == s2[1] % 16 && s1[2] as int / 64 == s2[2] as int / 64)
            by (nonlinear_arith)
            requires
                (s1[1] % 16) as int * 4 + s1[2] as int / 64 == (s2[1] % 16) as int * 4
                    + s2[2] as int / 64,
                0 <= s1[2] as int / 64 < 4,
                0 <= s2[2] as int / 64 < 4,
        ;
        assert(s1[0] == s2[0] && s1[1] == s2[1] && s1[2] == s2[2]) by (nonlinear_arith)
            requires
                s1[0] as int / 4 == s2[0] as int / 4,
                s1[0] % 4 == s2[0] % 4,
                s1[1] as int / 16 == s2[1] as int / 16,
                s1[1] % 16 == s2[1] % 16,
                s1[2] as int / 64 == s2[2] as int / 64,
                s1[2] as int % 64 == s2[2] as int % 64,
        ;
        assert(b64_bytes(s1.skip(3)) =~= b64_bytes(s2.skip(3))) by {
            assert(forall|i: int|
                0 <= i < b64_bytes(s1.skip(3)).len() ==> b64_bytes(s1.skip(3))[i] == e[i + 4]
                    && #[trigger] b64_bytes(s2.skip(3))[i] == e[i + 4]);
        }
        lemma_b64_inj(s1.skip(3), s2.skip(3));
        assert(s1.len() == s2.len());
        assert forall|i: int| 0 <= i < s1.len() implies s1[i] == s2[i] by {
            if i >= 3 {
                assert(s1[i] == s1.skip(3)[i - 3]);
                assert(s2[i] == s2.skip(3)[i - 3]);
            }
        }
        assert(s1 =~= s2);
    }
}

} // verus!
