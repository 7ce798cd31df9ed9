//! The token record: a canonical, fixed-schema serialization of the identity
//! token's fields, with a verified encoder and a strict verified parser.
//!
//! The record is a JSON object with fixed field names in a fixed order. The
//! encoder produces exactly `record_bytes` of the token; the parser accepts
//! exactly the encoder's images and rejects everything else, so the two sides
//! round-trip by construction.

use vstd::prelude::*;
use crate::b64::{b64_bytes, b64_decode, b64_encode, lemma_b64_plain};
use crate::decimal::{
    canonical_digits, dec_of, dec_val, is_digit, lemma_dec_of_dec_val, lemma_dec_of_props,
    lemma_dec_val_take_le, push_dec,
};
use crate::text::{plain_byte, plain_bytes, string_from_utf8};
use vstd::slice::slice_subrange;

verus! {

/// The mathematical content of an identity token.
pub ghost struct TokenSpec {
    /// The authenticated principal, lower-cased.
    pub email: Seq<char>,
    /// One-way fingerprint of the email, as lowercase hexadecimal text.
    pub email_hash: Seq<char>,
    /// Per-token random value; makes tokens for one email distinct.
    pub token: Seq<u8>,
    /// Expiry as a Unix timestamp in seconds.
    pub expires_at: u64,
    /// Whether the click-through promotion step has happened.
    pub verified: bool,
}

/// How the record carries a text field: the URL-safe base64 of its UTF-8
/// bytes, so that any string can be carried exactly.
pub open spec fn text_field(s: Seq<char>) -> Seq<u8> {
    b64_bytes(vstd::utf8::encode_utf8(s))
}

/// `{"email":"`
#[verifier::opaque]
pub open spec fn lit_email() -> Seq<u8> {
    seq![123u8, 34, 101, 109, 97, 105, 108, 34, 58, 34]
}

/// `","email_hash":"`
#[verifier::opaque]
pub open spec fn lit_email_hash() -> Seq<u8> {
    seq![34u8, 44, 34, 101, 109, 97, 105, 108, 95, 104, 97, 115, 104, 34, 58, 34]
}

/// `","token":"`
#[verifier::opaque]
pub open spec fn lit_token() -> Seq<u8> {
    seq![34u8, 44, 34, 116, 111, 107, 101, 110, 34, 58, 34]
}

/// `","expires_at":`
#[verifier::opaque]
pub open spec fn lit_expires_at() -> Seq<u8> {
    seq![34u8, 44, 34, 101, 120, 112, 105, 114, 101, 115, 95, 97, 116, 34, 58]
}

/// `,"verified":`
#[verifier::opaque]
pub open spec fn lit_verified() -> Seq<u8> {
    seq![44u8, 34, 118, 101, 114, 105, 102, 105, 101, 100, 34, 58]
}

/// `true`
#[verifier::opaque]
pub open spec fn lit_true() -> Seq<u8> {
    seq![116u8, 114, 117, 101]
}

/// `false`
#[verifier::opaque]
pub open spec fn lit_false() -> Seq<u8> {
    seq![102u8, 97, 108, 115, 101]
}

/// `}`
#[verifier::opaque]
pub open spec fn lit_close() -> Seq<u8> {
    seq![125u8]
}

/// The record's text fields: everything up to (but not including) the quote
/// that opens the `expires_at` literal.
#[verifier::opaque]
pub open spec fn head_bytes(e: Seq<char>, h: Seq<char>, tk: Seq<u8>) -> Seq<u8> {
    lit_email() + text_field(e) + lit_email_hash() + text_field(h) + lit_token() + b64_bytes(tk)
}

/// The record's numeric and boolean fields, from the `expires_at` literal on.
#[verifier::opaque]
pub open spec fn tail_bytes(expires_at: u64, verified: bool) -> Seq<u8> {
    lit_expires_at() + dec_of(expires_at as nat) + lit_verified() + (if verified {
        lit_true()
    } else {
        lit_false()
    }) + lit_close()
}

/// The canonical record for a token.
#[verifier::opaque]
pub open spec fn record_bytes(t: TokenSpec) -> Seq<u8> {
    head_bytes(t.email, t.email_hash, t.token) + tail_bytes(t.expires_at, t.verified)
}

/// The token described by the parser's output parts.
pub open spec fn parts_token(p: (String, String, Vec<u8>, u64, bool)) -> TokenSpec {
    TokenSpec {
        email: p.0@,
        email_hash: p.1@,
        token: p.2@,
        expires_at: p.3,
        verified: p.4,
    }
}

/// The facts about the fixed literals the parser needs without unfolding
/// them: their lengths and the first bytes it must tell apart.
proof fn lemma_lit_facts()
    ensures
        lit_email().len() == 10,
        lit_email_hash().len() == 16,
        lit_token().len() == 11,
        lit_expires_at().len() == 15,
        lit_verified().len() == 12,
        lit_true().len() == 4,
        lit_false().len() == 5,
        lit_close().len() == 1,
        lit_email_hash()[0] == 0x22,
        lit_token()[0] == 0x22,
        lit_expires_at()[0] == 0x22,
        lit_verified()[0] == 44,
        !is_digit(lit_verified()[0]),
        lit_true()[0] == 116,
        lit_false()[0] == 102,
{
    reveal(lit_email);
    reveal(lit_email_hash);
    reveal(lit_token);
    reveal(lit_expires_at);
    reveal(lit_verified);
    reveal(lit_true);
    reveal(lit_false);
    reveal(lit_close);
}

fn lit_email_vec() -> (r: Vec<u8>)
    ensures
        r@ == lit_email(),
        r@.len() == 10,
{
    let v: Vec<u8> = vec![123u8, 34, 101, 109, 97, 105, 108, 34, 58, 34];
    proof {
        reveal(lit_email);
        assert(v@ =~= lit_email());
    }
    v
}

fn lit_email_hash_vec() -> (r: Vec<u8>)
    ensures
        r@ == lit_email_hash(),
        r@.len() == 16,
{
    let v: Vec<u8> = vec![34u8, 44, 34, 101, 109, 97, 105, 108, 95, 104, 97, 115, 104, 34, 58, 34];
    proof {
        reveal(lit_email_hash);
        assert(v@ =~= lit_email_hash());
    }
    v
}

fn lit_token_vec() -> (r: Vec<u8>)
    ensures
        r@ == lit_token(),
        r@.len() == 11,
{
    let v: Vec<u8> = vec![34u8, 44, 34, 116, 111, 107, 101, 110, 34, 58, 34];
    proof {
        reveal(lit_token);
        assert(v@ =~= lit_token());
    }
    v
}

fn lit_expires_at_vec() -> (r: Vec<u8>)
    ensures
        r@ == lit_expires_at(),
        r@.len() == 15,
{
    let v: Vec<u8> = vec![34u8, 44, 34, 101, 120, 112, 105, 114, 101, 115, 95, 97, 116, 34, 58];
    proof {
        reveal(lit_expires_at);
        assert(v@ =~= lit_expires_at());
    }
    v
}

fn lit_verified_vec() -> (r: Vec<u8>)
    ensures
        r@ == lit_verified(),
        r@.len() == 12,
{
    let v: Vec<u8> = vec![44u8, 34, 118, 101, 114, 105, 102, 105, 101, 100, 34, 58];
    proof {
        reveal(lit_verified);
        assert(v@ =~= lit_verified());
    }
    v
}

fn lit_true_vec() -> (r: Vec<u8>)
    ensures
        r@ == lit_true(),
        r@.len() == 4,
{
    let v: Vec<u8> = vec![116u8, 114, 117, 101];
    proof {
        reveal(lit_true);
        assert(v@ =~= lit_true());
    }
    v
}

fn lit_false_vec() -> (r: Vec<u8>)
    ensures
        r@ == lit_false(),
        r@.len() == 5,
{
    let v: Vec<u8> = vec![102u8, 97, 108, 115, 101];
    proof {
        reveal(lit_false);
        assert(v@ =~= lit_false());
    }
    v
}

/// Encodes the token fields as the canonical record. Every value of every
/// field can be carried.
pub fn encode_record(
    email: &str,
    email_hash: &str,
    token: &[u8],
    expires_at: u64,
    verified: bool,
) -> (r: Vec<u8>)
    ensures
        r@ == record_bytes(
            TokenSpec {
                email: email@,
                email_hash: email_hash@,
                token: token@,
                expires_at,
                verified,
            },
        ),
{
    let ghost t = TokenSpec {
        email: email@,
        email_hash: email_hash@,
        token: token@,
        expires_at,
        verified,
    };
    let eb = b64_encode(email.as_bytes());
    let hb = b64_encode(email_hash.as_bytes());
    let mut out = lit_email_vec();
    out.extend_from_slice(eb.as_slice());
    let l2 = lit_email_hash_vec();
    out.extend_from_slice(l2.as_slice());
    out.extend_from_slice(hb.as_slice());
    let l3 = lit_token_vec();
    out.extend_from_slice(l3.as_slice());
    let tb = b64_encode(token);
    out.extend_from_slice(tb.as_slice());
    let l4 = lit_expires_at_vec();
    out.extend_from_slice(l4.as_slice());
    push_dec(&mut out, expires_at);
    let l5 = lit_verified_vec();
    out.extend_from_slice(l5.as_slice());
    if verified {
        let lt = lit_true_vec();
        out.extend_from_slice(lt.as_slice());
    } else {
        let lf = lit_false_vec();
        out.extend_from_slice(lf.as_slice());
    }
    let lc = lit_close_vec();
    out.extend_from_slice(lc.as_slice());
    proof {
        reveal(head_bytes);
        reveal(tail_bytes);
        reveal(record_bytes);
        assert(eb@ == text_field(email@));
        assert(hb@ == text_field(email_hash@));
        assert(out@ =~= record_bytes(t));
    }
    out
}

/// True exactly when `pat` occurs in `b` at position `pos`.
fn match_lit(b: &[u8], pos: usize, pat: &[u8]) -> (r: bool)
    requires
        pos <= b@.len(),
    ensures
        r <==> (pos + pat@.len() <= b@.len() && b@.subrange(
            pos as int,
            pos + pat@.len(),
        ) == pat@),
{
    let m = pat.len();
    let n = b.len();
    if n - pos < m {
        return false;
    }
    let mut i: usize = 0;
    while i < m
        invariant
            n == b@.len(),
            pos + m <= n,
            i <= m,
            m == pat@.len(),
            forall|j: int| 0 <= j < i ==> b@[pos + j] == pat@[j],
        decreases m - i,
    {
        if b[pos + i] != pat[i] {
            proof {
                assert(b@.subrange(pos as int, pos + m as int)[i as int] == b@[pos + i]);
            }
            return false;
        }
        i = i + 1;
    }
    proof {
        assert(b@.subrange(pos as int, pos + m as int) =~= pat@);
    }
    true
}

/// Finds the quote that closes the plain segment starting at `start`: the
/// first quote after `start`, provided every byte before it is plain.
fn scan_plain_segment(b: &[u8], start: usize) -> (r: Option<usize>)
    requires
        start <= b@.len(),
    ensures
        r matches Some(end) ==> start <= end < b@.len() && b@[end as int] == 0x22 && plain_bytes(
            b@.subrange(start as int, end as int),
        ),
        r is None ==> forall|e: int|
            start <= e < b@.len() && b@[e] == 0x22 ==> !plain_bytes(
                b@.subrange(start as int, e),
            ),
{
    let n = b.len();
    let mut i = start;
    while i < n
        invariant
            start <= i <= n,
            n == b@.len(),
            forall|j: int| start <= j < i ==> plain_byte(#[trigger] b@[j]),
        decreases n - i,
    {
        let x = b[i];
        if x == 0x22 {
            proof {
                assert forall|k: int|
                    0 <= k < b@.subrange(start as int, i as int).len() implies plain_byte(
                    #[trigger] b@.subrange(start as int, i as int)[k],
                ) by {
                    assert(b@.subrange(start as int, i as int)[k] == b@[start + k]);
                }
            }
            return Some(i);
        }
        if x < 0x20 || x >= 0x7f || x == 0x5c {
            proof {
                assert forall|e: int|
                    start <= e < b@.len() && b@[e] == 0x22 implies !plain_bytes(
                    b@.subrange(start as int, e),
                ) by {
                    assert(b@[i as int] == x && !plain_byte(x) && x != 0x22);
                    assert(e != i);
                    if e > i {
                        assert(b@.subrange(start as int, e)[i - start] == b@[i as int]);
                    }
                }
            }
            return None;
        }
        i = i + 1;
    }
    proof {
        assert forall|e: int|
            start <= e < b@.len() && b@[e] == 0x22 implies !plain_bytes(
            b@.subrange(start as int, e),
        ) by {
            assert(plain_byte(b@[e]));
        }
    }
    None
}

/// Reads a canonical decimal `u64` starting at `start`: a maximal digit run
/// with no leading zero and no overflow.
fn parse_dec_u64(b: &[u8], start: usize) -> (r: Option<(u64, usize)>)
    requires
        start <= b@.len(),
    ensures
        r matches Some(p) ==> start < p.1 <= b@.len() && b@.subrange(start as int, p.1 as int)
            == dec_of(p.0 as nat) && (p.1 == b@.len() || !is_digit(b@[p.1 as int])),
        forall|v: u64, e: int|
            #![trigger dec_of(v as nat), b@.subrange(start as int, e)]
            (start <= e <= b@.len() && b@.subrange(start as int, e) == dec_of(v as nat) && (e
                == b@.len() || !is_digit(b@[e]))) ==> (r matches Some(p) && p.0 == v && p.1 == e),
{
    let n = b.len();
    if start >= n {
        proof {
            assert forall|v: u64, e: int|
                (start <= e <= b@.len() && b@.subrange(start as int, e) == dec_of(v as nat) && (e
                    == b@.len() || !is_digit(b@[e]))) implies false by {
                lemma_dec_of_props(v as nat);
            }
        }
        return None;
    }
    let c0 = b[start];
    if c0 < 0x30 || c0 > 0x39 {
        proof {
            assert forall|v: u64, e: int|
                (start <= e <= b@.len() && b@.subrange(start as int, e) == dec_of(v as nat) && (e
                    == b@.len() || !is_digit(b@[e]))) implies false by {
                lemma_dec_of_props(v as nat);
                assert(b@.subrange(start as int, e)[0] == b@[start as int]);
            }
        }
        return None;
    }
    if c0 == 0x30 {
        if start + 1 < n && b[start + 1] >= 0x30 && b[start + 1] <= 0x39 {
            proof {
                assert forall|v: u64, e: int|
                    (start <= e <= b@.len() && b@.subrange(start as int, e) == dec_of(v as nat)
                        && (e == b@.len() || !is_digit(b@[e]))) implies false by {
                    lemma_dec_of_props(v as nat);
                    let s = b@.subrange(start as int, e);
                    assert(s[0] == b@[start as int]);
                    assert(s[0] == 0x30);
                    assert(s.len() == 1);
                    assert(e == start + 1);
                    assert(is_digit(b@[e]));
                }
            }
            return None;
        }
        proof {
            assert(b@.subrange(start as int, start + 1) =~= dec_of(0nat));
            assert forall|v: u64, e: int|
                (start <= e <= b@.len() && b@.subrange(start as int, e) == dec_of(v as nat) && (e
                    == b@.len() || !is_digit(b@[e]))) implies (v == 0 && e == start + 1) by {
                lemma_dec_of_props(v as nat);
                let s = b@.subrange(start as int, e);
                assert(s[0] == b@[start as int]);
                if s.len() > 1 {
                    assert(s[0] != 0x30);
                }
                assert(e == start + 1);
                assert(dec_val(dec_of(v as nat)) == v as nat);
                assert(s =~= dec_of(0nat));
                lemma_dec_of_props(0nat);
            }
        }
        return Some((0, start + 1));
    }
    let mut acc: u64 = (c0 - 0x30) as u64;
    let mut i = start + 1;
    proof {
        let s1 = b@.subrange(start as int, start + 1);
        assert(s1 =~= seq![c0]);
        assert(s1.drop_last() =~= Seq::<u8>::empty());
        assert(s1.last() == c0);
        assert(dec_val(s1) == dec_val(s1.drop_last()) * 10 + (c0 - 0x30));
        assert(dec_val(s1) == acc as nat);
    }
    while i < n && b[i] >= 0x30 && b[i] <= 0x39
        invariant
            start < i <= n,
            n == b@.len(),
            0x31 <= b@[start as int] <= 0x39,
            forall|j: int| start <= j < i ==> is_digit(#[trigger] b@[j]),
            acc as nat == dec_val(b@.subrange(start as int, i as int)),
        decreases n - i,
    {
        let d: u8 = b[i] - 0x30;
        let step = match acc.checked_mul(10) {
            Some(a) => a.checked_add(d as u64),
            None => None,
        };
        match step {
            Some(a2) => {
                proof {
                    let s_old = b@.subrange(start as int, i as int);
                    let s_new = b@.subrange(start as int, i + 1);
                    assert(s_new.drop_last() =~= s_old);
                    assert(s_new.last() == b@[i as int]);
                    assert(dec_val(s_new) == dec_val(s_old) * 10 + d);
                }
                acc = a2;
                i = i + 1;
            },
            None => {
                proof {
                    assert forall|v: u64, e: int|
                        (start <= e <= b@.len() && b@.subrange(start as int, e) == dec_of(
                            v as nat,
                        ) && (e == b@.len() || !is_digit(b@[e]))) implies false by {
                        lemma_dec_of_props(v as nat);
                        let s = b@.subrange(start as int, e);
                        // The digit run extends at least through position i, so the
                        // matched digits reach past i: e > i.
                        assert(is_digit(b@[i as int]));
                        if e <= i {
                            assert(e < b@.len() && is_digit(b@[e]));
                        }
                        assert(e > i);
                        // The value of the run's prefix through i+1 is what the
                        // checked step would have produced; it is bounded by v.
                        let pre = b@.subrange(start as int, i + 1);
                        assert(pre =~= s.take(i + 1 - start));
                        lemma_dec_val_take_le(s, i + 1 - start);
                        assert(dec_val(s) == v as nat);
                        assert(pre.drop_last() =~= b@.subrange(start as int, i as int));
                        assert(pre.last() == b@[i as int]);
                        assert(dec_val(pre) == acc as nat * 10 + d);
                        assert(acc as nat * 10 + d <= v as nat);
                        assert(v as nat <= u64::MAX as nat);
                    }
                }
                return None;
            },
        }
    }
    proof {
        let s = b@.subrange(start as int, i as int);
        assert(s[0] == b@[start as int]);
        assert(canonical_digits(s)) by {
            assert forall|k: int| 0 <= k < s.len() implies is_digit(#[trigger] s[k]) by {
                assert(s[k] == b@[start + k]);
            }
        }
        lemma_dec_of_dec_val(s);
        assert(dec_of(acc as nat) == s);
        assert forall|v: u64, e: int|
            (start <= e <= b@.len() && b@.subrange(start as int, e) == dec_of(v as nat) && (e
                == b@.len() || !is_digit(b@[e]))) implies (v == acc && e == i) by {
            lemma_dec_of_props(v as nat);
            let sv = b@.subrange(start as int, e);
            if e > i {
                assert(sv[i - start] == b@[i as int]);
                assert(is_digit(b@[i as int]));
                assert(i < n);
                assert(false);
            }
            if e < i {
                assert(e < b@.len());
                assert(is_digit(b@[e]));
                assert(false);
            }
            assert(e == i);
            assert(sv == s);
            assert(dec_val(dec_of(v as nat)) == v as nat);
            assert(dec_val(dec_of(acc as nat)) == acc as nat) by {
                lemma_dec_of_props(acc as nat);
            }
        }
    }
    Some((acc, i))
}

/// Where each piece of a token's record lies: the byte offsets of every
/// literal and field segment, and the facts about them the parser leans on.
#[verifier::rlimit(100)]
proof fn lemma_record_layout(t: TokenSpec)
    ensures
        ({
            let r = record_bytes(t);
            let e = text_field(t.email);
            let h = text_field(t.email_hash);
            let tk = b64_bytes(t.token);
            let d = dec_of(t.expires_at as nat);
            let tf = if t.verified {
                lit_true()
            } else {
                lit_false()
            };
            let p1 = 10int;
            let p2 = p1 + e.len();
            let p3 = p2 + 16;
            let p4 = p3 + h.len();
            let p5 = p4 + 11;
            let p6 = p5 + tk.len();
            let p7 = p6 + 15;
            let p8 = p7 + d.len();
            let p9 = p8 + 12;
            let p10 = p9 + tf.len();
            &&& r.len() == p10 + 1
            &&& r.subrange(0, p1) == lit_email()
            &&& r.subrange(p1, p2) == e
            &&& r.subrange(p2, p3) == lit_email_hash()
            &&& r.subrange(p3, p4) == h
            &&& r.subrange(p4, p5) == lit_token()
            &&& r.subrange(p5, p6) == tk
            &&& r.subrange(p6, p7) == lit_expires_at()
            &&& r.subrange(p7, p8) == d
            &&& r.subrange(p8, p9) == lit_verified()
            &&& r.subrange(p9, p10) == tf
            &&& r.subrange(p10, p10 + 1) == lit_close()
            &&& head_bytes(t.email, t.email_hash, t.token).len() == p6
            &&& plain_bytes(e)
            &&& plain_bytes(h)
            &&& plain_bytes(tk)
            &&& canonical_digits(d)
        }),
{
    reveal(lit_email);
    reveal(lit_email_hash);
    reveal(lit_token);
    reveal(lit_expires_at);
    reveal(lit_verified);
    reveal(lit_true);
    reveal(lit_false);
    reveal(lit_close);
    reveal(head_bytes);
    reveal(tail_bytes);
    reveal(record_bytes);
    let r = record_bytes(t);
    let e = text_field(t.email);
    let h = text_field(t.email_hash);
    let tk = b64_bytes(t.token);
    let d = dec_of(t.expires_at as nat);
    let tf = if t.verified {
        lit_true()
    } else {
        lit_false()
    };
    lemma_b64_plain(vstd::utf8::encode_utf8(t.email));
    lemma_b64_plain(vstd::utf8::encode_utf8(t.email_hash));
    lemma_b64_plain(t.token);
    lemma_dec_of_props(t.expires_at as nat);
    let c1 = lit_email();
    let c2 = c1 + e;
    let c3 = c2 + lit_email_hash();
    let c4 = c3 + h;
    let c5 = c4 + lit_token();
    let c6 = c5 + tk;
    let c7 = c6 + lit_expires_at();
    let c8 = c7 + d;
    let c9 = c8 + lit_verified();
    let c10 = c9 + tf;
    assert(r == c10 + lit_close());
    assert(r.subrange(0, c1.len() as int) =~= lit_email());
    assert(r.subrange(c1.len() as int, c2.len() as int) =~= e);
    assert(r.subrange(c2.len() as int, c3.len() as int) =~= lit_email_hash());
    assert(r.subrange(c3.len() as int, c4.len() as int) =~= h);
    assert(r.subrange(c4.len() as int, c5.len() as int) =~= lit_token());
    assert(r.subrange(c5.len() as int, c6.len() as int) =~= tk);
    assert(r.subrange(c6.len() as int, c7.len() as int) =~= lit_expires_at());
    assert(r.subrange(c7.len() as int, c8.len() as int) =~= d);
    assert(r.subrange(c8.len() as int, c9.len() as int) =~= lit_verified());
    assert(r.subrange(c9.len() as int, c10.len() as int) =~= tf);
    assert(r.subrange(c10.len() as int, c10.len() as int + 1) =~= lit_close());
}

/// A token's canonical record is never empty.
pub proof fn lemma_record_nonempty(t: TokenSpec)
    ensures
        record_bytes(t).len() >= 1,
{
    lemma_record_layout(t);
}

/// A successful scan from the start of a plain segment that a quote closes
/// finds exactly that quote.
proof fn lemma_scan_pins(b: Seq<u8>, start: int, seg: Seq<u8>, r: Option<usize>)
    requires
        0 <= start,
        start + seg.len() < b.len(),
        b.subrange(start, start + seg.len()) == seg,
        plain_bytes(seg),
        b[start + seg.len()] == 0x22,
        r matches Some(end) ==> start <= end < b.len() && b[end as int] == 0x22 && plain_bytes(
            b.subrange(start, end as int),
        ),
        r is None ==> forall|q: int|
            start <= q < b.len() && b[q] == 0x22 ==> !plain_bytes(b.subrange(start, q)),
    ensures
        r matches Some(end) && end == start + seg.len(),
{
    let close = start + seg.len();
    if r is None {
        assert(b[close] == 0x22);
        assert(plain_bytes(b.subrange(start, close)));
        assert(false);
    }
    let end = r->0 as int;
    if end < close {
        assert(b.subrange(start, close)[end - start] == b[end]);
        assert(plain_byte(seg[end - start]));
        assert(false);
    }
    if end > close {
        assert(b.subrange(start, end)[close - start] == b[close]);
        assert(plain_byte(b[close]));
        assert(false);
    }
}

fn lit_close_vec() -> (r: Vec<u8>)
    ensures
        r@ == lit_close(),
        r@.len() == 1,
{
    let v: Vec<u8> = vec![125u8];
    proof {
        reveal(lit_close);
        assert(v@ =~= lit_close());
    }
    v
}




/// Where the head of a token's record lies, phrased as the parser walks it:
/// each text segment sits after its literal and a quote closes it.
#[verifier::rlimit(100)]
proof fn lemma_head_layout(t: TokenSpec, b: Seq<u8>)
    requires
        b == record_bytes(t),
    ensures
        ({
            let fe = text_field(t.email);
            let fh = text_field(t.email_hash);
            let tk = b64_bytes(t.token);
            let he = 10 + fe.len() as int;
            let hs = he + 16;
            let hh = hs + fh.len() as int;
            let ts = hh + 11;
            let te = ts + tk.len() as int;
            &&& te < b.len()
            &&& b.subrange(0, 10) == lit_email()
            &&& b.subrange(10, he) == fe
            &&& b[he] == 0x22
            &&& b.subrange(he, hs) == lit_email_hash()
            &&& b.subrange(hs, hh) == fh
            &&& b[hh] == 0x22
            &&& b.subrange(hh, ts) == lit_token()
            &&& b.subrange(ts, te) == tk
            &&& b[te] == 0x22
            &&& plain_bytes(tk)
            &&& head_bytes(t.email, t.email_hash, t.token).len() == te
        }),
{
    lemma_record_layout(t);
    lemma_lit_facts();
    let fe = text_field(t.email);
    let fh = text_field(t.email_hash);
    let tk = b64_bytes(t.token);
    let he = 10 + fe.len() as int;
    let hs = he + 16;
    let hh = hs + fh.len() as int;
    let ts = hh + 11;
    let te = ts + tk.len() as int;
    lemma_b64_plain(t.token);
    assert(b[he] == 0x22) by {
        assert(b.subrange(he, hs)[0] == b[he]);
    }
    assert(b[hh] == 0x22) by {
        assert(b.subrange(hh, ts)[0] == b[hh]);
    }
    assert(b[te] == 0x22) by {
        assert(b.subrange(te, te + 15)[0] == b[te]);
    }
}

/// Parses one base64url text segment that a quote closes: returns the
/// decoded string and the closing quote's offset. Accepts exactly the
/// encodings of strings: any string whose encoding sits at `start` with a
/// quote right after it is returned, and nothing else parses.
#[verifier::rlimit(100)]
fn parse_text_segment(b: &[u8], start: usize) -> (r: Option<(String, usize)>)
    requires
        start <= b@.len(),
    ensures
        r matches Some(q) ==> start <= q.1 < b@.len() && b@[q.1 as int] == 0x22 && b@.subrange(
            start as int,
            q.1 as int,
        ) == text_field(q.0@),
        forall|x: Seq<char>|
            #![trigger text_field(x)]
            (start + text_field(x).len() < b@.len() && b@.subrange(
                start as int,
                start + text_field(x).len(),
            ) == text_field(x) && b@[start + text_field(x).len()] == 0x22) ==> (
            r matches Some(q) && q.0@ == x && q.1 == start + text_field(x).len()),
{
    let sc = scan_plain_segment(b, start);
    let end = match sc {
        Some(e) => e,
        None => {
            proof {
                assert forall|x: Seq<char>|
                    (start + text_field(x).len() < b@.len() && b@.subrange(
                        start as int,
                        start + text_field(x).len(),
                    ) == text_field(x) && b@[start + text_field(x).len()] == 0x22) implies false by {
                    lemma_b64_plain(vstd::utf8::encode_utf8(x));
                    lemma_scan_pins(b@, start as int, text_field(x), sc);
                }
            }
            return None;
        },
    };
    let seg = slice_subrange(b, start, end);
    let bytes = match b64_decode(seg) {
        Some(v) => v,
        None => {
            proof {
                assert forall|x: Seq<char>|
                    (start + text_field(x).len() < b@.len() && b@.subrange(
                        start as int,
                        start + text_field(x).len(),
                    ) == text_field(x) && b@[start + text_field(x).len()] == 0x22) implies false by {
                    lemma_b64_plain(vstd::utf8::encode_utf8(x));
                    lemma_scan_pins(b@, start as int, text_field(x), sc);
                    assert(seg@ == text_field(x));
                }
            }
            return None;
        },
    };
    let ghost bv = bytes@;
    let text = match string_from_utf8(bytes) {
        Some(s) => s,
        None => {
            proof {
                assert forall|x: Seq<char>|
                    (start + text_field(x).len() < b@.len() && b@.subrange(
                        start as int,
                        start + text_field(x).len(),
                    ) == text_field(x) && b@[start + text_field(x).len()] == 0x22) implies false by {
                    lemma_b64_plain(vstd::utf8::encode_utf8(x));
                    lemma_scan_pins(b@, start as int, text_field(x), sc);
                    assert(seg@ == text_field(x));
                    assert(bv == vstd::utf8::encode_utf8(x));
                    vstd::utf8::encode_utf8_valid_utf8(x);
                }
            }
            return None;
        },
    };
    proof {
        vstd::utf8::decode_utf8_encode_utf8(bv);
        assert(vstd::utf8::encode_utf8(text@) == bv);
        assert(b@.subrange(start as int, end as int) == text_field(text@));
        assert forall|x: Seq<char>|
            (start + text_field(x).len() < b@.len() && b@.subrange(
                start as int,
                start + text_field(x).len(),
            ) == text_field(x) && b@[start + text_field(x).len()] == 0x22) implies (text@ == x
            && end == start + text_field(x).len()) by {
            lemma_b64_plain(vstd::utf8::encode_utf8(x));
            lemma_scan_pins(b@, start as int, text_field(x), sc);
            assert(seg@ == text_field(x));
            assert(bv == vstd::utf8::encode_utf8(x));
            vstd::utf8::encode_utf8_decode_utf8(x);
        }
    }
    Some((text, end))
}
/// Parses the record's three text fields, returning them with the offset
/// just past the token segment: the start of the `expires_at` literal.
#[verifier::rlimit(100)]
fn parse_text_fields(b: &[u8]) -> (r: Option<(String, String, Vec<u8>, usize)>)
    ensures
        r matches Some(q) ==> ({
            &&& q.3 <= b@.len()
            &&& b@.subrange(0, q.3 as int) == head_bytes(q.0@, q.1@, q.2@)
            &&& q.3 as int == head_bytes(q.0@, q.1@, q.2@).len()
        }),
        forall|t: TokenSpec|
            b@ == record_bytes(t) ==> (r matches Some(q) && q.0@ == t.email && q.1@
                == t.email_hash && q.2@ == t.token && q.3 as int == head_bytes(
                t.email,
                t.email_hash,
                t.token,
            ).len()),
{
    proof {
        lemma_lit_facts();
    }
    let l1 = lit_email_vec();
    let l2 = lit_email_hash_vec();
    let l3 = lit_token_vec();
    let n = b.len();
    if !match_lit(b, 0, l1.as_slice()) {
        proof {
            assert forall|t: TokenSpec| b@ == record_bytes(t) implies false by {
                lemma_head_layout(t, b@);
            }
        }
        return None;
    }
    let se = parse_text_segment(b, 10);
    let (email_s, e_end) = match se {
        Some(q) => q,
        None => {
            proof {
                assert forall|t: TokenSpec| b@ == record_bytes(t) implies false by {
                    lemma_head_layout(t, b@);
                }
            }
            return None;
        },
    };
    if !match_lit(b, e_end, l2.as_slice()) {
        proof {
            assert forall|t: TokenSpec| b@ == record_bytes(t) implies false by {
                lemma_head_layout(t, b@);
                assert(e_end as int == 10 + text_field(t.email).len());
            }
        }
        return None;
    }
    let h_start = e_end + 16;
    let sh = parse_text_segment(b, h_start);
    let (hash_s, h_end) = match sh {
        Some(q) => q,
        None => {
            proof {
                assert forall|t: TokenSpec| b@ == record_bytes(t) implies false by {
                    lemma_head_layout(t, b@);
                    assert(e_end as int == 10 + text_field(t.email).len());
                }
            }
            return None;
        },
    };
    if !match_lit(b, h_end, l3.as_slice()) {
        proof {
            assert forall|t: TokenSpec| b@ == record_bytes(t) implies false by {
                lemma_head_layout(t, b@);
                assert(e_end as int == 10 + text_field(t.email).len());
                assert(h_end as int == h_start + text_field(t.email_hash).len());
            }
        }
        return None;
    }
    let t_start = h_end + 11;
    let sc_t = scan_plain_segment(b, t_start);
    let t_end = match sc_t {
        Some(x) => x,
        None => {
            proof {
                assert forall|t: TokenSpec| b@ == record_bytes(t) implies false by {
                    lemma_head_layout(t, b@);
                    assert(e_end as int == 10 + text_field(t.email).len());
                    assert(h_end as int == h_start + text_field(t.email_hash).len());
                    lemma_scan_pins(b@, t_start as int, b64_bytes(t.token), sc_t);
                }
            }
            return None;
        },
    };
    let t_seg = slice_subrange(b, t_start, t_end);
    let nonce = match b64_decode(t_seg) {
        Some(v) => v,
        None => {
            proof {
                assert forall|t: TokenSpec| b@ == record_bytes(t) implies false by {
                    lemma_head_layout(t, b@);
                    assert(e_end as int == 10 + text_field(t.email).len());
                    assert(h_end as int == h_start + text_field(t.email_hash).len());
                    lemma_scan_pins(b@, t_start as int, b64_bytes(t.token), sc_t);
                    assert(t_seg@ == b64_bytes(t.token));
                }
            }
            return None;
        },
    };
    let out = (email_s, hash_s, nonce, t_end);
    proof {
        // Soundness: the bytes up to the token segment's closing quote are
        // exactly the head for the parsed fields.
        assert(b@.subrange(10, e_end as int) == text_field(out.0@));
        assert(b@.subrange(h_start as int, h_end as int) == text_field(out.1@));
        assert(t_seg@ == b64_bytes(out.2@));
        assert(b@.subrange(0, e_end as int) =~= lit_email() + text_field(out.0@));
        assert(b@.subrange(0, h_start as int) =~= b@.subrange(0, e_end as int)
            + lit_email_hash());
        assert(b@.subrange(0, h_end as int) =~= b@.subrange(0, h_start as int) + text_field(
            out.1@,
        ));
        assert(b@.subrange(0, t_start as int) =~= b@.subrange(0, h_end as int) + lit_token());
        assert(b@.subrange(0, t_end as int) =~= b@.subrange(0, t_start as int) + b64_bytes(
            out.2@,
        ));
        assert(b@.subrange(0, t_end as int) == head_bytes(out.0@, out.1@, out.2@)) by {
            reveal(head_bytes);
            assert(b@.subrange(0, t_end as int) =~= head_bytes(out.0@, out.1@, out.2@));
        }
        assert(t_end as int == head_bytes(out.0@, out.1@, out.2@).len());
        // Completeness: for any token whose record these bytes are, the
        // segment parses stop exactly at its boundaries.
        assert forall|t: TokenSpec|
            b@ == record_bytes(t) implies (out.0@ == t.email && out.1@ == t.email_hash && out.2@
            == t.token && out.3 as int == head_bytes(t.email, t.email_hash, t.token).len()) by {
            lemma_head_layout(t, b@);
            assert(out.0@ == t.email && e_end as int == 10 + text_field(t.email).len());
            assert(out.1@ == t.email_hash && h_end as int == h_start + text_field(
                t.email_hash,
            ).len());
            lemma_scan_pins(b@, t_start as int, b64_bytes(t.token), sc_t);
            assert(t_seg@ == b64_bytes(t.token));
            assert(out.2@ == t.token);
        }
    }
    Some(out)
}

/// Parses the canonical record. Accepts exactly the encoder's images: a
/// successful parse re-encodes to the input, and every token's record parses
/// back to that token.
#[verifier::rlimit(100)]
pub fn parse_record(b: &[u8]) -> (r: Option<(String, String, Vec<u8>, u64, bool)>)
    ensures
        r matches Some(p) ==> record_bytes(parts_token(p)) == b@,
        forall|t: TokenSpec|
            b@ == record_bytes(t) ==> (r matches Some(p) && parts_token(p) == t),
{
    proof {
        lemma_lit_facts();
    }
    let l4 = lit_expires_at_vec();
    let l5 = lit_verified_vec();
    let lt = lit_true_vec();
    let lf = lit_false_vec();
    let lc = lit_close_vec();
    let n = b.len();
    let head = parse_text_fields(b);
    let (email_s, hash_s, nonce, pos) = match head {
        Some(q) => q,
        None => {
            return None;
        },
    };
    let ghost hb = head_bytes(email_s@, hash_s@, nonce@);
    if !match_lit(b, pos, l4.as_slice()) {
        proof {
            assert forall|t: TokenSpec| b@ == record_bytes(t) implies false by {
                lemma_record_layout(t);
            }
        }
        return None;
    }
    let d_start = pos + 15;
    let pd = parse_dec_u64(b, d_start);
    let (expires_at, v_start) = match pd {
        Some(p) => p,
        None => {
            proof {
                assert forall|t: TokenSpec| b@ == record_bytes(t) implies false by {
                    lemma_record_layout(t);
                    let d = dec_of(t.expires_at as nat);
                    let e = d_start + d.len();
                    assert(b@.subrange(d_start as int, e as int) == d);
                    assert(b@[e as int] == lit_verified()[0]);
                    assert(!is_digit(b@[e as int]));
                }
            }
            return None;
        },
    };
    if !match_lit(b, v_start, l5.as_slice()) {
        proof {
            assert forall|t: TokenSpec| b@ == record_bytes(t) implies false by {
                lemma_record_layout(t);
                let d = dec_of(t.expires_at as nat);
                let e = d_start + d.len();
                assert(b@.subrange(d_start as int, e as int) == d);
                assert(b@[e as int] == lit_verified()[0]);
                assert(!is_digit(b@[e as int]));
                assert(v_start == e);
            }
        }
        return None;
    }
    let tf_start = v_start + 12;
    let is_true = match_lit(b, tf_start, lt.as_slice());
    let is_false = if is_true {
        false
    } else {
        match_lit(b, tf_start, lf.as_slice())
    };
    let verified = is_true;
    let close_start = if is_true {
        tf_start + 4
    } else if is_false {
        tf_start + 5
    } else {
        tf_start
    };
    let complete = (is_true || is_false) && match_lit(b, close_start, lc.as_slice())
        && close_start + 1 == n;
    if !complete {
        proof {
            assert forall|t: TokenSpec| b@ == record_bytes(t) implies false by {
                lemma_record_layout(t);
                let d = dec_of(t.expires_at as nat);
                let e = d_start + d.len();
                assert(b@.subrange(d_start as int, e as int) == d);
                assert(b@[e as int] == lit_verified()[0]);
                assert(!is_digit(b@[e as int]));
                assert(v_start == e);
                let tf = if t.verified {
                    lit_true()
                } else {
                    lit_false()
                };
                if t.verified {
                    assert(b@.subrange(tf_start as int, tf_start + 4) == lit_true());
                    assert(is_true);
                } else {
                    assert(b@[tf_start as int] == lit_false()[0]);
                    assert(!is_true) by {
                        if b@.subrange(tf_start as int, tf_start + 4) == lit_true() {
                            assert(b@.subrange(tf_start as int, tf_start + 4)[0] == b@[tf_start as int]);
                        }
                    }
                    assert(b@.subrange(tf_start as int, tf_start + 5) == lit_false());
                    assert(is_false);
                }
                assert(close_start == tf_start + tf.len());
                assert(b@.subrange(close_start as int, close_start + 1) == lit_close());
                assert(close_start + 1 == b@.len());
            }
        }
        return None;
    }
    let out = (email_s, hash_s, nonce, expires_at, verified);
    proof {
        let p = parts_token(out);
        let tf = if verified {
            lit_true()
        } else {
            lit_false()
        };
        // Soundness: the input is the head followed by exactly the tail the
        // parsed fields re-encode to.
        assert(b@.subrange(0, pos as int) == hb);
        assert(b@.subrange(pos as int, d_start as int) == lit_expires_at());
        assert(b@.subrange(d_start as int, v_start as int) == dec_of(p.expires_at as nat));
        assert(b@.subrange(v_start as int, tf_start as int) == lit_verified());
        assert(b@.subrange(tf_start as int, close_start as int) == tf);
        assert(b@.subrange(close_start as int, close_start + 1) == lit_close());
        assert(b@.subrange(0, d_start as int) =~= hb + lit_expires_at());
        assert(b@.subrange(0, v_start as int) =~= b@.subrange(0, d_start as int) + dec_of(
            p.expires_at as nat,
        ));
        assert(b@.subrange(0, tf_start as int) =~= b@.subrange(0, v_start as int)
            + lit_verified());
        assert(b@.subrange(0, close_start as int) =~= b@.subrange(0, tf_start as int) + tf);
        assert(b@.subrange(0, close_start + 1) =~= b@.subrange(0, close_start as int)
            + lit_close());
        assert(b@ =~= b@.subrange(0, close_start + 1));
        assert(b@.subrange(pos as int, close_start + 1) =~= tail_bytes(p.expires_at, p.verified))
            by {
            reveal(tail_bytes);
            assert(b@.subrange(pos as int, close_start + 1) =~= tail_bytes(
                p.expires_at,
                p.verified,
            ));
        }
        assert(b@ =~= hb + tail_bytes(p.expires_at, p.verified));
        assert(record_bytes(p) == b@) by {
            reveal(record_bytes);
        }
        // Completeness: any well-formed token with this record has exactly
        // these fields.
        assert forall|t: TokenSpec|
            b@ == record_bytes(t) implies parts_token(out) == t by {
            lemma_record_layout(t);
            assert(p.email == t.email && p.email_hash == t.email_hash && p.token == t.token);
            assert(pos as int == head_bytes(t.email, t.email_hash, t.token).len());
            let d = dec_of(t.expires_at as nat);
            let e = d_start + d.len();
            assert(b@.subrange(d_start as int, e as int) == d);
            assert(b@[e as int] == lit_verified()[0]);
            assert(!is_digit(b@[e as int]));
            assert(p.expires_at == t.expires_at && v_start == e);
            if t.verified {
                assert(b@.subrange(tf_start as int, tf_start + 4) == lit_true());
                assert(verified);
            } else {
                assert(b@[tf_start as int] == lit_false()[0]);
                assert(!is_true) by {
                    if b@.subrange(tf_start as int, tf_start + 4) == lit_true() {
                        assert(b@.subrange(tf_start as int, tf_start + 4)[0] == b@[tf_start as int]);
                    }
                }
                assert(!verified);
            }
        }
    }
    Some(out)
}

} // verus!

verus! {

/// Two runs of bytes satisfying `p`, starting at the same offset and each
/// followed by a byte that does not satisfy `p`, are the same run.
proof fn lemma_run_pins(r: Seq<u8>, start: int, g1: Seq<u8>, g2: Seq<u8>, p: spec_fn(u8) -> bool)
    requires
        0 <= start,
        start + g1.len() < r.len(),
        start + g2.len() < r.len(),
        r.subrange(start, start + g1.len()) == g1,
        r.subrange(start, start + g2.len()) == g2,
        forall|i: int| 0 <= i < g1.len() ==> p(#[trigger] g1[i]),
        forall|i: int| 0 <= i < g2.len() ==> p(#[trigger] g2[i]),
        !p(r[start + g1.len()]),
        !p(r[start + g2.len()]),
    ensures
        g1 == g2,
{
    if g1.len() < g2.len() {
        assert(r[start + g1.len()] == g2[g1.len() as int]);
        assert(p(g2[g1.len() as int]));
        assert(false);
    }
    if g2.len() < g1.len() {
        assert(r[start + g2.len()] == g1[g2.len() as int]);
        assert(p(g1[g2.len() as int]));
        assert(false);
    }
}

/// Two well-formed tokens with the same record are the same token: the
/// canonical record is unambiguous.
#[verifier::rlimit(100)]
pub proof fn lemma_record_inj(t1: TokenSpec, t2: TokenSpec)
    requires
        record_bytes(t1) == record_bytes(t2),
    ensures
        t1 == t2,
{
    lemma_record_layout(t1);
    lemma_record_layout(t2);
    lemma_lit_facts();
    let r = record_bytes(t1);
    let e1 = text_field(t1.email);
    let e2 = text_field(t2.email);
    assert(r[10 + e1.len() as int] == lit_email_hash()[0]) by {
        assert(r.subrange(10 + e1.len() as int, 10 + e1.len() as int + 16)[0] == r[10 + e1.len() as int]);
    }
    assert(r[10 + e2.len() as int] == lit_email_hash()[0]) by {
        assert(r.subrange(10 + e2.len() as int, 10 + e2.len() as int + 16)[0] == r[10 + e2.len() as int]);
    }
    lemma_run_pins(r, 10, e1, e2, |x: u8| crate::text::plain_byte(x));
    assert(t1.email == t2.email) by {
        crate::b64::lemma_b64_inj(
            vstd::utf8::encode_utf8(t1.email),
            vstd::utf8::encode_utf8(t2.email),
        );
        vstd::utf8::encode_utf8_decode_utf8(t1.email);
        vstd::utf8::encode_utf8_decode_utf8(t2.email);
    }
    let p3 = 10 + e1.len() as int + 16;
    let h1 = text_field(t1.email_hash);
    let h2 = text_field(t2.email_hash);
    assert(r[p3 + h1.len() as int] == lit_token()[0]) by {
        assert(r.subrange(p3 + h1.len() as int, p3 + h1.len() as int + 11)[0] == r[p3 + h1.len() as int]);
    }
    assert(r[p3 + h2.len() as int] == lit_token()[0]) by {
        assert(r.subrange(p3 + h2.len() as int, p3 + h2.len() as int + 11)[0] == r[p3 + h2.len() as int]);
    }
    lemma_run_pins(r, p3, h1, h2, |x: u8| crate::text::plain_byte(x));
    assert(t1.email_hash == t2.email_hash) by {
        crate::b64::lemma_b64_inj(
            vstd::utf8::encode_utf8(t1.email_hash),
            vstd::utf8::encode_utf8(t2.email_hash),
        );
        vstd::utf8::encode_utf8_decode_utf8(t1.email_hash);
        vstd::utf8::encode_utf8_decode_utf8(t2.email_hash);
    }
    let p5 = p3 + h1.len() as int + 11;
    let k1 = b64_bytes(t1.token);
    let k2 = b64_bytes(t2.token);
    assert(r[p5 + k1.len() as int] == lit_expires_at()[0]) by {
        assert(r.subrange(p5 + k1.len() as int, p5 + k1.len() as int + 15)[0] == r[p5 + k1.len() as int]);
    }
    assert(r[p5 + k2.len() as int] == lit_expires_at()[0]) by {
        assert(r.subrange(p5 + k2.len() as int, p5 + k2.len() as int + 15)[0] == r[p5 + k2.len() as int]);
    }
    lemma_run_pins(r, p5, k1, k2, |x: u8| crate::text::plain_byte(x));
    crate::b64::lemma_b64_inj(t1.token, t2.token);
    let p7 = p5 + k1.len() as int + 15;
    let d1 = dec_of(t1.expires_at as nat);
    let d2 = dec_of(t2.expires_at as nat);
    assert(r[p7 + d1.len() as int] == lit_verified()[0]) by {
        assert(r.subrange(p7 + d1.len() as int, p7 + d1.len() as int + 12)[0] == r[p7 + d1.len() as int]);
    }
    assert(r[p7 + d2.len() as int] == lit_verified()[0]) by {
        assert(r.subrange(p7 + d2.len() as int, p7 + d2.len() as int + 12)[0] == r[p7 + d2.len() as int]);
    }
    lemma_run_pins(r, p7, d1, d2, |x: u8| is_digit(x));
    assert(t1.expires_at == t2.expires_at) by {
        lemma_dec_of_props(t1.expires_at as nat);
        lemma_dec_of_props(t2.expires_at as nat);
        assert(dec_val(d1) == dec_val(d2));
    }
    let p9 = p7 + d1.len() as int + 12;
    assert(t1.verified == t2.verified) by {
        let tf1 = if t1.verified {
            lit_true()
        } else {
            lit_false()
        };
        let tf2 = if t2.verified {
            lit_true()
        } else {
            lit_false()
        };
        assert(r.subrange(p9, p9 + tf1.len() as int)[0] == r[p9]);
        assert(r.subrange(p9, p9 + tf2.len() as int)[0] == r[p9]);
        assert(tf1[0] == tf2[0]);
    }
}

} // verus!
