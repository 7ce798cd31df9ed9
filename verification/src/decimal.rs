//! Canonical decimal rendering of unsigned integers as ASCII bytes, with the
//! round-trip lemmas the token record codec relies on.

use vstd::prelude::*;

verus! {

/// The byte is an ASCII decimal digit.
pub open spec fn is_digit(b: u8) -> bool {
    0x30 <= b <= 0x39
}

/// Every byte of the sequence is an ASCII decimal digit.
pub open spec fn all_digits(s: Seq<u8>) -> bool {
    forall|i: int| 0 <= i < s.len() ==> is_digit(#[trigger] s[i])
}

/// The sequence is the canonical decimal form of some number: at least one
/// digit, and no leading zero unless the number is zero itself.
pub open spec fn canonical_digits(s: Seq<u8>) -> bool {
    &&& s.len() >= 1
    &&& all_digits(s)
    &&& (s.len() > 1 ==> s[0] != 0x30)
}

/// The canonical decimal representation of `n`, most significant digit first.
pub open spec fn dec_of(n: nat) -> Seq<u8>
    decreases n,
{
    if n < 10 {
        seq![(0x30 + n) as u8]
    } else {
        dec_of(n / 10).push((0x30 + n % 10) as u8)
    }
}

/// The numeric value of a sequence of ASCII digit bytes.
pub open spec fn dec_val(s: Seq<u8>) -> nat
    decreases s.len(),
{
    if s.len() == 0 {
        0
    } else {
        dec_val(s.drop_last()) * 10 + (if s.last() >= 0x30 {
            (s.last() - 0x30) as nat
        } else {
            0
        })
    }
}

/// `dec_of` produces a canonical digit string whose value is `n`.
pub proof fn lemma_dec_of_props(n: nat)
    ensures
        canonical_digits(dec_of(n)),
        dec_val(dec_of(n)) == n,
        n >= 1 ==> dec_of(n)[0] != 0x30,
    decreases n,
{
    if n < 10 {
        assert(dec_of(n) =~= seq![(0x30 + n) as u8]);
        assert(dec_val(dec_of(n)) == n) by {
            assert(dec_of(n).drop_last() =~= Seq::<u8>::empty());
            assert(dec_of(n).last() == (0x30 + n) as u8);
            assert((0x30 + n) as u8 == 0x30 + n);
            assert(dec_val(dec_of(n)) == dec_val(Seq::<u8>::empty()) * 10 + n);
        }
    } else {
        lemma_dec_of_props(n / 10);
        let s = dec_of(n);
        let front = dec_of(n / 10);
        assert(s == front.push((0x30 + n % 10) as u8));
        assert(s.drop_last() =~= front);
        assert(s.last() == (0x30 + n % 10) as u8);
        assert(dec_val(s) == dec_val(front) * 10 + n % 10);
        assert(dec_val(s) == (n / 10) * 10 + n % 10);
        assert((n / 10) * 10 + n % 10 == n) by (nonlinear_arith);
        assert(s[0] == front[0]);
        assert(n / 10 >= 1);
        assert(forall|i: int| 0 <= i < s.len() ==> is_digit(#[trigger] s[i]));
    }
}

/// A nonempty digit string without a leading zero has value at least one.
pub proof fn lemma_dec_val_positive(s: Seq<u8>)
    requires
        s.len() >= 1,
        all_digits(s),
        s[0] != 0x30,
    ensures
        dec_val(s) >= 1,
    decreases s.len(),
{
    if s.len() == 1 {
        assert(s.last() == s[0]);
    } else {
        let front = s.drop_last();
        assert(front[0] == s[0]);
        assert(all_digits(front)) by {
            assert(forall|i: int| 0 <= i < front.len() ==> front[i] == s[i]);
        }
        lemma_dec_val_positive(front);
        assert(dec_val(s) >= dec_val(front) * 10) by (nonlinear_arith)
            requires dec_val(s) == dec_val(front) * 10 + (if s.last() >= 0x30 { (s.last() - 0x30) as nat } else { 0 });
    }
}

/// Rendering the value of a canonical digit string gives the string back.
pub proof fn lemma_dec_of_dec_val(s: Seq<u8>)
    requires
        canonical_digits(s),
    ensures
        dec_of(dec_val(s)) == s,
    decreases s.len(),
{
    if s.len() == 1 {
        assert(dec_val(s) == s[0] - 0x30) by {
            assert(s.drop_last() =~= Seq::<u8>::empty());
            assert(s.last() == s[0]);
        }
        assert(dec_val(s) < 10);
        assert(dec_of(dec_val(s)) =~= s);
    } else {
        let front = s.drop_last();
        let d = (s.last() - 0x30) as nat;
        assert(all_digits(front) && front[0] == s[0]) by {
            assert(forall|i: int| 0 <= i < front.len() ==> front[i] == s[i]);
        }
        lemma_dec_val_positive(front);
        assert(dec_val(s) == dec_val(front) * 10 + d);
        assert(dec_val(s) >= 10) by (nonlinear_arith)
            requires dec_val(s) == dec_val(front) * 10 + d, dec_val(front) >= 1, d >= 0;
        assert(dec_val(s) / 10 == dec_val(front) && dec_val(s) % 10 == d) by (nonlinear_arith)
            requires dec_val(s) == dec_val(front) * 10 + d, 0 <= d < 10;
        lemma_dec_of_dec_val(front);
        assert(dec_of(dec_val(s)) == dec_of(dec_val(front)).push((0x30 + d) as u8));
        assert((0x30 + d) as u8 == s.last());
        assert(front.push(s.last()) =~= s);
    }
}

/// Extending a digit string on the right never decreases its value.
pub proof fn lemma_dec_val_take_le(s: Seq<u8>, i: int)
    requires
        0 <= i <= s.len(),
    ensures
        dec_val(s.take(i)) <= dec_val(s),
    decreases s.len() - i,
{
    if i < s.len() {
        let t = s.take(i + 1);
        assert(t.drop_last() =~= s.take(i));
        assert(dec_val(t) == dec_val(s.take(i)) * 10 + (if t.last() >= 0x30 {
            (t.last() - 0x30) as nat
        } else {
            0
        }));
        assert(dec_val(s.take(i)) <= dec_val(t)) by (nonlinear_arith)
            requires dec_val(t) >= dec_val(s.take(i)) * 10;
        lemma_dec_val_take_le(s, i + 1);
        assert(s.take(s.len() as int) =~= s);
    } else {
        assert(s.take(i) =~= s);
    }
}

/// The digits still to be produced while rendering: none once the remaining
/// value reaches zero.
pub open spec fn dec_rest(m: nat) -> Seq<u8> {
    if m == 0 {
        Seq::<u8>::empty()
    } else {
        dec_of(m)
    }
}

/// Appends the canonical decimal form of `n` to `out`.
pub fn push_dec(out: &mut Vec<u8>, n: u64)
    ensures
        final(out)@ == old(out)@ + dec_of(n as nat),
{
    if n == 0 {
        out.push(0x30);
        proof {
            assert(dec_of(0nat) =~= seq![0x30u8]);
            assert(out@ =~= old(out)@ + dec_of(0nat));
        }
        return ;
    }
    let mut digits: Vec<u8> = Vec::new();
    let mut m: u64 = n;
    while m > 0
        invariant
            dec_of(n as nat) == dec_rest(m as nat) + digits@.reverse(),
        decreases m,
    {
        let ghost prev = digits@;
        let d: u8 = (m % 10) as u8;
        digits.push(0x30 + d);
        proof {
            assert(digits@ =~= prev.push((0x30 + d) as u8));
            assert(digits@.reverse() =~= seq![(0x30 + d) as u8] + prev.reverse());
            if m >= 10 {
                assert(dec_of(m as nat) == dec_of((m as nat) / 10).push(
                    (0x30 + (m as nat) % 10) as u8,
                ));
                assert(dec_rest((m / 10) as nat) + digits@.reverse() =~= dec_rest(m as nat)
                    + prev.reverse());
            } else {
                assert(dec_of(m as nat) =~= seq![(0x30 + d) as u8]);
                assert(dec_rest((m / 10) as nat) + digits@.reverse() =~= dec_rest(m as nat)
                    + prev.reverse());
            }
        }
        m = m / 10;
    }
    proof {
        assert(dec_of(n as nat) == digits@.reverse()) by {
            assert(Seq::<u8>::empty() + digits@.reverse() =~= digits@.reverse());
        }
    }
    let mut k: usize = digits.len();
    while k > 0
        invariant
            k <= digits@.len(),
            dec_of(n as nat) == digits@.reverse(),
            out@ == old(out)@ + digits@.reverse().take(digits@.len() - k),
        decreases k,
    {
        k = k - 1;
        let b = digits[k];
        out.push(b);
        proof {
            let r = digits@.reverse();
            assert(r[digits@.len() - 1 - k] == digits@[k as int]);
            assert(r.take(digits@.len() - k) =~= r.take(digits@.len() - (k + 1)).push(
                digits@[k as int],
            ));
        }
    }
    proof {
        assert(digits@.reverse().take(digits@.len() as int) =~= digits@.reverse());
    }
}

} // verus!
