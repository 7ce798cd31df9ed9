//! The email allow-list validator: a pure predicate over a configured,
//! comma-separated list of bare addresses and `@domain` suffix patterns.

use vstd::prelude::*;
use vstd::string::StrSliceExecFns;
use vstd::utf8::is_ascii_chars;
use crate::text::{ascii_lower, is_whitespace_char, lower_of, lowercase, white_space};

verus! {

/// Whitespace, as trimmed from a configured filter entry: the Unicode
/// white-space property.
pub open spec fn is_ws(c: char) -> bool {
    white_space(c)
}

/// The sequence without its leading whitespace.
pub open spec fn ltrim(s: Seq<char>) -> Seq<char>
    decreases s.len(),
{
    if s.len() > 0 && is_ws(s[0]) {
        ltrim(s.drop_first())
    } else {
        s
    }
}

/// The sequence without its trailing whitespace.
pub open spec fn rtrim(s: Seq<char>) -> Seq<char>
    decreases s.len(),
{
    if s.len() > 0 && is_ws(s.last()) {
        rtrim(s.drop_last())
    } else {
        s
    }
}

/// The sequence without leading and trailing whitespace.
pub open spec fn trim_chars(s: Seq<char>) -> Seq<char> {
    rtrim(ltrim(s))
}

/// The position of the first comma, or the length if there is none.
pub open spec fn comma_ix(s: Seq<char>) -> int
    decreases s.len(),
{
    if s.len() == 0 {
        0
    } else if s[0] == ',' {
        0
    } else {
        1 + comma_ix(s.drop_first())
    }
}

/// The comma-separated pieces of the configuration string, each trimmed.
pub open spec fn split_trim(s: Seq<char>) -> Seq<Seq<char>>
    decreases s.len(),
{
    if 0 <= comma_ix(s) < s.len() {
        seq![trim_chars(s.take(comma_ix(s)))] + split_trim(s.skip(comma_ix(s) + 1))
    } else {
        seq![trim_chars(s)]
    }
}

/// The lower-cased email matches one filter entry: equal to a bare address,
/// or ending with an `@domain` pattern.
pub open spec fn matches_filter(f: Seq<char>, e: Seq<char>) -> bool {
    if f.len() > 0 && f[0] == '@' {
        e.len() >= f.len() && e.skip(e.len() - f.len()) == f
    } else {
        e == f
    }
}

/// The lower-cased email matches some entry of the allow-list.
pub open spec fn validates(filters: Seq<Seq<char>>, e: Seq<char>) -> bool {
    exists|i: int| 0 <= i < filters.len() && matches_filter(#[trigger] filters[i], e)
}

/// The first comma really is where `comma_ix` says.
proof fn lemma_comma_ix(s: Seq<char>)
    ensures
        0 <= comma_ix(s) <= s.len(),
        comma_ix(s) < s.len() ==> s[comma_ix(s)] == ',',
        forall|j: int| 0 <= j < comma_ix(s) ==> s[j] != ',',
    decreases s.len(),
{
    if s.len() > 0 && s[0] != ',' {
        lemma_comma_ix(s.drop_first());
        assert forall|j: int| 0 <= j < comma_ix(s) implies s[j] != ',' by {
            if j >= 1 {
                assert(s[j] == s.drop_first()[j - 1]);
                assert(s.drop_first()[j - 1] != ',');
            }
        }
    }
}

/// A scan that found no comma before `k`, and one at `k` unless `k` is the
/// length, pins `comma_ix`.
proof fn lemma_comma_ix_is(s: Seq<char>, k: int)
    requires
        0 <= k <= s.len(),
        forall|j: int| 0 <= j < k ==> s[j] != ',',
        k < s.len() ==> s[k] == ',',
    ensures
        comma_ix(s) == k,
    decreases s.len(),
{
    if s.len() == 0 {
    } else if k == 0 {
        if s.len() > 0 && s[0] != ',' {
            lemma_comma_ix(s);
        }
    } else {
        assert(s[0] != ',');
        let d = s.drop_first();
        assert(forall|j: int| 0 <= j < k - 1 ==> d[j] == s[j + 1] && s[j + 1] != ',');
        assert(k - 1 < d.len() ==> d[k - 1] == s[k as int]);
        lemma_comma_ix_is(d, k - 1);
    }
}

/// A scan that skipped exactly the leading whitespace pins `ltrim`.
proof fn lemma_ltrim_is(s: Seq<char>, k: int)
    requires
        0 <= k <= s.len(),
        forall|j: int| 0 <= j < k ==> is_ws(s[j]),
        k < s.len() ==> !is_ws(s[k]),
    ensures
        ltrim(s) == s.skip(k),
    decreases k,
{
    if k == 0 {
        assert(s.skip(0) =~= s);
    } else {
        assert(is_ws(s[0]));
        let d = s.drop_first();
        assert(forall|j: int| 0 <= j < k - 1 ==> d[j] == s[j + 1] && is_ws(s[j + 1]));
        assert(k - 1 < d.len() ==> d[k - 1] == s[k as int]);
        lemma_ltrim_is(d, k - 1);
        assert(d.skip(k - 1) =~= s.skip(k));
    }
}

/// A scan that dropped exactly the trailing whitespace pins `rtrim`.
proof fn lemma_rtrim_is(s: Seq<char>, k: int)
    requires
        0 <= k <= s.len(),
        forall|j: int| k <= j < s.len() ==> is_ws(s[j]),
        k > 0 ==> !is_ws(s[k - 1]),
    ensures
        rtrim(s) == s.take(k),
    decreases s.len(),
{
    if k == s.len() {
        if s.len() > 0 {
            assert(!is_ws(s.last()));
        }
        assert(s.take(k) =~= s);
    } else {
        assert(is_ws(s.last()));
        let d = s.drop_last();
        assert(forall|j: int| k <= j < d.len() ==> d[j] == s[j]);
        lemma_rtrim_is(d, k);
        assert(d.take(k) =~= s.take(k));
    }
}

/// Validates candidate emails against a configured allow-list.
#[derive(Debug)]
pub struct EmailValidator {
    filters: Vec<String>,
}

impl View for EmailValidator {
    type V = Seq<Seq<char>>;

    closed spec fn view(&self) -> Seq<Seq<char>> {
        self.filters.deep_view()
    }
}

/// Returns `raw[from..to]` with surrounding whitespace removed.
fn trimmed_piece(raw: &str, from: usize, to: usize) -> (r: String)
    requires
        from <= to <= raw@.len(),
    ensures
        r@ == trim_chars(raw@.subrange(from as int, to as int)),
{
    let ghost piece = raw@.subrange(from as int, to as int);
    let mut ts = from;
    while ts < to && is_whitespace_char(raw.get_char(ts))
        invariant
            from <= ts <= to <= raw@.len(),
            forall|j: int| from <= j < ts ==> is_ws(#[trigger] raw@[j]),
        decreases to - ts,
    {
        ts = ts + 1;
    }
    proof {
        assert(forall|j: int| 0 <= j < ts - from ==> piece[j] == raw@[from + j]);
        assert(ts < to ==> piece[ts - from] == raw@[ts as int]);
        lemma_ltrim_is(piece, ts - from);
    }
    let ghost lpiece = piece.skip(ts - from);
    let mut te = to;
    while te > ts && is_whitespace_char(raw.get_char(te - 1))
        invariant
            ts <= te <= to,
            to <= raw@.len(),
            forall|j: int| te <= j < to ==> is_ws(#[trigger] raw@[j]),
        decreases te,
    {
        te = te - 1;
    }
    proof {
        assert(forall|j: int| 0 <= j < lpiece.len() ==> lpiece[j] == raw@[ts + j]);
        lemma_rtrim_is(lpiece, te - ts);
        assert(lpiece.take(te - ts) =~= raw@.subrange(ts as int, te as int));
    }
    raw.substring_char(ts, te).to_owned()
}

impl EmailValidator {
    /// Builds the allow-list from a comma-separated configuration string,
    /// trimming each entry.
    pub fn new(raw_emails: &str) -> (r: EmailValidator)
        ensures
            r@ == split_trim(raw_emails@),
    {
        let n = raw_emails.unicode_len();
        let mut filters: Vec<String> = Vec::new();
        let mut start: usize = 0;
        let mut done = false;
        proof {
            assert(raw_emails@.skip(0) =~= raw_emails@);
            assert(filters.deep_view() + split_trim(raw_emails@) =~= split_trim(raw_emails@));
        }
        while !done
            invariant
                start <= n,
                n == raw_emails@.len(),
                !done ==> split_trim(raw_emails@) == filters.deep_view() + split_trim(
                    raw_emails@.skip(start as int),
                ),
                done ==> split_trim(raw_emails@) == filters.deep_view(),
            decreases n - start, (if done { 0int } else { 1int }),
        {
            let ghost rest = raw_emails@.skip(start as int);
            let mut j = start;
            while j < n && raw_emails.get_char(j) != ','
                invariant
                    start <= j <= n,
                    n == raw_emails@.len(),
                    forall|k: int| start <= k < j ==> raw_emails@[k] != ',',
                decreases n - j,
            {
                j = j + 1;
            }
            proof {
                assert(forall|k: int| 0 <= k < j - start ==> rest[k] == raw_emails@[start + k]);
                assert(j < n ==> rest[j - start] == raw_emails@[j as int]);
                lemma_comma_ix_is(rest, j - start);
            }
            let piece = trimmed_piece(raw_emails, start, j);
            proof {
                assert(raw_emails@.subrange(start as int, j as int) =~= rest.take(j - start));
            }
            let ghost prev = filters.deep_view();
            filters.push(piece);
            proof {
                assert(filters.deep_view() =~= prev.push(piece@));
            }
            if j == n {
                proof {
                    assert(rest.take(j - start) =~= rest);
                    assert(split_trim(rest) =~= seq![trim_chars(rest)]);
                    assert(filters.deep_view() =~= prev + seq![trim_chars(rest)]);
                }
                done = true;
                continue ;
            }
            proof {
                assert(split_trim(rest) =~= seq![trim_chars(rest.take(j - start))] + split_trim(
                    rest.skip(j - start + 1),
                ));
                assert(rest.skip(j - start + 1) =~= raw_emails@.skip(j + 1));
                assert(filters.deep_view() + split_trim(raw_emails@.skip(j + 1)) =~= prev + (seq![
                    trim_chars(rest.take(j - start)),
                ] + split_trim(raw_emails@.skip(j + 1))));
            }
            start = j + 1;
        }
        EmailValidator { filters }
    }

    /// True exactly when the lower-cased candidate equals a bare entry or
    /// ends with an `@domain` entry of the allow-list.
    pub fn validate(&self, email: &str) -> (r: bool)
        ensures
            r == validates(self@, lower_of(email@)),
            is_ascii_chars(email@) ==> r == validates(self@, ascii_lower(email@)),
    {
        let lower = lowercase(email);
        let llen = lower.as_str().unicode_len();
        let m = self.filters.len();
        let mut i: usize = 0;
        while i < m
            invariant
                i <= m,
                m == self@.len(),
                self@ == self.filters.deep_view(),
                llen == lower@.len(),
                lower@ == lower_of(email@),
                is_ascii_chars(email@) ==> lower@ == ascii_lower(email@),
                forall|k: int| 0 <= k < i ==> !matches_filter(#[trigger] self@[k], lower@),
            decreases m - i,
        {
            let f = &self.filters[i];
            let flen = f.as_str().unicode_len();
            proof {
                assert(self@[i as int] == f@);
            }
            if flen > 0 && f.as_str().get_char(0) == '@' {
                if flen <= llen && suffix_matches(lower.as_str(), f.as_str()) {
                    return true;
                }
                proof {
                    assert(!matches_filter(self@[i as int], lower@));
                }
            } else {
                if lower.eq(f) {
                    return true;
                }
                proof {
                    assert(!matches_filter(self@[i as int], lower@));
                }
            }
            i = i + 1;
        }
        false
    }
}

/// True exactly when `f` is a suffix of `e`.
fn suffix_matches(e: &str, f: &str) -> (r: bool)
    requires
        f@.len() <= e@.len(),
    ensures
        r == (e@.skip(e@.len() - f@.len()) == f@),
{
    let flen = f.unicode_len();
    let elen = e.unicode_len();
    let off = elen - flen;
    let mut k: usize = 0;
    while k < flen
        invariant
            k <= flen,
            flen == f@.len(),
            elen == e@.len(),
            off == elen - flen,
            forall|j: int| 0 <= j < k ==> e@[off + j] == f@[j],
        decreases flen - k,
    {
        if e.get_char(off + k) != f.get_char(k) {
            proof {
                assert(e@.skip(off as int)[k as int] == e@[off + k]);
            }
            return false;
        }
        k = k + 1;
    }
    proof {
        assert(e@.skip(off as int) =~= f@);
    }
    true
}

} // verus!
