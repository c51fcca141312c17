//! Text utilities shared by the parsers and the extractor.
//!
//! All text logic in this crate works over `Vec<char>` so that contracts can
//! speak of `Seq<char>`, the view that `String` and `&str` carry.

use vstd::prelude::*;

verus! {

/// ASCII whitespace, the only whitespace that toolchain output contains.
pub open spec fn is_ws(c: char) -> bool {
    c == ' ' || c == '\t' || c == '\r' || c == '\n'
}

/// Decimal digit test.
pub open spec fn is_digit(c: char) -> bool {
    '0' <= c && c <= '9'
}

pub open spec fn digit_val(c: char) -> int {
    c as int - '0' as int
}

/// Numeric value of a digit sequence (most significant first).
pub open spec fn digits_value(s: Seq<char>) -> int
    decreases s.len(),
{
    if s.len() == 0 {
        0
    } else {
        digits_value(s.drop_last()) * 10 + digit_val(s.last())
    }
}

pub open spec fn all_digits(s: Seq<char>) -> bool {
    forall|i: int| 0 <= i < s.len() ==> is_digit(#[trigger] s[i])
}

/// The character sequence of `s` with leading and trailing ASCII
/// whitespace removed.
pub open spec fn spec_trim(s: Seq<char>) -> Seq<char>
    decreases s.len(),
{
    if s.len() == 0 {
        s
    } else if is_ws(s[0]) {
        spec_trim(s.drop_first())
    } else if is_ws(s.last()) {
        spec_trim(s.drop_last())
    } else {
        s
    }
}

/// The lines of `s`, split at `'\n'`, a `'\r'` directly before the split
/// removed, and no final empty line when `s` ends with a line ending.
pub open spec fn spec_lines(s: Seq<char>) -> Seq<Seq<char>>
    decreases s.len(),
    via spec_lines_decreases
{
    if s.len() == 0 {
        Seq::empty()
    } else {
        let nl = first_newline(s);
        if nl < s.len() {
            seq![strip_cr(s.take(nl))] + spec_lines(s.skip(nl + 1))
        } else {
            seq![s]
        }
    }
}

#[via_fn]
proof fn spec_lines_decreases(s: Seq<char>) {
    lemma_first_newline_bounds(s);
}

/// Index of the first `'\n'` in `s`, or `s.len()` when there is none.
pub open spec fn first_newline(s: Seq<char>) -> int
    decreases s.len(),
{
    if s.len() == 0 {
        0
    } else if s[0] == '\n' {
        0
    } else {
        1 + first_newline(s.drop_first())
    }
}

/// `s` without a final `'\r'`, if it has one.
pub open spec fn strip_cr(s: Seq<char>) -> Seq<char> {
    if s.len() > 0 && s.last() == '\r' {
        s.drop_last()
    } else {
        s
    }
}

proof fn lemma_first_newline_bounds(s: Seq<char>)
    ensures
        0 <= first_newline(s) <= s.len(),
        forall|i: int| 0 <= i < first_newline(s) ==> s[i] != '\n',
        first_newline(s) < s.len() ==> s[first_newline(s)] == '\n',
    decreases s.len(),
{
    if s.len() > 0 && s[0] != '\n' {
        lemma_first_newline_bounds(s.drop_first());
        assert forall|i: int| 0 <= i < first_newline(s) implies s[i] != '\n' by {
            if i > 0 {
                assert(s.drop_first()[i - 1] == s[i]);
            }
        }
        if first_newline(s) < s.len() {
            assert(s.drop_first()[first_newline(s) - 1] == s[first_newline(s)]);
        }
    }
}

/// Relies on `str::chars` of std: the characters of `s`, in order, are
/// exactly the view of `s`.
#[verifier::external_body]
pub fn chars_of(s: &str) -> (r: Vec<char>)
    ensures
        r@ == s@,
{
    s.chars().collect()
}

/// Relies on `String: FromIterator<&char>` of std: collecting the
/// characters of `v` yields the string whose characters are exactly `v`.
#[verifier::external_body]
pub fn string_of(v: &Vec<char>) -> (r: String)
    ensures
        r@ == v@,
{
    v.iter().collect()
}

/// Index of the first `'\n'` at or after `from`, or `v.len()` when none.
fn find_newline(v: &Vec<char>, from: usize) -> (r: usize)
    requires
        from <= v@.len(),
    ensures
        from + first_newline(v@.skip(from as int)) == r,
{
    let mut i: usize = from;
    while i < v.len()
        invariant
            from <= i <= v@.len(),
            first_newline(v@.skip(from as int)) == (i - from) + first_newline(v@.skip(i as int)),
            forall|j: int| from <= j < i ==> v@[j] != '\n',
        decreases v@.len() - i,
    {
        proof {
            assert(v@.skip(i as int)[0] == v@[i as int]);
            assert(v@.skip(i as int).drop_first() =~= v@.skip(i as int + 1));
        }
        if v[i] == '\n' {
            return i;
        }
        i = i + 1;
    }
    proof {
        assert(v@.skip(i as int) =~= Seq::<char>::empty());
    }
    i
}

/// Splits text into lines, as `spec_lines` describes.
pub fn split_lines(v: &Vec<char>) -> (r: Vec<Vec<char>>)
    ensures
        r.deep_view() == spec_lines(v@),
{
    let mut out: Vec<Vec<char>> = Vec::new();
    let mut pos: usize = 0;
    proof {
        assert(v@.skip(0) =~= v@);
        assert(out.deep_view() + spec_lines(v@) =~= spec_lines(v@));
    }
    while pos < v.len()
        invariant
            pos <= v@.len(),
            spec_lines(v@) == out.deep_view() + spec_lines(v@.skip(pos as int)),
        decreases v@.len() - pos,
    {
        let ghost rest = v@.skip(pos as int);
        let ghost prev = out.deep_view();
        let nl = find_newline(v, pos);
        proof {
            lemma_first_newline_bounds(rest);
        }
        let line_end = if nl < v.len() && nl > pos && v[nl - 1] == '\r' {
            nl - 1
        } else {
            nl
        };
        let mut line: Vec<char> = Vec::new();
        let mut i: usize = pos;
        while i < line_end
            invariant
                pos <= i <= line_end <= v@.len(),
                line@ == v@.subrange(pos as int, i as int),
            decreases line_end - i,
        {
            line.push(v[i]);
            i = i + 1;
        }
        proof {
            assert(line@ =~= v@.subrange(pos as int, line_end as int));
            let nlr = first_newline(rest);
            assert(rest.take(nlr) =~= v@.subrange(pos as int, nl as int));
            if nl < v.len() {
                assert(strip_cr(rest.take(nlr)) =~= v@.subrange(pos as int, line_end as int));
                assert(rest.skip(nlr + 1) =~= v@.skip(nl as int + 1));
                assert(spec_lines(rest) == seq![line@] + spec_lines(v@.skip(nl as int + 1)));
            } else {
                assert(rest =~= v@.subrange(pos as int, nl as int));
                assert(spec_lines(rest) == seq![rest]);
                assert(line@ =~= rest);
            }
        }
        out.push(line);
        if nl < v.len() {
            pos = nl + 1;
        } else {
            pos = v.len();
        }
        proof {
            assert(out.deep_view() =~~= prev + seq![line@]);
            if pos == v@.len() {
                assert(v@.skip(pos as int) =~= Seq::<char>::empty());
                assert(spec_lines(rest) == seq![line@]);
                assert(prev + seq![line@] + spec_lines(v@.skip(pos as int)) =~= prev + spec_lines(
                    rest,
                ));
            } else {
                assert(prev + seq![line@] + spec_lines(v@.skip(pos as int)) =~= prev + spec_lines(
                    rest,
                ));
            }
        }
    }
    proof {
        assert(v@.skip(pos as int) =~= Seq::<char>::empty());
        assert(out.deep_view() + spec_lines(v@.skip(pos as int)) =~= out.deep_view());
    }
    out
}

proof fn lemma_trim_range(s: Seq<char>, lo: int, hi: int)
    requires
        0 <= lo <= hi <= s.len(),
        forall|i: int| 0 <= i < lo ==> is_ws(#[trigger] s[i]),
        forall|i: int| hi <= i < s.len() ==> is_ws(#[trigger] s[i]),
        lo < hi ==> !is_ws(s[lo]) && !is_ws(s[hi - 1]),
    ensures
        spec_trim(s) == s.subrange(lo, hi),
    decreases s.len(),
{
    if s.len() == 0 {
        assert(s.subrange(lo, hi) =~= s);
    } else if is_ws(s[0]) {
        let t = s.drop_first();
        if lo < hi {
            lemma_trim_range(t, lo - 1, hi - 1);
            assert(t.subrange(lo - 1, hi - 1) =~= s.subrange(lo, hi));
        } else {
            lemma_trim_range(t, 0, 0);
            assert(t.subrange(0, 0) =~= s.subrange(lo, hi));
        }
    } else if is_ws(s.last()) {
        let t = s.drop_last();
        if lo < hi {
            lemma_trim_range(t, lo, hi);
            assert(t.subrange(lo, hi) =~= s.subrange(lo, hi));
        } else {
            lemma_trim_range(t, 0, 0);
            assert(t.subrange(0, 0) =~= s.subrange(lo, hi));
        }
    } else {
        assert(lo == 0 && hi == s.len());
        assert(s.subrange(lo, hi) =~= s);
    }
}

fn is_ws_exec(c: char) -> (r: bool)
    ensures
        r == is_ws(c),
{
    c == ' ' || c == '\t' || c == '\r' || c == '\n'
}

/// Removes leading and trailing ASCII whitespace.
pub fn trim(v: &Vec<char>) -> (r: Vec<char>)
    ensures
        r@ == spec_trim(v@),
{
    let mut lo: usize = 0;
    while lo < v.len() && is_ws_exec(v[lo])
        invariant
            lo <= v@.len(),
            forall|i: int| 0 <= i < lo ==> is_ws(#[trigger] v@[i]),
        decreases v@.len() - lo,
    {
        lo = lo + 1;
    }
    let mut hi: usize = v.len();
    while hi > lo && is_ws_exec(v[hi - 1])
        invariant
            lo <= hi <= v@.len(),
            forall|i: int| 0 <= i < lo ==> is_ws(#[trigger] v@[i]),
            forall|i: int| hi <= i < v@.len() ==> is_ws(#[trigger] v@[i]),
        decreases hi,
    {
        hi = hi - 1;
    }
    let mut out: Vec<char> = Vec::new();
    let mut i: usize = lo;
    while i < hi
        invariant
            lo <= i <= hi <= v@.len(),
            out@ == v@.subrange(lo as int, i as int),
        decreases hi - i,
    {
        out.push(v[i]);
        i = i + 1;
    }
    proof {
        lemma_trim_range(v@, lo as int, hi as int);
        assert(out@ =~= v@.subrange(lo as int, hi as int));
    }
    out
}

/// Character-for-character equality of a vector against a string slice.
pub fn chars_eq_str(v: &Vec<char>, s: &str) -> (r: bool)
    ensures
        r == (v@ == s@),
{
    let w = chars_of(s);
    if v.len() != w.len() {
        proof {
            assert(v@.len() != s@.len());
        }
        return false;
    }
    let mut i: usize = 0;
    while i < v.len()
        invariant
            i <= v@.len(),
            v@.len() == w@.len(),
            w@ == s@,
            forall|j: int| 0 <= j < i ==> v@[j] == w@[j],
        decreases v@.len() - i,
    {
        if v[i] != w[i] {
            proof {
                assert(v@[i as int] != s@[i as int]);
            }
            return false;
        }
        i = i + 1;
    }
    proof {
        assert(v@ =~= s@);
    }
    true
}

/// Does `v` start with the characters of `p`?
pub open spec fn spec_has_prefix(s: Seq<char>, p: Seq<char>) -> bool {
    s.len() >= p.len() && s.take(p.len() as int) == p
}

/// Does `v` end with the characters of `p`?
pub open spec fn spec_has_suffix(s: Seq<char>, p: Seq<char>) -> bool {
    s.len() >= p.len() && s.skip(s.len() - p.len()) == p
}

/// Prefix test against a literal.
pub fn has_prefix(v: &Vec<char>, p: &str) -> (r: bool)
    ensures
        r == spec_has_prefix(v@, p@),
{
    let w = chars_of(p);
    if v.len() < w.len() {
        return false;
    }
    let mut i: usize = 0;
    while i < w.len()
        invariant
            i <= w@.len() <= v@.len(),
            w@ == p@,
            forall|j: int| 0 <= j < i ==> v@[j] == w@[j],
        decreases w@.len() - i,
    {
        if v[i] != w[i] {
            proof {
                assert(v@.take(w@.len() as int)[i as int] != w@[i as int]);
            }
            return false;
        }
        i = i + 1;
    }
    proof {
        assert(v@.take(w@.len() as int) =~= w@);
    }
    true
}

/// Suffix test against a literal.
pub fn has_suffix(v: &Vec<char>, p: &str) -> (r: bool)
    ensures
        r == spec_has_suffix(v@, p@),
{
    let w = chars_of(p);
    if v.len() < w.len() {
        return false;
    }
    let start = v.len() - w.len();
    let mut m: usize = start;
    while m < v.len()
        invariant
            start <= m <= v@.len(),
            start == v@.len() - w@.len(),
            w@ == p@,
            forall|j: int| start <= j < m ==> v@[j] == w@[j - start],
        decreases v@.len() - m,
    {
        if v[m] != w[m - start] {
            proof {
                assert(v@.skip(start as int)[m - start] != w@[m - start]);
            }
            return false;
        }
        m = m + 1;
    }
    proof {
        assert(v@.skip(start as int) =~= w@);
    }
    true
}

/// Copies the subrange `[from, to)` of `v`.
pub fn subrange_vec(v: &Vec<char>, from: usize, to: usize) -> (r: Vec<char>)
    requires
        from <= to <= v@.len(),
    ensures
        r@ == v@.subrange(from as int, to as int),
{
    let mut out: Vec<char> = Vec::new();
    let mut i: usize = from;
    while i < to
        invariant
            from <= i <= to <= v@.len(),
            out@ == v@.subrange(from as int, i as int),
        decreases to - i,
    {
        out.push(v[i]);
        i = i + 1;
    }
    proof {
        assert(out@ =~= v@.subrange(from as int, to as int));
    }
    out
}

/// Index of the first occurrence of `sep` in `s`, or `s.len()`.
pub open spec fn first_sep(s: Seq<char>, sep: char) -> int
    decreases s.len(),
{
    if s.len() == 0 {
        0
    } else if s[0] == sep {
        0
    } else {
        1 + first_sep(s.drop_first(), sep)
    }
}

pub proof fn lemma_first_sep_bounds(s: Seq<char>, sep: char)
    ensures
        0 <= first_sep(s, sep) <= s.len(),
        forall|i: int| 0 <= i < first_sep(s, sep) ==> s[i] != sep,
        first_sep(s, sep) < s.len() ==> s[first_sep(s, sep)] == sep,
    decreases s.len(),
{
    if s.len() > 0 && s[0] != sep {
        lemma_first_sep_bounds(s.drop_first(), sep);
        assert forall|i: int| 0 <= i < first_sep(s, sep) implies s[i] != sep by {
            if i > 0 {
                assert(s.drop_first()[i - 1] == s[i]);
            }
        }
        if first_sep(s, sep) < s.len() {
            assert(s.drop_first()[first_sep(s, sep) - 1] == s[first_sep(s, sep)]);
        }
    }
}

/// The segments of `s` split at `sep`, empty segments kept: splitting
/// the empty text yields one empty segment.
pub open spec fn spec_split(s: Seq<char>, sep: char) -> Seq<Seq<char>>
    decreases s.len(),
    via spec_split_decreases
{
    let i = first_sep(s, sep);
    if i < s.len() {
        seq![s.take(i)] + spec_split(s.skip(i + 1), sep)
    } else {
        seq![s]
    }
}

#[via_fn]
proof fn spec_split_decreases(s: Seq<char>, sep: char) {
    lemma_first_sep_bounds(s, sep);
}

/// Splits at a separator character, keeping empty segments.
pub fn split_char(v: &Vec<char>, sep: char) -> (r: Vec<Vec<char>>)
    ensures
        r.deep_view() == spec_split(v@, sep),
{
    let mut out: Vec<Vec<char>> = Vec::new();
    let mut pos: usize = 0;
    let mut done = false;
    proof {
        assert(v@.skip(0) =~= v@);
        assert(out.deep_view() + spec_split(v@, sep) =~= spec_split(v@, sep));
    }
    while !done
        invariant
            pos <= v@.len(),
            !done ==> spec_split(v@, sep) == out.deep_view() + spec_split(v@.skip(pos as int), sep),
            done ==> spec_split(v@, sep) == out.deep_view(),
        decreases v@.len() - pos + if done {
            0int
        } else {
            1int
        },
    {
        let ghost rest = v@.skip(pos as int);
        let ghost prev = out.deep_view();
        proof {
            lemma_first_sep_bounds(rest, sep);
        }
        let mut i: usize = pos;
        while i < v.len() && v[i] != sep
            invariant
                pos <= i <= v@.len(),
                rest == v@.skip(pos as int),
                first_sep(rest, sep) == (i - pos) + first_sep(v@.skip(i as int), sep),
                forall|j: int| pos <= j < i ==> v@[j] != sep,
            decreases v@.len() - i,
        {
            proof {
                assert(v@.skip(i as int)[0] == v@[i as int]);
                assert(v@.skip(i as int).drop_first() =~= v@.skip(i as int + 1));
            }
            i = i + 1;
        }
        proof {
            if i < v@.len() {
                assert(v@.skip(i as int)[0] == v@[i as int]);
            } else {
                assert(v@.skip(i as int) =~= Seq::<char>::empty());
            }
            assert(first_sep(rest, sep) == i - pos);
            assert(rest.take(i - pos) =~= v@.subrange(pos as int, i as int));
        }
        let seg = subrange_vec(v, pos, i);
        out.push(seg);
        proof {
            assert(out.deep_view() =~~= prev + seq![seg@]);
        }
        if i < v.len() {
            let ghost oldpos = pos as int;
            pos = i + 1;
            proof {
                assert(rest.skip(i - oldpos + 1) =~= v@.skip(pos as int));
                assert(prev + seq![seg@] + spec_split(v@.skip(pos as int), sep) =~= prev
                    + spec_split(rest, sep));
            }
        } else {
            pos = v.len();
            done = true;
            proof {
                assert(spec_split(rest, sep) == seq![seg@]);
                assert(prev + seq![seg@] =~= prev + spec_split(rest, sep));
            }
        }
    }
    out
}

pub proof fn lemma_digits_value_nonneg(s: Seq<char>)
    requires
        all_digits(s),
    ensures
        digits_value(s) >= 0,
    decreases s.len(),
{
    if s.len() > 0 {
        assert(all_digits(s.drop_last())) by {
            assert(forall|i: int|
                0 <= i < s.len() - 1 ==> is_digit(#[trigger] s.drop_last()[i]) == is_digit(s[i]));
        }
        lemma_digits_value_nonneg(s.drop_last());
    }
}

proof fn lemma_digits_value_prefix(s: Seq<char>, i: int)
    requires
        all_digits(s),
        0 <= i <= s.len(),
    ensures
        digits_value(s.take(i)) <= digits_value(s),
    decreases s.len() - i,
{
    assert(all_digits(s.take(i))) by {
        assert(forall|j: int| 0 <= j < i ==> s.take(i)[j] == s[j]);
    }
    if i < s.len() {
        lemma_digits_value_prefix(s, i + 1);
        lemma_digits_value_nonneg(s.take(i));
        assert(s.take(i + 1).drop_last() =~= s.take(i));
        assert(digits_value(s.take(i + 1)) == digits_value(s.take(i)) * 10 + digit_val(
            s.take(i + 1).last(),
        ));
    } else {
        assert(s.take(i) =~= s);
    }
}

/// Parses an unsigned decimal integer.
///
/// Returns `Some` exactly when the text is a non-empty run of decimal
/// digits whose value fits in a `u64`.
pub fn parse_u64(v: &Vec<char>) -> (r: Option<u64>)
    ensures
        r is Some <==> v@.len() > 0 && all_digits(v@) && digits_value(v@) <= u64::MAX,
        r matches Some(x) ==> x == digits_value(v@),
{
    if v.len() == 0 {
        return None;
    }
    let mut acc: u64 = 0;
    let mut i: usize = 0;
    while i < v.len()
        invariant
            0 < v@.len(),
            i <= v@.len(),
            all_digits(v@.take(i as int)),
            acc == digits_value(v@.take(i as int)),
        decreases v@.len() - i,
    {
        let c = v[i];
        if !(c >= '0' && c <= '9') {
            return None;
        }
        let d: u64 = (c as u32 - '0' as u32) as u64;
        proof {
            assert(v@.take(i as int + 1).drop_last() =~= v@.take(i as int));
            assert(forall|j: int|
                0 <= j < i + 1 ==> is_digit(#[trigger] v@.take(i as int + 1)[j]) == is_digit(
                    v@[j],
                ));
        }
        if acc > (u64::MAX - d) / 10 {
            proof {
                if all_digits(v@) {
                    lemma_digits_value_prefix(v@, i as int + 1);
                    assert(digits_value(v@.take(i as int + 1)) == acc * 10 + d);
                }
            }
            return None;
        }
        acc = acc * 10 + d;
        i = i + 1;
    }
    proof {
        assert(v@.take(i as int) =~= v@);
    }
    Some(acc)
}

} // verus!
