//! Character-level groundwork: whitespace trimming, splitting on a separator,
//! and exact string comparison, with the lemmas that connect a scanning loop
//! to the recursive definitions.

use vstd::prelude::*;

verus! {

/// The whitespace forms that the tool's output can carry around a name.
pub open spec fn is_space_char(c: char) -> bool {
    c == ' ' || c == '\t' || c == '\r' || c == '\n'
}

/// Executable test matching `is_space_char`.
pub fn is_space(c: char) -> (r: bool)
    ensures
        r == is_space_char(c),
{
    c == ' ' || c == '\t' || c == '\r' || c == '\n'
}

/// `s` with leading and trailing whitespace removed.
pub open spec fn trim_spec(s: Seq<char>) -> Seq<char>
    decreases s.len(),
{
    if s.len() > 0 && is_space_char(s[0]) {
        trim_spec(s.drop_first())
    } else if s.len() > 0 && is_space_char(s.last()) {
        trim_spec(s.drop_last())
    } else {
        s
    }
}

/// `s` split on `sep`.  A separator at either end or two in a row contribute
/// empty segments; the result always has at least one segment.
pub open spec fn split_char(s: Seq<char>, sep: char) -> Seq<Seq<char>>
    decreases s.len(),
{
    if s.len() == 0 {
        seq![Seq::<char>::empty()]
    } else if s[0] == sep {
        seq![Seq::<char>::empty()] + split_char(s.drop_first(), sep)
    } else {
        let rest = split_char(s.drop_first(), sep);
        seq![seq![s[0]] + rest[0]] + rest.drop_first()
    }
}

pub proof fn lemma_split_char_nonempty(s: Seq<char>, sep: char)
    ensures
        split_char(s, sep).len() >= 1,
    decreases s.len(),
{
    if s.len() > 0 {
        lemma_split_char_nonempty(s.drop_first(), sep);
    }
}

/// If `s` has no separator before position `k`, and one at `k` unless `k` is
/// the end, then the split is the first `k` characters followed by the split
/// of what comes after the separator.
pub proof fn lemma_split_at_first(s: Seq<char>, sep: char, k: int)
    requires
        0 <= k <= s.len(),
        forall|i: int| 0 <= i < k ==> s[i] != sep,
        k < s.len() ==> s[k] == sep,
    ensures
        split_char(s, sep) == seq![s.subrange(0, k)] + (if k == s.len() {
            Seq::<Seq<char>>::empty()
        } else {
            split_char(s.subrange(k + 1, s.len() as int), sep)
        }),
    decreases s.len(),
{
    if k == 0 {
        if s.len() == 0 {
            assert(split_char(s, sep) =~~= seq![s.subrange(0, 0)]
                + Seq::<Seq<char>>::empty());
        } else {
            assert(s.drop_first() =~= s.subrange(1, s.len() as int));
            assert(split_char(s, sep) =~~= seq![s.subrange(0, 0)] + split_char(
                s.subrange(1, s.len() as int),
                sep,
            ));
        }
    } else {
        let s1 = s.drop_first();
        lemma_split_char_nonempty(s1, sep);
        lemma_split_at_first(s1, sep, k - 1);
        let rest = split_char(s1, sep);
        assert(rest[0] == s1.subrange(0, k - 1));
        assert(seq![s[0]] + s1.subrange(0, k - 1) =~= s.subrange(0, k));
        if k == s.len() {
            assert(rest.drop_first() =~~= Seq::<Seq<char>>::empty());
            assert(split_char(s, sep) =~~= seq![s.subrange(0, k)]
                + Seq::<Seq<char>>::empty());
        } else {
            assert(s1.subrange(k, s1.len() as int) =~= s.subrange(k + 1, s.len() as int));
            assert(rest.drop_first() =~~= split_char(
                s.subrange(k + 1, s.len() as int),
                sep,
            ));
            assert(split_char(s, sep) =~~= seq![s.subrange(0, k)] + split_char(
                s.subrange(k + 1, s.len() as int),
                sep,
            ));
        }
    }
}

pub proof fn lemma_trim_all_spaces(t: Seq<char>)
    requires
        forall|i: int| 0 <= i < t.len() ==> is_space_char(t[i]),
    ensures
        trim_spec(t) == Seq::<char>::empty(),
    decreases t.len(),
{
    if t.len() == 0 {
        assert(t =~= Seq::<char>::empty());
    } else {
        lemma_trim_all_spaces(t.drop_first());
    }
}

/// The trimmed text is exactly the range left after stepping past leading and
/// trailing whitespace.
pub proof fn lemma_trim_range(t: Seq<char>, lo: int, hi: int)
    requires
        0 <= lo <= hi <= t.len(),
        forall|i: int| 0 <= i < lo ==> is_space_char(t[i]),
        forall|i: int| hi <= i < t.len() ==> is_space_char(t[i]),
        lo < hi ==> !is_space_char(t[lo]) && !is_space_char(t[hi - 1]),
    ensures
        trim_spec(t) == t.subrange(lo, hi),
    decreases t.len(),
{
    if lo == hi {
        lemma_trim_all_spaces(t);
        assert(t.subrange(lo, hi) =~= Seq::<char>::empty());
    } else {
        if is_space_char(t[0]) {
            let t1 = t.drop_first();
            lemma_trim_range(t1, lo - 1, hi - 1);
            assert(t1.subrange(lo - 1, hi - 1) =~= t.subrange(lo, hi));
        } else {
            if is_space_char(t.last()) {
                let t1 = t.drop_last();
                lemma_trim_range(t1, lo, hi);
                assert(t1.subrange(lo, hi) =~= t.subrange(lo, hi));
            } else {
                assert(t.subrange(0, t.len() as int) =~= t);
            }
        }
    }
}

/// Position of the first `sep` at or after `from`, or `n` when there is none.
pub fn find_char(s: &str, from: usize, sep: char, n: usize) -> (k: usize)
    requires
        n == s@.len(),
        from <= n,
    ensures
        from <= k <= n,
        forall|i: int| from <= i < k ==> s@[i] != sep,
        k < n ==> s@[k as int] == sep,
{
    let mut k = from;
    while k < n && s.get_char(k) != sep
        invariant
            from <= k <= n,
            n == s@.len(),
            forall|i: int| from <= i < k ==> s@[i] != sep,
        decreases n - k,
    {
        k = k + 1;
    }
    k
}

/// Bounds of the whitespace-trimmed text inside `s@.subrange(from, to)`:
/// the trimmed text is `s@.subrange(r.0, r.1)`.
pub fn trim_bounds(s: &str, from: usize, to: usize) -> (r: (usize, usize))
    requires
        from <= to <= s@.len(),
    ensures
        from <= r.0 <= r.1 <= to,
        trim_spec(s@.subrange(from as int, to as int)) == s@.subrange(
            r.0 as int,
            r.1 as int,
        ),
{
    let mut lo = from;
    while lo < to && is_space(s.get_char(lo))
        invariant
            from <= lo <= to <= s@.len(),
            forall|i: int| from <= i < lo ==> is_space_char(s@[i]),
        decreases to - lo,
    {
        lo = lo + 1;
    }
    let mut hi = to;
    while hi > lo && is_space(s.get_char(hi - 1))
        invariant
            from <= lo <= hi <= to <= s@.len(),
            forall|i: int| from <= i < lo ==> is_space_char(s@[i]),
            forall|i: int| hi <= i < to ==> is_space_char(s@[i]),
            lo < to ==> !is_space_char(s@[lo as int]),
        decreases hi - lo,
    {
        hi = hi - 1;
    }
    proof {
        let t = s@.subrange(from as int, to as int);
        lemma_trim_range(t, lo - from, hi - from);
        assert(t.subrange(lo - from, hi - from) =~= s@.subrange(lo as int, hi as int));
    }
    (lo, hi)
}

/// Character-for-character equality of two string slices.
pub fn str_eq(a: &str, b: &str) -> (r: bool)
    ensures
        r == (a@ == b@),
{
    let na = a.unicode_len();
    let nb = b.unicode_len();
    if na != nb {
        return false;
    }
    let mut i: usize = 0;
    while i < na
        invariant
            i <= na,
            na == a@.len(),
            na == b@.len(),
            forall|j: int| 0 <= j < i ==> a@[j] == b@[j],
        decreases na - i,
    {
        if a.get_char(i) != b.get_char(i) {
            return false;
        }
        i = i + 1;
    }
    proof {
        assert(a@ =~= b@);
    }
    true
}

} // verus!
