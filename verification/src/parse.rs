//! Parsing of the version-control tool's output and of user-supplied lists:
//! the skip list, the remote candidate lister, the local merged-branch
//! lister, the exclusion filter and the merge classifier.

use vstd::prelude::*;

use crate::text::{find_char, lemma_split_at_first, split_char, str_eq, trim_bounds, trim_spec};

verus! {

/// Whitespace trimming as a sequence function, for mapping over segments.
pub open spec fn trim_fn() -> spec_fn(Seq<char>) -> Seq<char> {
    |l: Seq<char>| trim_spec(l)
}

/// Keeps the non-empty segments.
pub open spec fn nonempty_fn() -> spec_fn(Seq<char>) -> bool {
    |l: Seq<char>| l.len() > 0
}

/// The comma-separated skip list: segments trimmed, empty entries dropped.
pub open spec fn parse_skips_spec(s: Seq<char>) -> Seq<Seq<char>> {
    split_char(s, ',').map_values(trim_fn()).filter(nonempty_fn())
}

pub proof fn lemma_map_values_push<A, B>(s: Seq<A>, x: A, f: spec_fn(A) -> B)
    ensures
        s.push(x).map_values(f) == s.map_values(f).push(f(x)),
{
    assert(s.push(x).map_values(f) =~= s.map_values(f).push(f(x)));
}

pub proof fn lemma_filter_push<A>(s: Seq<A>, x: A, pred: spec_fn(A) -> bool)
    ensures
        s.push(x).filter(pred) == (if pred(x) {
            s.filter(pred).push(x)
        } else {
            s.filter(pred)
        }),
{
    reveal(Seq::filter);
    assert(s.push(x).drop_last() =~= s);
    assert(s.push(x).last() == x);
}

pub proof fn lemma_filter_all_true<A>(s: Seq<A>, pred: spec_fn(A) -> bool)
    ensures
        (forall|i: int| 0 <= i < s.len() ==> pred(s[i])) ==> s.filter(pred) == s,
    decreases s.len(),
{
    reveal(Seq::filter);
    if s.len() == 0 {
        assert(s.filter(pred) =~= s);
    } else {
        lemma_filter_all_true(s.drop_last(), pred);
        if forall|i: int| 0 <= i < s.len() ==> pred(s[i]) {
            assert(forall|i: int|
                0 <= i < s.drop_last().len() ==> pred(s.drop_last()[i]));
            assert(pred(s.last()));
            assert(s.drop_last().push(s.last()) =~= s);
        }
    }
}

/// Every element of a filtered sequence comes from the original sequence.
pub proof fn lemma_filter_subset<A>(s: Seq<A>, pred: spec_fn(A) -> bool)
    ensures
        forall|i: int| 0 <= i < s.filter(pred).len() ==> s.contains(#[trigger] s.filter(pred)[i]),
    decreases s.len(),
{
    reveal(Seq::filter);
    if s.len() > 0 {
        lemma_filter_subset(s.drop_last(), pred);
        let out = s.filter(pred);
        assert forall|i: int| 0 <= i < out.len() implies s.contains(out[i]) by {
            let sub = s.drop_last().filter(pred);
            if i < sub.len() {
                assert(sub[i] == out[i]);
                let j = choose|j: int| 0 <= j < s.drop_last().len() && s.drop_last()[j] == sub[i];
                assert(s[j] == out[i]);
            } else {
                assert(out[i] == s.last());
                assert(s[s.len() - 1] == s.last());
            }
        }
    }
}

/// `s` split on `sep`, segments kept verbatim.
pub fn split_on(s: &str, sep: char) -> (r: Vec<String>)
    ensures
        r.deep_view() == split_char(s@, sep),
{
    let n = s.unicode_len();
    let mut r: Vec<String> = Vec::new();
    let mut pos: usize = 0;
    let mut done = false;
    proof {
        assert(r.deep_view() =~= Seq::<Seq<char>>::empty());
        assert(s@.subrange(0, n as int) =~= s@);
        assert(r.deep_view() + split_char(s@, sep) =~~= split_char(s@, sep));
    }
    while !done
        invariant
            pos <= n,
            n == s@.len(),
            !done ==> split_char(s@, sep) == r.deep_view() + split_char(
                s@.subrange(pos as int, n as int),
                sep,
            ),
            done ==> split_char(s@, sep) == r.deep_view(),
        decreases n - pos + (if done { 0int } else { 1int }),
    {
        let k = find_char(s, pos, sep, n);
        let seg = s.substring_char(pos, k);
        let ghost old_dv = r.deep_view();
        r.push(String::from_str(seg));
        proof {
            let suffix = s@.subrange(pos as int, n as int);
            lemma_split_at_first(suffix, sep, k - pos);
            assert(suffix.subrange(0, k - pos) =~= s@.subrange(pos as int, k as int));
            assert(r.deep_view() =~= old_dv.push(s@.subrange(pos as int, k as int)));
            if k == n {
                assert(split_char(suffix, sep) =~= seq![s@.subrange(pos as int, k as int)]);
                assert(old_dv + split_char(suffix, sep) =~= r.deep_view());
            } else {
                assert(suffix.subrange(k - pos + 1, suffix.len() as int) =~= s@.subrange(
                    k + 1,
                    n as int,
                ));
                assert(old_dv + split_char(suffix, sep) =~= r.deep_view() + split_char(
                    s@.subrange(k + 1, n as int),
                    sep,
                ));
            }
        }
        if k == n {
            done = true;
        } else {
            pos = k + 1;
        }
    }
    r
}

/// A copy of `s` with leading and trailing whitespace removed.
pub fn trim_str(s: &str) -> (t: String)
    ensures
        t@ == trim_spec(s@),
{
    let n = s.unicode_len();
    let (lo, hi) = trim_bounds(s, 0, n);
    proof {
        assert(s@.subrange(0, n as int) =~= s@);
    }
    String::from_str(s.substring_char(lo, hi))
}

/// Parses the comma-separated skip list: entries are trimmed of whitespace
/// and empty entries are discarded; order is kept, duplicates are harmless.
pub fn parse_skips(s: &str) -> (r: Vec<String>)
    ensures
        r.deep_view() == parse_skips_spec(s@),
{
    let segs = split_on(s, ',');
    let mut r: Vec<String> = Vec::new();
    let ghost dv = segs.deep_view();
    let mut i: usize = 0;
    while i < segs.len()
        invariant
            i <= segs.len(),
            dv == segs.deep_view(),
            r.deep_view() == dv.take(i as int).map_values(trim_fn()).filter(nonempty_fn()),
        decreases segs.len() - i,
    {
        let t = trim_str(segs[i].as_str());
        let ghost old_dv = r.deep_view();
        let keep = t.as_str().unicode_len() > 0;
        if keep {
            r.push(t);
        }
        proof {
            assert(dv.take(i + 1) =~= dv.take(i as int).push(dv[i as int]));
            lemma_map_values_push(dv.take(i as int), dv[i as int], trim_fn());
            lemma_filter_push(
                dv.take(i as int).map_values(trim_fn()),
                trim_fn()(dv[i as int]),
                nonempty_fn(),
            );
            if keep {
                assert(r.deep_view() =~= old_dv.push(trim_spec(dv[i as int])));
            }
        }
        i = i + 1;
    }
    proof {
        assert(dv.take(segs.len() as int) =~= dv);
    }
    r
}

/// Does `l` start with `p`?
pub open spec fn has_prefix(l: Seq<char>, p: Seq<char>) -> bool {
    l.len() >= p.len() && l.subrange(0, p.len() as int) == p
}

/// The branch name left when the `<origin>/` prefix is stripped from a line.
pub open spec fn branch_of(l: Seq<char>, origin: Seq<char>) -> Seq<char> {
    l.subrange(origin.len() as int + 1, l.len() as int)
}

/// A trimmed line of the reference enumeration names a candidate when it
/// carries the remote's prefix and the stripped name is neither the symbolic
/// head marker nor the baseline.
pub open spec fn remote_keep_fn(origin: Seq<char>, master: Seq<char>) -> spec_fn(
    Seq<char>,
) -> bool {
    |l: Seq<char>|
        l.len() > 0 && has_prefix(l, origin.push('/')) && branch_of(l, origin) != "HEAD"@
            && branch_of(l, origin) != master
}

pub open spec fn branch_fn(origin: Seq<char>) -> spec_fn(Seq<char>) -> Seq<char> {
    |l: Seq<char>| branch_of(l, origin)
}

/// The candidate names in the remote reference enumeration `out`: each line
/// is trimmed, empty lines are dropped, only lines under `<origin>/` count,
/// and the baseline and the symbolic head marker are left out.
pub open spec fn remote_candidates_spec(
    out: Seq<char>,
    origin: Seq<char>,
    master: Seq<char>,
) -> Seq<Seq<char>> {
    split_char(out, '\n').map_values(trim_fn()).filter(remote_keep_fn(origin, master))
        .map_values(branch_fn(origin))
}

/// The branch name of `line` under `<origin>/`, or `None` when `line` does
/// not carry that prefix.
pub fn strip_remote_prefix(line: &str, origin: &str) -> (r: Option<String>)
    ensures
        match r {
            Some(b) => has_prefix(line@, origin@.push('/')) && b@ == branch_of(line@, origin@),
            None => !has_prefix(line@, origin@.push('/')),
        },
{
    let n = line.unicode_len();
    let olen = origin.unicode_len();
    let ghost p = origin@.push('/');
    if n <= olen {
        return None;
    }
    let mut j: usize = 0;
    while j < olen
        invariant
            j <= olen,
            olen < n == line@.len(),
            olen == origin@.len(),
            p == origin@.push('/'),
            forall|i: int| 0 <= i < j ==> line@[i] == p[i],
        decreases olen - j,
    {
        if line.get_char(j) != origin.get_char(j) {
            proof {
                assert(p[j as int] == origin@[j as int]);
                if has_prefix(line@, p) {
                    assert(line@.subrange(0, p.len() as int)[j as int] == p[j as int]);
                }
            }
            return None;
        }
        j = j + 1;
    }
    if line.get_char(olen) != '/' {
        proof {
            assert(p[olen as int] == '/');
            if has_prefix(line@, p) {
                assert(line@.subrange(0, p.len() as int)[olen as int] == p[olen as int]);
            }
        }
        return None;
    }
    proof {
        assert(line@.subrange(0, p.len() as int) =~= p);
    }
    Some(String::from_str(line.substring_char(olen + 1, n)))
}

/// Lists the candidate branch names in the remote reference enumeration,
/// in enumeration order.
pub fn list_remote_candidates(output: &str, origin: &str, master: &str) -> (r: Vec<String>)
    ensures
        r.deep_view() == remote_candidates_spec(output@, origin@, master@),
{
    let segs = split_on(output, '\n');
    let mut r: Vec<String> = Vec::new();
    let ghost dv = segs.deep_view();
    let ghost keepf = remote_keep_fn(origin@, master@);
    let mut i: usize = 0;
    while i < segs.len()
        invariant
            i <= segs.len(),
            dv == segs.deep_view(),
            keepf == remote_keep_fn(origin@, master@),
            r.deep_view() == dv.take(i as int).map_values(trim_fn()).filter(keepf).map_values(
                branch_fn(origin@),
            ),
        decreases segs.len() - i,
    {
        let t = trim_str(segs[i].as_str());
        let ghost old_dv = r.deep_view();
        let ghost tl = trim_spec(dv[i as int]);
        let mut kept = false;
        if t.as_str().unicode_len() > 0 {
            match strip_remote_prefix(t.as_str(), origin) {
                Some(b) => {
                    if !str_eq(b.as_str(), "HEAD") && !str_eq(b.as_str(), master) {
                        proof {
                            assert(keepf(tl));
                        }
                        r.push(b);
                        kept = true;
                    }
                },
                None => {},
            }
        }
        proof {
            assert(dv.take(i + 1) =~= dv.take(i as int).push(dv[i as int]));
            lemma_map_values_push(dv.take(i as int), dv[i as int], trim_fn());
            lemma_filter_push(dv.take(i as int).map_values(trim_fn()), tl, keepf);
            if kept {
                lemma_map_values_push(
                    dv.take(i as int).map_values(trim_fn()).filter(keepf),
                    tl,
                    branch_fn(origin@),
                );
                assert(r.deep_view() =~= old_dv.push(branch_of(tl, origin@)));
            } else {
                assert(!keepf(tl));
            }
        }
        i = i + 1;
    }
    proof {
        assert(dv.take(segs.len() as int) =~= dv);
    }
    r
}

/// Leading current-branch marker glyphs removed.
pub open spec fn strip_stars(l: Seq<char>) -> Seq<char>
    decreases l.len(),
{
    if l.len() > 0 && l[0] == '*' {
        strip_stars(l.drop_first())
    } else {
        l
    }
}

pub proof fn lemma_strip_stars_range(t: Seq<char>, m: int)
    requires
        0 <= m <= t.len(),
        forall|i: int| 0 <= i < m ==> t[i] == '*',
        m < t.len() ==> t[m] != '*',
    ensures
        strip_stars(t) == t.subrange(m, t.len() as int),
    decreases m,
{
    if m == 0 {
        assert(t.subrange(0, t.len() as int) =~= t);
    } else {
        let t1 = t.drop_first();
        lemma_strip_stars_range(t1, m - 1);
        assert(t1.subrange(m - 1, t1.len() as int) =~= t.subrange(m, t.len() as int));
    }
}

/// The marker glyph in front of the current branch is stripped before the
/// name is read.
pub proof fn lemma_marker_stripped(l: Seq<char>)
    ensures
        trim_spec(strip_stars(seq!['*'] + l)) == trim_spec(strip_stars(l)),
{
    assert((seq!['*'] + l)[0] == '*');
    assert((seq!['*'] + l).drop_first() =~= l);
}

/// The branch name read from a local-branch line: marker glyphs stripped,
/// then trimmed.
pub open spec fn local_name_fn() -> spec_fn(Seq<char>) -> Seq<char> {
    |l: Seq<char>| trim_spec(strip_stars(l))
}

pub open spec fn ne_fn(m: Seq<char>) -> spec_fn(Seq<char>) -> bool {
    |b: Seq<char>| b != m
}

/// The merged local branch names in the local-branch enumeration `out`:
/// lines trimmed, empty lines dropped, the current-branch marker stripped,
/// the baseline left out.
pub open spec fn local_merged_spec(out: Seq<char>, master: Seq<char>) -> Seq<Seq<char>> {
    split_char(out, '\n').map_values(trim_fn()).filter(nonempty_fn()).map_values(local_name_fn())
        .filter(ne_fn(master))
}

/// The branch name of one trimmed local-branch line.
pub fn local_name(line: &str) -> (r: String)
    ensures
        r@ == trim_spec(strip_stars(line@)),
{
    let n = line.unicode_len();
    let mut m: usize = 0;
    while m < n && line.get_char(m) == '*'
        invariant
            m <= n,
            n == line@.len(),
            forall|i: int| 0 <= i < m ==> line@[i] == '*',
        decreases n - m,
    {
        m = m + 1;
    }
    proof {
        lemma_strip_stars_range(line@, m as int);
    }
    let (lo, hi) = trim_bounds(line, m, n);
    proof {
        assert(line@.subrange(m as int, n as int) == strip_stars(line@));
    }
    String::from_str(line.substring_char(lo, hi))
}

/// Lists the merged local branch names in the local-branch enumeration,
/// in enumeration order.
pub fn list_local_merged(output: &str, master: &str) -> (r: Vec<String>)
    ensures
        r.deep_view() == local_merged_spec(output@, master@),
{
    let segs = split_on(output, '\n');
    let mut r: Vec<String> = Vec::new();
    let ghost dv = segs.deep_view();
    let mut i: usize = 0;
    while i < segs.len()
        invariant
            i <= segs.len(),
            dv == segs.deep_view(),
            r.deep_view() == dv.take(i as int).map_values(trim_fn()).filter(nonempty_fn())
                .map_values(local_name_fn()).filter(ne_fn(master@)),
        decreases segs.len() - i,
    {
        let t = trim_str(segs[i].as_str());
        let ghost old_dv = r.deep_view();
        let ghost tl = trim_spec(dv[i as int]);
        let mut kept = false;
        if t.as_str().unicode_len() > 0 {
            let b = local_name(t.as_str());
            if !str_eq(b.as_str(), master) {
                r.push(b);
                kept = true;
            }
        }
        proof {
            assert(dv.take(i + 1) =~= dv.take(i as int).push(dv[i as int]));
            lemma_map_values_push(dv.take(i as int), dv[i as int], trim_fn());
            lemma_filter_push(dv.take(i as int).map_values(trim_fn()), tl, nonempty_fn());
            if tl.len() > 0 {
                lemma_map_values_push(
                    dv.take(i as int).map_values(trim_fn()).filter(nonempty_fn()),
                    tl,
                    local_name_fn(),
                );
                lemma_filter_push(
                    dv.take(i as int).map_values(trim_fn()).filter(nonempty_fn()).map_values(
                        local_name_fn(),
                    ),
                    local_name_fn()(tl),
                    ne_fn(master@),
                );
                if kept {
                    assert(r.deep_view() =~= old_dv.push(trim_spec(strip_stars(tl))));
                }
            }
        }
        i = i + 1;
    }
    proof {
        assert(dv.take(segs.len() as int) =~= dv);
    }
    r
}

/// Keeps the names that are neither the baseline nor in the skip set.
pub open spec fn keep_fn(baseline: Seq<char>, skips: Seq<Seq<char>>) -> spec_fn(
    Seq<char>,
) -> bool {
    |n: Seq<char>| n != baseline && !skips.contains(n)
}

/// The exclusion filter: the candidate list with the baseline and every
/// skip-set member removed, order kept.
pub open spec fn exclude_spec(
    names: Seq<Seq<char>>,
    baseline: Seq<char>,
    skips: Seq<Seq<char>>,
) -> Seq<Seq<char>> {
    names.filter(keep_fn(baseline, skips))
}

/// Is `s` one of the names in `v`?
pub fn contains_str(v: &Vec<String>, s: &str) -> (r: bool)
    ensures
        r == v.deep_view().contains(s@),
{
    let mut i: usize = 0;
    while i < v.len()
        invariant
            i <= v.len(),
            forall|j: int| 0 <= j < i ==> v.deep_view()[j] != s@,
        decreases v.len() - i,
    {
        if str_eq(v[i].as_str(), s) {
            proof {
                assert(v.deep_view()[i as int] == s@);
            }
            return true;
        }
        i = i + 1;
    }
    false
}

/// Applies the exclusion filter: removes the baseline and every skip-set
/// member from the candidate list; a pure reordering-free pass.
pub fn exclude_skips(names: &Vec<String>, baseline: &str, skips: &Vec<String>) -> (r: Vec<String>)
    ensures
        r.deep_view() == exclude_spec(names.deep_view(), baseline@, skips.deep_view()),
{
    let mut r: Vec<String> = Vec::new();
    let ghost dv = names.deep_view();
    let ghost keepf = keep_fn(baseline@, skips.deep_view());
    let mut i: usize = 0;
    while i < names.len()
        invariant
            i <= names.len(),
            dv == names.deep_view(),
            keepf == keep_fn(baseline@, skips.deep_view()),
            r.deep_view() == dv.take(i as int).filter(keepf),
        decreases names.len() - i,
    {
        let ghost old_dv = r.deep_view();
        let mut kept = false;
        if !str_eq(names[i].as_str(), baseline) && !contains_str(skips, names[i].as_str()) {
            r.push(names[i].clone());
            kept = true;
        }
        proof {
            assert(dv.take(i + 1) =~= dv.take(i as int).push(dv[i as int]));
            lemma_filter_push(dv.take(i as int), dv[i as int], keepf);
            if kept {
                assert(r.deep_view() =~= old_dv.push(dv[i as int]));
            }
        }
        i = i + 1;
    }
    proof {
        assert(dv.take(names.len() as int) =~= dv);
    }
    r
}

/// The exclusion filter is idempotent: filtering a list twice with the same
/// baseline and skip set yields the same (order-preserved) result as once.
pub proof fn lemma_exclude_idempotent(
    names: Seq<Seq<char>>,
    baseline: Seq<char>,
    skips: Seq<Seq<char>>,
)
    ensures
        exclude_spec(exclude_spec(names, baseline, skips), baseline, skips) == exclude_spec(
            names,
            baseline,
            skips,
        ),
{
    let keepf = keep_fn(baseline, skips);
    let once = names.filter(keepf);
    assert forall|i: int| 0 <= i < once.len() implies keepf(once[i]) by {
        Seq::lemma_filter_pred(names, keepf, i);
    }
    lemma_filter_all_true(once, keepf);
}

/// The baseline, the symbolic head marker and the skip-set members never
/// appear in the remote merged-branch candidate list, whatever the
/// enumeration output held.
pub proof fn lemma_remote_list_excludes_reserved(
    out: Seq<char>,
    origin: Seq<char>,
    master: Seq<char>,
    skips: Seq<Seq<char>>,
)
    ensures
        forall|i: int|
            0 <= i < exclude_spec(remote_candidates_spec(out, origin, master), master, skips).len()
                ==> {
                let b = #[trigger] exclude_spec(
                    remote_candidates_spec(out, origin, master),
                    master,
                    skips,
                )[i];
                b != master && b != "HEAD"@ && !skips.contains(b)
            },
{
    let rc = remote_candidates_spec(out, origin, master);
    let keepf = keep_fn(master, skips);
    let res = exclude_spec(rc, master, skips);
    let lines = split_char(out, '\n').map_values(trim_fn());
    let filtered = lines.filter(remote_keep_fn(origin, master));
    assert forall|i: int| 0 <= i < res.len() implies {
        let b = #[trigger] res[i];
        b != master && b != "HEAD"@ && !skips.contains(b)
    } by {
        Seq::lemma_filter_pred(rc, keepf, i);
        lemma_filter_subset(rc, keepf);
        assert(rc.contains(res[i]));
        let j = choose|j: int| 0 <= j < rc.len() && rc[j] == res[i];
        Seq::lemma_filter_pred(lines, remote_keep_fn(origin, master), j);
        assert(rc[j] == branch_of(filtered[j], origin));
    }
}

/// The baseline and the skip-set members never appear in the local
/// merged-branch list, whatever the enumeration output held.
pub proof fn lemma_local_list_excludes_reserved(
    out: Seq<char>,
    master: Seq<char>,
    skips: Seq<Seq<char>>,
)
    ensures
        forall|i: int|
            0 <= i < exclude_spec(local_merged_spec(out, master), master, skips).len() ==> {
                let b = #[trigger] exclude_spec(local_merged_spec(out, master), master, skips)[i];
                b != master && !skips.contains(b)
            },
{
    let lm = local_merged_spec(out, master);
    let keepf = keep_fn(master, skips);
    let res = exclude_spec(lm, master, skips);
    assert forall|i: int| 0 <= i < res.len() implies {
        let b = #[trigger] res[i];
        b != master && !skips.contains(b)
    } by {
        Seq::lemma_filter_pred(lm, keepf, i);
    }
}

/// Merge verdict for one candidate from the patch-equivalence comparison:
/// merged exactly when the comparison succeeded and reported no commits
/// missing from the baseline; a failed comparison excludes the candidate
/// without aborting the sweep.
pub fn merged_verdict(comparison_ok: bool, output: &str) -> (r: bool)
    ensures
        r == (comparison_ok && output@.len() == 0),
{
    comparison_ok && output.is_empty()
}

} // verus!
