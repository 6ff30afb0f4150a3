//! Candidate collection: reading preference-list texts into candidate ids,
//! and merging configured and present ids into one ordered, deduplicated
//! candidate sequence.

use vstd::prelude::*;
use crate::split::{split_on, split_chars};
use vstd::string::StrSliceExecFns;

verus! {

/// `t` with one trailing carriage return removed, as `str::lines` strips it.
pub open spec fn strip_cr(t: Seq<char>) -> Seq<char> {
    if t.len() > 0 && t.last() == '\r' {
        t.drop_last()
    } else {
        t
    }
}

/// The raw line tokens of `s`: split at every newline, except that one
/// trailing newline ends the last line instead of opening an empty one, and
/// the empty text has no lines.
pub open spec fn raw_lines(s: Seq<char>) -> Seq<Seq<char>> {
    if s.len() == 0 {
        Seq::empty()
    } else if s.last() == '\n' {
        split_on(s.drop_last(), '\n')
    } else {
        split_on(s, '\n')
    }
}

/// The lines of `s`, as `str::lines` yields them: raw line tokens with one
/// trailing carriage return stripped from each.
pub open spec fn lines_of(s: Seq<char>) -> Seq<Seq<char>> {
    Seq::new(raw_lines(s).len(), |i: int| strip_cr(raw_lines(s)[i]))
}

/// Splits one preference-list text into its lines. Every line, a blank one
/// included, is one candidate id, taken verbatim.
pub fn lines(s: &str) -> (r: Vec<String>)
    ensures
        r.deep_view() == lines_of(s@),
{
    let n = s.unicode_len();
    if n == 0 {
        let r: Vec<String> = Vec::new();
        proof {
            assert(r.deep_view() =~= lines_of(s@));
        }
        return r;
    }
    let body = if s.get_char(n - 1) == '\n' {
        s.substring_char(0, n - 1)
    } else {
        s
    };
    proof {
        assert(s@.subrange(0, n as int - 1) =~= s@.drop_last());
        assert(split_on(body@, '\n') == raw_lines(s@));
    }
    let toks = split_chars(body, '\n');
    let ghost raw = toks.deep_view();
    let mut r: Vec<String> = Vec::new();
    let mut i: usize = 0;
    while i < toks.len()
        invariant
            toks.deep_view() == raw,
            raw == raw_lines(s@),
            i <= toks.len(),
            r.deep_view().len() == i as int,
            forall|k: int| 0 <= k < i as int ==> r.deep_view()[k] == strip_cr(raw[k]),
        decreases toks.len() - i,
    {
        let t = &toks[i];
        let m = t.as_str().unicode_len();
        let line = if m > 0 && t.as_str().get_char(m - 1) == '\r' {
            let u = t.as_str().substring_char(0, m - 1).to_owned();
            proof {
                assert(u@ =~= strip_cr(raw[i as int]));
            }
            u
        } else {
            t.clone()
        };
        let ghost prev = r.deep_view();
        r.push(line);
        proof {
            assert(line@ == strip_cr(raw[i as int]));
            assert(r.deep_view() =~= prev.push(line@));
        }
        i = i + 1;
    }
    proof {
        assert(r.deep_view() =~= lines_of(s@));
    }
    r
}

/// The candidate ids configured by a list of preference-list texts: the lines
/// of each text, in text order.
pub open spec fn configured_ids(texts: Seq<Seq<char>>) -> Seq<Seq<char>>
    decreases texts.len(),
{
    if texts.len() == 0 {
        Seq::empty()
    } else {
        lines_of(texts[0]) + configured_ids(texts.skip(1))
    }
}

/// Collects the configured candidate ids from the texts of the existing
/// preference-list files, in root-then-filename order: every line of every
/// text, in order.
pub fn configured_entries(texts: &Vec<String>) -> (r: Vec<String>)
    ensures
        r.deep_view() == configured_ids(texts.deep_view()),
{
    let ghost ts = texts.deep_view();
    let mut r: Vec<String> = Vec::new();
    let mut i: usize = 0;
    proof {
        assert(ts.skip(0) =~= ts);
        assert(r.deep_view() + configured_ids(ts) =~= configured_ids(ts));
    }
    while i < texts.len()
        invariant
            texts.deep_view() == ts,
            i <= texts.len(),
            configured_ids(ts) == r.deep_view() + configured_ids(ts.skip(i as int)),
        decreases texts.len() - i,
    {
        proof {
            assert(ts.skip(i as int).len() > 0);
            assert(ts.skip(i as int)[0] == ts[i as int]);
            assert(ts.skip(i as int).skip(1) =~= ts.skip(i as int + 1));
        }
        let ghost prev = r.deep_view();
        let mut ls = lines(texts[i].as_str());
        let ghost added = ls.deep_view();
        let mut j: usize = 0;
        while j < ls.len()
            invariant
                ls.deep_view() == added,
                j <= ls.len(),
                r.deep_view() =~= prev + added.subrange(0, j as int),
            decreases ls.len() - j,
        {
            let ghost before = r.deep_view();
            r.push(ls[j].clone());
            proof {
                assert(r.deep_view() =~= before.push(added[j as int]));
                assert(added.subrange(0, j as int + 1) =~= added.subrange(0, j as int).push(
                    added[j as int],
                ));
            }
            j = j + 1;
        }
        proof {
            assert(added.subrange(0, ls.len() as int) =~= added);
            assert(r.deep_view() + configured_ids(ts.skip(i as int + 1)) =~= prev
                + configured_ids(ts.skip(i as int)));
        }
        i = i + 1;
    }
    proof {
        assert(configured_ids(ts.skip(texts.len() as int)) =~= Seq::<Seq<char>>::empty());
        assert(r.deep_view() + Seq::<Seq<char>>::empty() =~= r.deep_view());
    }
    r
}

/// Folds one id into a dedup accumulator: kept out if already present,
/// appended otherwise.
pub open spec fn dedup_step(acc: Seq<Seq<char>>, x: Seq<char>) -> Seq<Seq<char>> {
    if acc.contains(x) {
        acc
    } else {
        acc.push(x)
    }
}

/// Folds every id of `s` into the accumulator in order: each id is appended
/// at its first occurrence and dropped at every later one.
pub open spec fn dedup_all(acc: Seq<Seq<char>>, s: Seq<Seq<char>>) -> Seq<Seq<char>>
    decreases s.len(),
{
    if s.len() == 0 {
        acc
    } else {
        dedup_all(dedup_step(acc, s[0]), s.skip(1))
    }
}

/// The merged candidate sequence: configured ids first, then present ids,
/// each id kept only at its first occurrence.
pub open spec fn candidate_seq(configured: Seq<Seq<char>>, present: Seq<Seq<char>>) -> Seq<
    Seq<char>,
> {
    dedup_all(Seq::empty(), configured + present)
}

pub proof fn lemma_dedup_all_push(acc: Seq<Seq<char>>, s: Seq<Seq<char>>, x: Seq<char>)
    ensures
        dedup_all(acc, s.push(x)) == dedup_step(dedup_all(acc, s), x),
    decreases s.len(),
{
    if s.len() == 0 {
        assert(s.push(x)[0] == x);
        assert(s.push(x).skip(1) =~= Seq::<Seq<char>>::empty());
        assert(dedup_all(acc, s.push(x)) == dedup_all(
            dedup_step(acc, x),
            Seq::<Seq<char>>::empty(),
        ));
        assert(dedup_all(dedup_step(acc, x), Seq::<Seq<char>>::empty()) == dedup_step(acc, x));
        assert(dedup_all(acc, s) == acc);
    } else {
        assert(s.push(x)[0] == s[0]);
        assert(s.push(x).skip(1) =~= s.skip(1).push(x));
        assert(dedup_all(acc, s.push(x)) == dedup_all(dedup_step(acc, s[0]), s.skip(1).push(x)));
        lemma_dedup_all_push(dedup_step(acc, s[0]), s.skip(1), x);
    }
}

pub proof fn lemma_dedup_all_append(acc: Seq<Seq<char>>, a: Seq<Seq<char>>, b: Seq<Seq<char>>)
    ensures
        dedup_all(acc, a + b) == dedup_all(dedup_all(acc, a), b),
    decreases a.len(),
{
    if a.len() == 0 {
        assert(a + b =~= b);
    } else {
        assert((a + b)[0] == a[0]);
        assert((a + b).skip(1) =~= a.skip(1) + b);
        lemma_dedup_all_append(dedup_step(acc, a[0]), a.skip(1), b);
    }
}

/// Whether a sequence of ids holds no id twice.
pub open spec fn distinct(s: Seq<Seq<char>>) -> bool {
    forall|i: int, j: int| 0 <= i < j < s.len() ==> s[i] != s[j]
}

/// Deduplication keeps the accumulator distinct: the candidate sequence
/// never holds the same id twice.
pub proof fn lemma_dedup_distinct(acc: Seq<Seq<char>>, s: Seq<Seq<char>>)
    requires
        distinct(acc),
    ensures
        distinct(dedup_all(acc, s)),
    decreases s.len(),
{
    if s.len() > 0 {
        let acc2 = dedup_step(acc, s[0]);
        assert(distinct(acc2)) by {
            if !acc.contains(s[0]) {
                assert forall|i: int, j: int| 0 <= i < j < acc2.len() implies acc2[i]
                    != acc2[j] by {
                    if j == acc.len() as int {
                        assert(acc2[i] == acc[i]);
                    }
                }
            }
        }
        lemma_dedup_distinct(acc2, s.skip(1));
    }
}

/// An id stands in the deduplicated sequence exactly when it stood in the
/// accumulator or in the input.
pub proof fn lemma_dedup_contains(acc: Seq<Seq<char>>, s: Seq<Seq<char>>, x: Seq<char>)
    ensures
        dedup_all(acc, s).contains(x) <==> acc.contains(x) || s.contains(x),
    decreases s.len(),
{
    if s.len() == 0 {
    } else {
        let acc2 = dedup_step(acc, s[0]);
        lemma_dedup_contains(acc2, s.skip(1), x);
        assert(acc2.contains(x) <==> acc.contains(x) || x == s[0]) by {
            if !acc.contains(s[0]) {
                if x == s[0] {
                    assert(acc.push(s[0])[acc.len() as int] == s[0]);
                }
                if acc.contains(x) {
                    let i = choose|i: int| 0 <= i < acc.len() && acc[i] == x;
                    assert(acc.push(s[0])[i] == x);
                }
                if acc.push(s[0]).contains(x) {
                    let i = choose|i: int|
                        0 <= i < acc.push(s[0]).len() && acc.push(s[0])[i] == x;
                    if i < acc.len() {
                        assert(acc[i] == x);
                    }
                }
            }
        }
        assert(s.skip(1).contains(x) || x == s[0] <==> s.contains(x)) by {
            if s.skip(1).contains(x) {
                let i = choose|i: int| 0 <= i < s.skip(1).len() && s.skip(1)[i] == x;
                assert(s[i + 1] == x);
            }
            if s.contains(x) && x != s[0] {
                let i = choose|i: int| 0 <= i < s.len() && s[i] == x;
                assert(s.skip(1)[i - 1] == x);
            }
        }
    }
}

/// Deduplication only appends: what the accumulator already held stays,
/// in place, so configured ids precede present ids in the merged sequence.
pub proof fn lemma_dedup_extends(acc: Seq<Seq<char>>, s: Seq<Seq<char>>)
    ensures
        dedup_all(acc, s).len() >= acc.len(),
        forall|i: int| 0 <= i < acc.len() ==> dedup_all(acc, s)[i] == acc[i],
    decreases s.len(),
{
    if s.len() > 0 {
        let acc2 = dedup_step(acc, s[0]);
        lemma_dedup_extends(acc2, s.skip(1));
        assert(forall|i: int| 0 <= i < acc.len() ==> acc2[i] == acc[i]);
    }
}

/// The position of the first occurrence of `x` in `s`.
pub open spec fn first_index(s: Seq<Seq<char>>, x: Seq<char>) -> int
    decreases s.len(),
{
    if s.len() == 0 {
        0
    } else if s[0] == x {
        0
    } else {
        1 + first_index(s.skip(1), x)
    }
}

pub proof fn lemma_first_index_in(s: Seq<Seq<char>>, x: Seq<char>)
    requires
        s.contains(x),
    ensures
        0 <= first_index(s, x) < s.len(),
        s[first_index(s, x)] == x,
    decreases s.len(),
{
    if s[0] != x {
        let i = choose|i: int| 0 <= i < s.len() && s[i] == x;
        assert(s.skip(1)[i - 1] == x);
        lemma_first_index_in(s.skip(1), x);
    }
}

pub proof fn lemma_first_index_push(s: Seq<Seq<char>>, x: Seq<char>, y: Seq<char>)
    requires
        s.contains(y),
    ensures
        first_index(s.push(x), y) == first_index(s, y),
    decreases s.len(),
{
    assert(s.push(x)[0] == s[0]);
    if s[0] != y {
        let i = choose|i: int| 0 <= i < s.len() && s[i] == y;
        assert(s.skip(1)[i - 1] == y);
        assert(s.push(x).skip(1) =~= s.skip(1).push(x));
        lemma_first_index_push(s.skip(1), x, y);
    }
}

pub proof fn lemma_first_index_new(s: Seq<Seq<char>>, x: Seq<char>)
    requires
        !s.contains(x),
    ensures
        first_index(s.push(x), x) == s.len(),
    decreases s.len(),
{
    if s.len() == 0 {
        assert(s.push(x)[0] == x);
    } else {
        assert(s[0] != x);
        assert(s.push(x)[0] == s[0]);
        assert(s.push(x).skip(1) =~= s.skip(1).push(x));
        assert(!s.skip(1).contains(x)) by {
            if s.skip(1).contains(x) {
                let i = choose|i: int| 0 <= i < s.skip(1).len() && s.skip(1)[i] == x;
                assert(s[i + 1] == x);
            }
        }
        lemma_first_index_new(s.skip(1), x);
    }
}

/// Deduplication keeps ids in the order of their first occurrences in the
/// input: an id seen earlier stands before one seen later.
pub proof fn lemma_dedup_first_occurrence_order(u: Seq<Seq<char>>)
    ensures
        forall|i: int, j: int|
            0 <= i < j < dedup_all(Seq::empty(), u).len() ==> first_index(
                u,
                dedup_all(Seq::empty(), u)[i],
            ) < first_index(u, dedup_all(Seq::empty(), u)[j]),
    decreases u.len(),
{
    if u.len() > 0 {
        let v = u.drop_last();
        let x = u.last();
        assert(u =~= v.push(x));
        lemma_dedup_all_push(Seq::<Seq<char>>::empty(), v, x);
        lemma_dedup_first_occurrence_order(v);
        let rv = dedup_all(Seq::<Seq<char>>::empty(), v);
        let r = dedup_all(Seq::<Seq<char>>::empty(), u);
        assert(r == dedup_step(rv, x));
        assert forall|k: int| 0 <= k < rv.len() implies v.contains(rv[k]) by {
            assert(rv.contains(rv[k]));
            lemma_dedup_contains(Seq::<Seq<char>>::empty(), v, rv[k]);
        }
        assert forall|i: int, j: int| 0 <= i < j < r.len() implies first_index(u, r[i])
            < first_index(u, r[j]) by {
            if !rv.contains(x) && j == rv.len() {
                assert(r[i] == rv[i]);
                assert(r[j] == x);
                assert(!v.contains(x)) by {
                    lemma_dedup_contains(Seq::<Seq<char>>::empty(), v, x);
                }
                lemma_first_index_new(v, x);
                lemma_first_index_push(v, x, rv[i]);
                lemma_first_index_in(v, rv[i]);
            } else {
                assert(r[i] == rv[i]);
                assert(r[j] == rv[j]);
                lemma_first_index_push(v, x, rv[i]);
                lemma_first_index_push(v, x, rv[j]);
            }
        }
    }
}

/// The candidate sequence holds no id twice, holds exactly the ids of its
/// input, and keeps them in the order of their first occurrences across the
/// configured ids followed by the present ids.
pub proof fn lemma_candidate_seq_correct(c: Seq<Seq<char>>, p: Seq<Seq<char>>)
    ensures
        distinct(candidate_seq(c, p)),
        forall|x: Seq<char>| #[trigger] candidate_seq(c, p).contains(x) <==> (c + p).contains(x),
        forall|i: int, j: int|
            0 <= i < j < candidate_seq(c, p).len() ==> first_index(c + p, candidate_seq(c, p)[i])
                < first_index(c + p, candidate_seq(c, p)[j]),
{
    lemma_dedup_distinct(Seq::empty(), c + p);
    assert forall|x: Seq<char>| #[trigger] candidate_seq(c, p).contains(x) <==> (c + p).contains(
        x,
    ) by {
        lemma_dedup_contains(Seq::empty(), c + p, x);
    }
    lemma_dedup_first_occurrence_order(c + p);
}

/// Checks whether `x` already stands among the ids of `v`.
pub fn contains_id(v: &Vec<String>, x: &String) -> (r: bool)
    ensures
        r == v.deep_view().contains(x@),
{
    let mut j: usize = 0;
    while j < v.len()
        invariant
            j <= v.len(),
            forall|k: int| 0 <= k < j as int ==> v.deep_view()[k] != x@,
        decreases v.len() - j,
    {
        if v[j] == *x {
            proof {
                assert(v.deep_view()[j as int] == x@);
            }
            return true;
        }
        j = j + 1;
    }
    false
}

/// Appends every id of `items` that the sequence does not yet hold, in order.
fn dedup_push_all(out: &mut Vec<String>, items: &Vec<String>)
    ensures
        final (out).deep_view() == dedup_all(old(out).deep_view(), items.deep_view()),
{
    let ghost base = out.deep_view();
    let ghost its = items.deep_view();
    let mut j: usize = 0;
    proof {
        assert(its.subrange(0, 0) =~= Seq::<Seq<char>>::empty());
    }
    while j < items.len()
        invariant
            items.deep_view() == its,
            j <= items.len(),
            out.deep_view() == dedup_all(base, its.subrange(0, j as int)),
        decreases items.len() - j,
    {
        proof {
            lemma_dedup_all_push(base, its.subrange(0, j as int), its[j as int]);
            assert(its.subrange(0, j as int + 1) =~= its.subrange(0, j as int).push(
                its[j as int],
            ));
        }
        let ghost prev = out.deep_view();
        if !contains_id(out, &items[j]) {
            out.push(items[j].clone());
            proof {
                assert(out.deep_view() =~= prev.push(its[j as int]));
            }
        }
        j = j + 1;
    }
    proof {
        assert(its.subrange(0, items.len() as int) =~= its);
    }
}

/// Merges configured and present candidate ids into the candidate sequence:
/// configured ids first, then present ids, each id kept only at its first
/// occurrence, later duplicates dropped silently.
pub fn candidate_sequence(configured: &Vec<String>, present: &Vec<String>) -> (r: Vec<String>)
    ensures
        r.deep_view() == candidate_seq(configured.deep_view(), present.deep_view()),
{
    let mut out: Vec<String> = Vec::new();
    proof {
        assert(out.deep_view() =~= Seq::<Seq<char>>::empty());
    }
    dedup_push_all(&mut out, configured);
    dedup_push_all(&mut out, present);
    proof {
        lemma_dedup_all_append(
            Seq::empty(),
            configured.deep_view(),
            present.deep_view(),
        );
    }
    out
}

} // verus!
