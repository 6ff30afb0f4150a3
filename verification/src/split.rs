//! Splitting character sequences at a separator, the shared core of
//! desktop-id lists, preference-list lines and semicolon-separated
//! desktop-id attributes.

use vstd::prelude::*;
use vstd::string::StrSliceExecFns;

verus! {

/// The tokens of `cur + s` split at every `sep`, with `cur` the partial token
/// already read. Every separator ends a token, so the result always holds one
/// more token than `s` holds separators.
pub open spec fn split_acc(s: Seq<char>, sep: char, cur: Seq<char>) -> Seq<Seq<char>>
    decreases s.len(),
{
    if s.len() == 0 {
        seq![cur]
    } else if s[0] == sep {
        seq![cur] + split_acc(s.skip(1), sep, Seq::empty())
    } else {
        split_acc(s.skip(1), sep, cur.push(s[0]))
    }
}

/// The tokens of `s` split at every `sep`, as `str::split` yields them:
/// the empty sequence gives one empty token, and a leading, trailing or
/// doubled separator gives an empty token at that place.
pub open spec fn split_on(s: Seq<char>, sep: char) -> Seq<Seq<char>> {
    split_acc(s, sep, Seq::empty())
}

/// The tokens joined back together with `sep` between each two.
pub open spec fn join_with(ts: Seq<Seq<char>>, sep: char) -> Seq<char>
    decreases ts.len(),
{
    if ts.len() == 0 {
        Seq::empty()
    } else if ts.len() == 1 {
        ts[0]
    } else {
        ts[0] + seq![sep] + join_with(ts.skip(1), sep)
    }
}

pub proof fn lemma_split_acc_len(s: Seq<char>, sep: char, cur: Seq<char>)
    ensures
        split_acc(s, sep, cur).len() >= 1,
    decreases s.len(),
{
    if s.len() > 0 {
        if s[0] == sep {
            lemma_split_acc_len(s.skip(1), sep, Seq::empty());
        } else {
            lemma_split_acc_len(s.skip(1), sep, cur.push(s[0]));
        }
    }
}

pub proof fn lemma_split_acc_rejoins(s: Seq<char>, sep: char, cur: Seq<char>)
    ensures
        join_with(split_acc(s, sep, cur), sep) == cur + s,
    decreases s.len(),
{
    if s.len() == 0 {
        assert(join_with(split_acc(s, sep, cur), sep) =~= cur + s);
    } else if s[0] == sep {
        lemma_split_acc_rejoins(s.skip(1), sep, Seq::empty());
        lemma_split_acc_len(s.skip(1), sep, Seq::empty());
        let rest = split_acc(s.skip(1), sep, Seq::empty());
        let whole = seq![cur] + rest;
        assert(whole[0] == cur);
        assert(whole.skip(1) =~= rest);
        assert(whole.len() > 1);
        assert(join_with(whole, sep) == cur + seq![sep] + join_with(rest, sep));
        assert(Seq::<char>::empty() + s.skip(1) =~= s.skip(1));
        assert(cur + seq![sep] + s.skip(1) =~= cur + s);
    } else {
        lemma_split_acc_rejoins(s.skip(1), sep, cur.push(s[0]));
        assert(cur.push(s[0]) + s.skip(1) =~= cur + s);
    }
}

pub proof fn lemma_split_acc_no_sep(s: Seq<char>, sep: char, cur: Seq<char>)
    requires
        !cur.contains(sep),
    ensures
        forall|k: int|
            0 <= k < split_acc(s, sep, cur).len() ==> !split_acc(s, sep, cur)[k].contains(sep),
    decreases s.len(),
{
    if s.len() == 0 {
        assert forall|k: int| 0 <= k < split_acc(s, sep, cur).len() implies !split_acc(
            s,
            sep,
            cur,
        )[k].contains(sep) by {
            assert(split_acc(s, sep, cur) == seq![cur]);
            assert(split_acc(s, sep, cur)[k] == cur);
        }
    } else if s[0] == sep {
        lemma_split_acc_no_sep(s.skip(1), sep, Seq::empty());
        let rest = split_acc(s.skip(1), sep, Seq::empty());
        let whole = seq![cur] + rest;
        assert forall|k: int| 0 <= k < split_acc(s, sep, cur).len() implies !split_acc(
            s,
            sep,
            cur,
        )[k].contains(sep) by {
            assert(split_acc(s, sep, cur) == whole);
            if k == 0 {
                assert(whole[k] == cur);
            } else {
                assert(whole[k] == rest[k - 1]);
            }
        }
    } else {
        assert(!cur.push(s[0]).contains(sep)) by {
            if cur.push(s[0]).contains(sep) {
                let i = choose|i: int|
                    0 <= i < cur.push(s[0]).len() && cur.push(s[0])[i] == sep;
                if i < cur.len() {
                    assert(cur[i] == sep);
                }
            }
        }
        lemma_split_acc_no_sep(s.skip(1), sep, cur.push(s[0]));
        assert forall|k: int| 0 <= k < split_acc(s, sep, cur).len() implies !split_acc(
            s,
            sep,
            cur,
        )[k].contains(sep) by {
            assert(split_acc(s, sep, cur)[k] == split_acc(s.skip(1), sep, cur.push(s[0]))[k]);
        }
    }
}

/// Splitting is exact: no token holds the separator, and joining the tokens
/// back with the separator gives the input again.
pub proof fn lemma_split_on_exact(s: Seq<char>, sep: char)
    ensures
        join_with(split_on(s, sep), sep) == s,
        forall|k: int|
            0 <= k < split_on(s, sep).len() ==> !split_on(s, sep)[k].contains(sep),
{
    lemma_split_acc_rejoins(s, sep, Seq::empty());
    assert(Seq::<char>::empty() + s =~= s);
    lemma_split_acc_no_sep(s, sep, Seq::empty());
}

/// Splits `s` at every occurrence of `sep`, keeping empty tokens.
pub fn split_chars(s: &str, sep: char) -> (r: Vec<String>)
    ensures
        r.deep_view() == split_on(s@, sep),
{
    let n = s.unicode_len();
    let mut r: Vec<String> = Vec::new();
    let mut start: usize = 0;
    let mut i: usize = 0;
    proof {
        assert(r.deep_view() =~= Seq::<Seq<char>>::empty());
        assert(s@.skip(0) =~= s@);
        assert(s@.subrange(0, 0) =~= Seq::<char>::empty());
        assert(r.deep_view() + split_acc(s@, sep, Seq::empty()) =~= split_on(s@, sep));
    }
    while i < n
        invariant
            n == s@.len(),
            start <= i <= n,
            split_on(s@, sep) == r.deep_view() + split_acc(
                s@.skip(i as int),
                sep,
                s@.subrange(start as int, i as int),
            ),
        decreases n - i,
    {
        let ghost cur = s@.subrange(start as int, i as int);
        proof {
            assert(s@.skip(i as int).len() > 0);
            assert(s@.skip(i as int)[0] == s@[i as int]);
            assert(s@.skip(i as int).skip(1) =~= s@.skip(i as int + 1));
        }
        let c = s.get_char(i);
        if c == sep {
            let ghost prev = r.deep_view();
            proof {
                assert(split_acc(s@.skip(i as int), sep, cur) == seq![cur] + split_acc(
                    s@.skip(i as int + 1),
                    sep,
                    Seq::empty(),
                ));
            }
            let tok = s.substring_char(start, i).to_owned();
            r.push(tok);
            proof {
                assert(r.deep_view() =~= prev + seq![cur]);
                assert(s@.subrange(i as int + 1, i as int + 1) =~= Seq::<char>::empty());
            }
            start = i + 1;
        } else {
            proof {
                assert(split_acc(s@.skip(i as int), sep, cur) == split_acc(
                    s@.skip(i as int + 1),
                    sep,
                    cur.push(s@[i as int]),
                ));
                assert(cur.push(s@[i as int]) =~= s@.subrange(start as int, i as int + 1));
            }
        }
        i = i + 1;
    }
    let ghost cur = s@.subrange(start as int, n as int);
    let ghost prev = r.deep_view();
    proof {
        assert(s@.skip(n as int).len() == 0);
        assert(split_acc(s@.skip(n as int), sep, cur) == seq![cur]);
    }
    let tok = s.substring_char(start, n).to_owned();
    r.push(tok);
    proof {
        assert(r.deep_view() =~= prev + seq![cur]);
    }
    r
}

} // verus!
