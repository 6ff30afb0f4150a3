//! Desktop identity: turning the current-desktop environment value into an
//! ordered list of individual desktop ids.

use vstd::prelude::*;
use crate::split::{split_on, join_with, lemma_split_on_exact};
use crate::split::split_chars;
use vstd::string::StrSliceExecFns;

verus! {

/// `ts` with its empty tokens removed, order kept.
pub open spec fn drop_empty(ts: Seq<Seq<char>>) -> Seq<Seq<char>>
    decreases ts.len(),
{
    if ts.len() == 0 {
        Seq::empty()
    } else if ts[0].len() > 0 {
        seq![ts[0]] + drop_empty(ts.skip(1))
    } else {
        drop_empty(ts.skip(1))
    }
}

/// The desktop ids named by a current-desktop value: the value split at every
/// `:`, empty tokens dropped, order kept.
pub open spec fn desktop_ids(value: Seq<char>) -> Seq<Seq<char>> {
    drop_empty(split_on(value, ':'))
}

/// No id in a desktop-id list is empty.
pub proof fn lemma_desktop_ids_nonempty(ts: Seq<Seq<char>>)
    ensures
        forall|k: int| 0 <= k < drop_empty(ts).len() ==> drop_empty(ts)[k].len() > 0,
    decreases ts.len(),
{
    if ts.len() > 0 {
        lemma_desktop_ids_nonempty(ts.skip(1));
        if ts[0].len() > 0 {
            assert forall|k: int| 0 <= k < drop_empty(ts).len() implies drop_empty(
                ts,
            )[k].len() > 0 by {
                if k > 0 {
                    assert(drop_empty(ts)[k] == drop_empty(ts.skip(1))[k - 1]);
                }
            }
        }
    }
}

/// Every id of a desktop-id list is a token of the input.
pub proof fn lemma_drop_empty_from_input(ts: Seq<Seq<char>>)
    ensures
        forall|k: int| 0 <= k < drop_empty(ts).len() ==> ts.contains(drop_empty(ts)[k]),
    decreases ts.len(),
{
    if ts.len() > 0 {
        lemma_drop_empty_from_input(ts.skip(1));
        assert forall|k: int| 0 <= k < drop_empty(ts).len() implies ts.contains(
            drop_empty(ts)[k],
        ) by {
            if ts[0].len() > 0 && k == 0 {
                assert(drop_empty(ts)[0] == ts[0]);
                assert(ts[0] == ts[0]);
            } else {
                let x = if ts[0].len() > 0 {
                    drop_empty(ts.skip(1))[k - 1]
                } else {
                    drop_empty(ts.skip(1))[k]
                };
                assert(drop_empty(ts)[k] == x);
                assert(ts.skip(1).contains(x));
                let j = choose|j: int| 0 <= j < ts.skip(1).len() && ts.skip(1)[j] == x;
                assert(ts[j + 1] == x);
            }
        }
    }
}

/// The desktop-id list splits the current-desktop value exactly on `:`:
/// the colon-split tokens rejoin to the value, no token holds a colon, and
/// the ids are exactly the nonempty tokens, in order, so no id is empty and
/// none holds a colon.
pub proof fn lemma_desktop_ids_exact(value: Seq<char>)
    ensures
        join_with(split_on(value, ':'), ':') == value,
        desktop_ids(value) == drop_empty(split_on(value, ':')),
        forall|k: int| 0 <= k < desktop_ids(value).len() ==> desktop_ids(value)[k].len() > 0,
        forall|k: int|
            0 <= k < desktop_ids(value).len() ==> !desktop_ids(value)[k].contains(':'),
{
    lemma_split_on_exact(value, ':');
    lemma_desktop_ids_nonempty(split_on(value, ':'));
    lemma_drop_empty_from_input(split_on(value, ':'));
    assert forall|k: int| 0 <= k < desktop_ids(value).len() implies !desktop_ids(
        value,
    )[k].contains(':') by {
        let toks = split_on(value, ':');
        assert(toks.contains(desktop_ids(value)[k]));
        let j = choose|j: int| 0 <= j < toks.len() && toks[j] == desktop_ids(value)[k];
        assert(!toks[j].contains(':'));
    }
}

/// Splits a well-formed current-desktop value into its desktop ids: split at
/// every `:`, empty tokens dropped, order preserved.
pub fn desktop_id_list(value: &str) -> (r: Vec<String>)
    ensures
        r.deep_view() == desktop_ids(value@),
{
    let toks = split_chars(value, ':');
    let ghost all = toks.deep_view();
    let mut r: Vec<String> = Vec::new();
    let mut i: usize = 0;
    proof {
        assert(r.deep_view() =~= Seq::<Seq<char>>::empty());
        assert(all.skip(0) =~= all);
        assert(r.deep_view() + drop_empty(all) =~= desktop_ids(value@));
    }
    while i < toks.len()
        invariant
            toks.deep_view() == all,
            i <= toks.len(),
            desktop_ids(value@) == r.deep_view() + drop_empty(all.skip(i as int)),
        decreases toks.len() - i,
    {
        proof {
            assert(all.skip(i as int).len() > 0);
            assert(all.skip(i as int)[0] == all[i as int]);
            assert(all.skip(i as int).skip(1) =~= all.skip(i as int + 1));
        }
        if !toks[i].as_str().is_empty() {
            let ghost prev = r.deep_view();
            r.push(toks[i].clone());
            proof {
                assert(r.deep_view() =~= prev + seq![all[i as int]]);
            }
        }
        i = i + 1;
    }
    proof {
        assert(all.skip(toks.len() as int).len() == 0);
        assert(r.deep_view() + drop_empty(all.skip(toks.len() as int)) =~= r.deep_view());
    }
    r
}

} // verus!
