//! Launch-command construction and the try-in-order fallback plan over the
//! candidate sequence.

use vstd::prelude::*;
use crate::descriptor::{Descriptor, DescriptorView, accepted, descriptor_of, parse_ok};
use crate::descriptor::{parse_descriptor, passes_filter};
use vstd::string::StringExecFns;

verus! {

/// The items joined by single spaces, in order.
pub open spec fn joined(items: Seq<Seq<char>>) -> Seq<char>
    decreases items.len(),
{
    if items.len() == 0 {
        Seq::empty()
    } else if items.len() == 1 {
        items[0]
    } else {
        joined(items.drop_last()) + " "@ + items.last()
    }
}

/// The exec-arg flag a descriptor resolves to: `X-ExecArg` first, then
/// `ExecArg`, then the default `-e`.
pub open spec fn exec_flag(d: DescriptorView) -> Seq<char> {
    if d.x_exec_arg is Some {
        d.x_exec_arg->0
    } else if d.exec_arg is Some {
        d.exec_arg->0
    } else {
        "-e"@
    }
}

/// The shell command for a passing descriptor and the process's extra
/// arguments: `Exec` verbatim when there are no extra arguments, else
/// `Exec`, the exec-arg flag, and each extra argument, space-joined.
pub open spec fn launch_command(d: DescriptorView, args: Seq<Seq<char>>) -> Seq<char>
    recommends
        d.exec_cmd is Some,
{
    if args.len() == 0 {
        d.exec_cmd->0
    } else {
        joined(seq![d.exec_cmd->0, exec_flag(d)] + args)
    }
}

/// Joins items with single spaces.
fn join_spaced(items: &Vec<String>) -> (r: String)
    ensures
        r@ == joined(items.deep_view()),
{
    let ghost its = items.deep_view();
    let mut out = String::new();
    let mut i: usize = 0;
    proof {
        assert(its.subrange(0, 0) =~= Seq::<Seq<char>>::empty());
        assert(out@ =~= joined(its.subrange(0, 0)));
    }
    while i < items.len()
        invariant
            items.deep_view() == its,
            i <= items.len(),
            out@ == joined(its.subrange(0, i as int)),
        decreases items.len() - i,
    {
        let ghost prev = out@;
        if i > 0 {
            out.append(" ");
        }
        out.append(items[i].as_str());
        proof {
            let upto = its.subrange(0, i as int + 1);
            assert(upto.drop_last() =~= its.subrange(0, i as int));
            assert(upto.last() == its[i as int]);
            if i == 0 {
                assert(out@ =~= joined(upto));
            } else {
                assert(out@ =~= joined(upto.drop_last()) + " "@ + upto.last());
            }
        }
        i = i + 1;
    }
    proof {
        assert(its.subrange(0, items.len() as int) =~= its);
    }
    out
}

/// Builds the shell command for a descriptor and the extra arguments.
/// Returns `None` exactly when the required `Exec` attribute is absent:
/// such a malformed descriptor fails only its own candidate.
pub fn build_command(d: &Descriptor, args: &Vec<String>) -> (r: Option<String>)
    ensures
        r is Some <==> d@.exec_cmd is Some,
        (r matches Some(c) ==> c@ == launch_command(d@, args.deep_view())),
{
    let e = match &d.exec_cmd {
        Some(e) => e,
        None => { return None; },
    };
    if args.len() == 0 {
        proof {
            assert(args.deep_view().len() == 0);
        }
        return Some(e.clone());
    }
    let flag = match &d.x_exec_arg {
        Some(x) => x.clone(),
        None => match &d.exec_arg {
            Some(x) => x.clone(),
            None => String::from_str("-e"),
        },
    };
    let mut items: Vec<String> = Vec::new();
    items.push(e.clone());
    items.push(flag);
    let ghost head = items.deep_view();
    proof {
        assert(head =~= seq![d@.exec_cmd->0, exec_flag(d@)]);
    }
    let mut j: usize = 0;
    while j < args.len()
        invariant
            j <= args.len(),
            items.deep_view() =~= head + args.deep_view().subrange(0, j as int),
            head == seq![d@.exec_cmd->0, exec_flag(d@)],
        decreases args.len() - j,
    {
        let ghost prev = items.deep_view();
        items.push(args[j].clone());
        proof {
            assert(items.deep_view() =~= prev.push(args.deep_view()[j as int]));
            assert(args.deep_view().subrange(0, j as int + 1) =~= args.deep_view().subrange(
                0,
                j as int,
            ).push(args.deep_view()[j as int]));
        }
        j = j + 1;
    }
    proof {
        assert(args.deep_view().subrange(0, args.len() as int) =~= args.deep_view());
    }
    Some(join_spaced(&items))
}

/// What one candidate's descriptor bytes come to, given whether its
/// `TryExec` binary (if named) resolves: the shell command to attempt, or
/// nothing when the descriptor is rejected or lacks `Exec`.
pub open spec fn candidate_outcome(
    d: DescriptorView,
    desktops: Seq<Seq<char>>,
    try_exec_found: bool,
    args: Seq<Seq<char>>,
) -> Option<Seq<char>> {
    if accepted(d, desktops, try_exec_found) && d.exec_cmd is Some {
        Some(launch_command(d, args))
    } else {
        None
    }
}

/// Resolves one candidate's descriptor bytes to the shell command to
/// attempt, or to nothing when the bytes do not parse, the filter chain
/// rejects the descriptor, or `Exec` is absent. The `TryExec` probe asks
/// the environment, so the result is the outcome for some answer of that
/// probe; when no `TryExec` is named the probe has no say.
pub fn candidate_command(bytes: &Vec<u8>, desktops: &Vec<String>, args: &Vec<String>) -> (r:
    Option<String>)
    ensures
        !parse_ok(bytes@) ==> r is None,
        parse_ok(bytes@) ==> exists|b: bool|
            r.deep_view() == candidate_outcome(
                descriptor_of(bytes@),
                desktops.deep_view(),
                b,
                args.deep_view(),
            ),
        parse_ok(bytes@) && descriptor_of(bytes@).try_exec is None ==> r.deep_view()
            == candidate_outcome(
            descriptor_of(bytes@),
            desktops.deep_view(),
            true,
            args.deep_view(),
        ),
{
    let d = match parse_descriptor(bytes) {
        Some(d) => d,
        None => { return None; },
    };
    if !passes_filter(&d, desktops) {
        proof {
            let b = choose|b: bool| false == accepted(d@, desktops.deep_view(), b);
            assert((None::<String>).deep_view() == candidate_outcome(
                descriptor_of(bytes@),
                desktops.deep_view(),
                b,
                args.deep_view(),
            ));
        }
        return None;
    }
    let r = build_command(&d, args);
    proof {
        let b = choose|b: bool| true == accepted(d@, desktops.deep_view(), b);
        assert(r.deep_view() == candidate_outcome(
            descriptor_of(bytes@),
            desktops.deep_view(),
            b,
            args.deep_view(),
        ));
    }
    r
}

/// Whether `plan` is the try-in-order launch plan for these per-candidate
/// outcomes: exactly the positions that resolved to a command, each once,
/// in candidate order.
pub open spec fn plan_for(outcomes: Seq<Option<Seq<char>>>, plan: Seq<usize>) -> bool {
    &&& forall|k: int|
        0 <= k < plan.len() ==> (#[trigger] plan[k]) < outcomes.len() && outcomes[plan[k] as int]
            is Some
    &&& forall|k1: int, k2: int| 0 <= k1 < k2 < plan.len() ==> plan[k1] < plan[k2]
    &&& forall|idx: int|
        0 <= idx < outcomes.len() && (#[trigger] outcomes[idx]) is Some ==> exists|k: int|
            0 <= k < plan.len() && plan[k] == idx
}

/// Computes the launch plan over the per-candidate outcomes: the positions
/// of the candidates that resolved to a command, in candidate order. The
/// launcher attempts them one after the other, moving on when an attempt
/// fails to start, and never returns to an earlier one.
pub fn passing_indices(outcomes: &Vec<Option<String>>) -> (r: Vec<usize>)
    ensures
        plan_for(outcomes.deep_view(), r@),
{
    let ghost os = outcomes.deep_view();
    let mut r: Vec<usize> = Vec::new();
    let mut i: usize = 0;
    while i < outcomes.len()
        invariant
            outcomes.deep_view() == os,
            i <= outcomes.len(),
            forall|k: int|
                0 <= k < r@.len() ==> (#[trigger] r@[k]) < i && os[r@[k] as int] is Some,
            forall|k1: int, k2: int| 0 <= k1 < k2 < r@.len() ==> r@[k1] < r@[k2],
            forall|idx: int|
                0 <= idx < i as int && (#[trigger] os[idx]) is Some ==> exists|k: int|
                    0 <= k < r@.len() && r@[k] == idx,
        decreases outcomes.len() - i,
    {
        proof {
            assert(os[i as int] == outcomes@[i as int].deep_view());
        }
        if outcomes[i].is_some() {
            let ghost prev = r@;
            r.push(i);
            proof {
                assert(r@ == prev.push(i));
                assert(r@[r@.len() - 1] == i);
                assert forall|idx: int|
                    0 <= idx < i as int + 1 && (#[trigger] os[idx]) is Some implies exists|
                    k: int,
                |
                    0 <= k < r@.len() && r@[k] == idx by {
                    if idx < i as int {
                        let k = choose|k: int| 0 <= k < prev.len() && prev[k] == idx;
                        assert(r@[k] == idx);
                    } else {
                        assert(r@[r@.len() - 1] == idx);
                    }
                }
            }
        }
        i = i + 1;
    }
    r
}

/// A candidate rejected by filtering is never attempted; two passing
/// candidates are attempted in candidate order; no candidate is attempted
/// twice. So when an earlier passing candidate's launch fails to start, the
/// next attempt is the next passing candidate, and none is retried.
pub proof fn lemma_fallback_order(
    outcomes: Seq<Option<Seq<char>>>,
    plan: Seq<usize>,
    a: int,
    b: int,
    c: int,
)
    requires
        plan_for(outcomes, plan),
        0 <= a < outcomes.len(),
        0 <= b < c < outcomes.len(),
        outcomes[a] is None,
        outcomes[b] is Some,
        outcomes[c] is Some,
    ensures
        forall|k: int| 0 <= k < plan.len() ==> plan[k] != a,
        exists|kb: int, kc: int| 0 <= kb < kc < plan.len() && plan[kb] == b && plan[kc] == c,
        forall|k1: int, k2: int| 0 <= k1 < k2 < plan.len() ==> plan[k1] != plan[k2],
{
    let kb = choose|k: int| 0 <= k < plan.len() && plan[k] == b;
    let kc = choose|k: int| 0 <= k < plan.len() && plan[k] == c;
    assert(kb != kc);
    if kc < kb {
        assert(plan[kc] < plan[kb]);
    }
    assert(0 <= kb < kc < plan.len() && plan[kb] == b && plan[kc] == c);
}

/// When no candidate passes filtering, the launch plan is empty: nothing is
/// attempted, and the run ends as an ordinary successful completion.
pub proof fn lemma_no_candidate_no_attempt(outcomes: Seq<Option<Seq<char>>>, plan: Seq<usize>)
    requires
        plan_for(outcomes, plan),
        forall|i: int| 0 <= i < outcomes.len() ==> outcomes[i] is None,
    ensures
        plan.len() == 0,
{
    if plan.len() > 0 {
        assert(outcomes[plan[0] as int] is Some);
    }
}

} // verus!
