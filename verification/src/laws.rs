//! What holds of select operations, over one pass and over many.

use crate::select::{advanced, select_step};
use crate::task::{completes_with, never_completes, pending_now, stepped, Step, Task};
use vstd::prelude::*;

verus! {

/// The slot is empty, or its task never completes.
pub open spec fn slot_never_completes<T, A: Task<T>>(slot: Option<A>) -> bool {
    slot matches Some(a) ==> never_completes(a)
}

/// The slot is empty, or the next step of its task yields no value.
pub open spec fn slot_pending_now<T, A: Task<T>>(slot: Option<A>) -> bool {
    slot matches Some(a) ==> pending_now(a)
}

/// The slot holds a task whose next step may yield `value`.
pub open spec fn slot_may_yield<T, A: Task<T>>(slot: Option<A>, value: T) -> bool {
    slot matches Some(a) && a.admits(seq![Step::Ready(value)])
}

/// A collection that is passed over again and again: pass `p` finds the
/// slots `states[p]`, yields `outs[p]` and leaves the slots `states[p + 1]`.
/// It makes no difference whether the passes belong to one select operation
/// or to several, one after the other.
pub open spec fn resumed<T, A: Task<T>>(
    vacating: bool,
    states: Seq<Seq<Option<A>>>,
    outs: Seq<Step<(usize, T)>>,
) -> bool {
    &&& states.len() == outs.len() + 1
    &&& forall|p: int|
        0 <= p < outs.len() ==> select_step(vacating, states[p], #[trigger] outs[p], states[p + 1])
}

/// A task that never completes still never completes after a step.
pub proof fn lemma_never_completes_after_step<T, A: Task<T>>(before: A, out: Step<T>, after: A)
    requires
        stepped(before, out, after),
        never_completes(before),
    ensures
        out is Pending,
        never_completes(after),
{
    assert(seq![out][0] is Pending);
    assert forall|trace: Seq<Step<T>>, j: int|
        after.admits(trace) && 0 <= j < trace.len() implies #[trigger] trace[j] is Pending by {
        let longer = seq![out] + trace;
        assert(before.admits(longer));
        assert(longer[j + 1] == trace[j]);
        assert(longer[j + 1] is Pending);
    }
}

/// A slot that a pass did not report, and whose task never completes, holds
/// such a task afterwards too.
pub proof fn lemma_slot_never_completes_after_pass<T, A: Task<T>>(
    vacating: bool,
    before: Seq<Option<A>>,
    out: Step<(usize, T)>,
    after: Seq<Option<A>>,
    i: int,
)
    requires
        select_step(vacating, before, out, after),
        0 <= i < before.len(),
        slot_never_completes(before[i]),
    ensures
        slot_never_completes(after[i]),
        out matches Step::Ready((k, _)) ==> k != i,
{
    match out {
        Step::Pending => {
            assert(advanced(before[i], after[i]));
            if let Some(a) = before[i] {
                lemma_never_completes_after_step(a, Step::Pending, after[i]->Some_0);
            }
        },
        Step::Ready((k, v)) => {
            if i < k {
                assert(advanced(before[i], after[i]));
                if let Some(a) = before[i] {
                    lemma_never_completes_after_step(a, Step::Pending, after[i]->Some_0);
                }
            } else if i == k {
                let a = before[i]->Some_0;
                assert(a.admits(seq![Step::Ready(v)]));
                assert(seq![Step::<T>::Ready(v)][0] is Pending);
            } else {
                assert(after[i] == before[i]);
            }
        },
    }
}

/// While no task of the collection ever completes, a pass yields no result,
/// and it leaves a collection of which the same holds.
pub proof fn lemma_pending_while_none_completes<T, A: Task<T>>(
    vacating: bool,
    before: Seq<Option<A>>,
    out: Step<(usize, T)>,
    after: Seq<Option<A>>,
)
    requires
        select_step(vacating, before, out, after),
        forall|i: int| 0 <= i < before.len() ==> slot_never_completes(#[trigger] before[i]),
    ensures
        out is Pending,
        forall|i: int| 0 <= i < after.len() ==> slot_never_completes(#[trigger] after[i]),
{
    if let Step::Ready((k, _)) = out {
        lemma_slot_never_completes_after_pass(vacating, before, out, after, k as int);
    }
    assert forall|i: int| 0 <= i < after.len() implies slot_never_completes(
        #[trigger] after[i],
    ) by {
        lemma_slot_never_completes_after_pass(vacating, before, out, after, i);
    }
}

/// The number of slots is the same before every pass.
pub proof fn lemma_length_persists<T, A: Task<T>>(
    vacating: bool,
    states: Seq<Seq<Option<A>>>,
    outs: Seq<Step<(usize, T)>>,
    q: int,
)
    requires
        resumed(vacating, states, outs),
        0 <= q < states.len(),
    ensures
        states[q].len() == states[0].len(),
    decreases q,
{
    if q > 0 {
        lemma_length_persists(vacating, states, outs, q - 1);
        assert(select_step(vacating, states[q - 1], outs[q - 1], states[q - 1 + 1]));
    }
}

/// A slot whose task never completes is in that state before every pass,
/// however many passes came first.
pub proof fn lemma_never_completes_persists<T, A: Task<T>>(
    vacating: bool,
    states: Seq<Seq<Option<A>>>,
    outs: Seq<Step<(usize, T)>>,
    i: int,
    q: int,
)
    requires
        resumed(vacating, states, outs),
        0 <= q < states.len(),
        0 <= i < states[0].len(),
        slot_never_completes(states[0][i]),
    ensures
        states[q].len() == states[0].len(),
        slot_never_completes(states[q][i]),
    decreases q,
{
    lemma_length_persists(vacating, states, outs, q);
    if q > 0 {
        lemma_length_persists(vacating, states, outs, q - 1);
        lemma_never_completes_persists(vacating, states, outs, i, q - 1);
        assert(select_step(vacating, states[q - 1], outs[q - 1], states[q - 1 + 1]));
        lemma_slot_never_completes_after_pass(vacating, states[q - 1], outs[q - 1], states[q], i);
    }
}

/// If no task is ever ready, the operation never resolves: however often it
/// is resumed, every pass ends pending.
pub proof fn lemma_never_resolves<T, A: Task<T>>(
    vacating: bool,
    states: Seq<Seq<Option<A>>>,
    outs: Seq<Step<(usize, T)>>,
)
    requires
        resumed(vacating, states, outs),
        forall|i: int| 0 <= i < states[0].len() ==> slot_never_completes(#[trigger] states[0][i]),
    ensures
        forall|p: int| 0 <= p < outs.len() ==> #[trigger] outs[p] is Pending,
{
    assert forall|p: int| 0 <= p < outs.len() implies #[trigger] outs[p] is Pending by {
        assert(select_step(vacating, states[p], outs[p], states[p + 1]));
        assert forall|i: int| 0 <= i < states[p].len() implies slot_never_completes(
            #[trigger] states[p][i],
        ) by {
            lemma_length_persists(vacating, states, outs, p);
            lemma_never_completes_persists(vacating, states, outs, i, p);
        }
        lemma_pending_while_none_completes(vacating, states[p], outs[p], states[p + 1]);
    }
}

/// Where slot `k` holds the only task that ever completes, no pass reports
/// another slot, a pass that resolves reports a value that the task in slot
/// `k` yielded in that pass, and the tasks of the other slots remain tasks
/// that never complete: none of them is left completed and unreported.
pub proof fn lemma_sole_completer<T, A: Task<T>>(
    vacating: bool,
    states: Seq<Seq<Option<A>>>,
    outs: Seq<Step<(usize, T)>>,
    k: int,
)
    requires
        resumed(vacating, states, outs),
        0 <= k < states[0].len(),
        forall|i: int|
            0 <= i < states[0].len() && i != k ==> slot_never_completes(#[trigger] states[0][i]),
    ensures
        forall|p: int|
            0 <= p < outs.len() ==> (#[trigger] outs[p] matches Step::Ready((j, v)) ==> j == k
                && slot_may_yield(states[p][k], v)),
        forall|p: int, i: int|
            0 <= p < states.len() && 0 <= i < states[p].len() && i != k ==> slot_never_completes(
                #[trigger] states[p][i],
            ),
{
    assert forall|p: int, i: int|
        0 <= p < states.len() && 0 <= i < states[p].len() && i != k implies slot_never_completes(
        #[trigger] states[p][i],
    ) by {
        lemma_length_persists(vacating, states, outs, p);
        lemma_never_completes_persists(vacating, states, outs, i, p);
    }
    assert forall|p: int| 0 <= p < outs.len() implies (#[trigger] outs[p] matches Step::Ready(
        (j, v),
    ) ==> j == k && slot_may_yield(states[p][k], v)) by {
        assert(select_step(vacating, states[p], outs[p], states[p + 1]));
        lemma_length_persists(vacating, states, outs, p);
        if let Step::Ready((j, v)) = outs[p] {
            if j != k {
                assert(slot_never_completes(states[p][j as int]));
                lemma_slot_never_completes_after_pass(
                    vacating,
                    states[p],
                    outs[p],
                    states[p + 1],
                    j as int,
                );
            }
        }
    }
}

/// Where slot `k` holds the only task that ever completes, the pass in which
/// that task yields `value` resolves to `(k, value)`.
pub proof fn lemma_sole_completer_resolves<T, A: Task<T>>(
    vacating: bool,
    states: Seq<Seq<Option<A>>>,
    outs: Seq<Step<(usize, T)>>,
    k: int,
    p: int,
    value: T,
)
    requires
        resumed(vacating, states, outs),
        0 <= k < states[0].len(),
        forall|i: int|
            0 <= i < states[0].len() && i != k ==> slot_never_completes(#[trigger] states[0][i]),
        0 <= p < outs.len(),
        states[p][k] matches Some(a) && completes_with(a, value),
    ensures
        outs[p] == Step::Ready((k as usize, value)),
{
    lemma_sole_completer(vacating, states, outs, k);
    lemma_length_persists(vacating, states, outs, p);
    assert(select_step(vacating, states[p], outs[p], states[p + 1]));
    let a = states[p][k]->Some_0;
    match outs[p] {
        Step::Pending => {
            assert(advanced(states[p][k], states[p + 1][k]));
            assert(a.admits(seq![Step::Pending]));
        },
        Step::Ready((j, v)) => {
            assert(a.admits(seq![Step::Ready(v)]));
        },
    }
}

/// The lowest slot whose task completes in a pass is the one reported: where
/// the task in slot `i` completes with `value` and no task below it
/// completes, the pass resolves to `(i, value)`.
pub proof fn lemma_first_ready_resolves<T, A: Task<T>>(
    vacating: bool,
    before: Seq<Option<A>>,
    out: Step<(usize, T)>,
    after: Seq<Option<A>>,
    i: int,
    value: T,
)
    requires
        select_step(vacating, before, out, after),
        0 <= i < before.len(),
        before[i] matches Some(a) && completes_with(a, value),
        forall|h: int| 0 <= h < i ==> slot_pending_now(#[trigger] before[h]),
    ensures
        out == Step::Ready((i as usize, value)),
{
    let a = before[i]->Some_0;
    match out {
        Step::Pending => {
            assert(advanced(before[i], after[i]));
            assert(a.admits(seq![Step::Pending]));
        },
        Step::Ready((k, v)) => {
            if i < k {
                assert(advanced(before[i], after[i]));
                assert(a.admits(seq![Step::Pending]));
            } else if k < i {
                assert(slot_pending_now(before[k as int]));
                assert(before[k as int]->Some_0.admits(seq![Step::Ready(v)]));
            } else {
                assert(a.admits(seq![Step::Ready(v)]));
            }
        },
    }
}

/// Tie-break: when the task in slot `i` completes in a pass, the pass
/// resolves at slot `i` or below it, never above, and it leaves every slot
/// above `i` untouched.  A task there that would have completed in the same
/// pass is as ready as it was, for a later select operation to find.
pub proof fn lemma_lowest_ready_wins<T, A: Task<T>>(
    vacating: bool,
    before: Seq<Option<A>>,
    out: Step<(usize, T)>,
    after: Seq<Option<A>>,
    i: int,
    value: T,
)
    requires
        select_step(vacating, before, out, after),
        0 <= i < before.len(),
        before[i] matches Some(a) && completes_with(a, value),
    ensures
        out matches Step::Ready((k, _)) && k <= i,
        forall|j: int| i < j < before.len() ==> #[trigger] after[j] == before[j],
{
    let a = before[i]->Some_0;
    match out {
        Step::Pending => {
            assert(advanced(before[i], after[i]));
            assert(a.admits(seq![Step::Pending]));
        },
        Step::Ready((k, v)) => {
            if i < k {
                assert(advanced(before[i], after[i]));
                assert(a.admits(seq![Step::Pending]));
            }
        },
    }
}

/// An empty slot is skipped: the pass does not report it, and it is empty
/// afterwards.
pub proof fn lemma_empty_slot_skipped<T, A: Task<T>>(
    vacating: bool,
    before: Seq<Option<A>>,
    out: Step<(usize, T)>,
    after: Seq<Option<A>>,
    k: int,
)
    requires
        select_step(vacating, before, out, after),
        0 <= k < before.len(),
        before[k] is None,
    ensures
        after[k] is None,
        out matches Step::Ready((j, _)) ==> j != k,
{
    match out {
        Step::Pending => {
            assert(advanced(before[k], after[k]));
        },
        Step::Ready((j, _)) => {
            if k < j {
                assert(advanced(before[k], after[k]));
            } else if k > j {
                assert(after[k] == before[k]);
            }
        },
    }
}

/// A slot that is empty before pass `p` is empty before every later pass.
pub proof fn lemma_empty_slot_persists<T, A: Task<T>>(
    vacating: bool,
    states: Seq<Seq<Option<A>>>,
    outs: Seq<Step<(usize, T)>>,
    k: int,
    p: int,
    q: int,
)
    requires
        resumed(vacating, states, outs),
        0 <= p <= q < states.len(),
        0 <= k < states[p].len(),
        states[p][k] is None,
    ensures
        states[q].len() == states[p].len(),
        states[q][k] is None,
    decreases q - p,
{
    if q > p {
        lemma_empty_slot_persists(vacating, states, outs, k, p, q - 1);
        assert(select_step(vacating, states[q - 1], outs[q - 1], states[q - 1 + 1]));
        lemma_empty_slot_skipped(vacating, states[q - 1], outs[q - 1], states[q], k);
    }
}

/// Once a pass over optional slots has resolved through slot `k`, the slot
/// is empty, and no later pass over the collection reports index `k` again.
pub proof fn lemma_vacated_slot_stays_silent<T, A: Task<T>>(
    states: Seq<Seq<Option<A>>>,
    outs: Seq<Step<(usize, T)>>,
    p: int,
    q: int,
    k: int,
)
    requires
        resumed(true, states, outs),
        0 <= p < q < outs.len(),
        outs[p] matches Step::Ready((j, _)) && j == k,
    ensures
        0 <= k < states[p].len(),
        states[p + 1][k] is None,
        states[q][k] is None,
        outs[q] matches Step::Ready((j, _)) ==> j != k,
{
    assert(select_step(true, states[p], outs[p], states[p + 1]));
    lemma_empty_slot_persists(true, states, outs, k, p + 1, q);
    assert(select_step(true, states[q], outs[q], states[q + 1]));
    lemma_empty_slot_skipped(true, states[q], outs[q], states[q + 1], k);
}

} // verus!
