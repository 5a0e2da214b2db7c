//! The task capability: one operation, "advance by one step".

use core::task::Context;
use vstd::prelude::*;

verus! {

/// `core::task::Context`, the wake-notification context that a scheduler
/// hands to whatever it resumes.  Nothing is known of a value of this type:
/// the library only passes it on, unchanged, to the tasks it advances.
#[verifier::external_type_specification]
#[verifier::external_body]
pub struct ExContext<'a>(Context<'a>);

/// What one step of a task yields.
#[derive(Clone, Copy, Debug, PartialEq, Eq)]
pub enum Step<T> {
    /// The task has finished with this value.
    Ready(T),
    /// The task has not finished yet; it asks to be resumed later.
    Pending,
}

/// A unit of asynchronous work that is advanced in discrete steps.
///
/// A task is modelled by the traces it admits: the finite sequences of
/// outcomes that stepping it again and again may yield, in order.  A task
/// whose behaviour is not known admits every trace, which is the default.
///
/// Stepping a task that has already finished must be well defined: a select
/// operation may resume a task that finished in a pass in which a
/// lower-indexed task was reported.
pub trait Task<T> {
    /// Whether stepping the task `trace.len()` times may yield the outcomes
    /// of `trace`, one after the other.
    open spec fn admits(&self, trace: Seq<Step<T>>) -> bool {
        true
    }

    /// Advances the task by one step.  The outcome is one that the task
    /// admitted, and whatever the task admits afterwards, it admitted before
    /// as a continuation of that outcome.
    fn step(&mut self, cx: &mut Context<'_>) -> (out: Step<T>)
        ensures
            old(self).admits(seq![out]),
            forall|rest: Seq<Step<T>>| #[trigger]
                final(self).admits(rest) ==> old(self).admits(seq![out] + rest),
    ;
}

/// One step led from `before` to `after` and yielded `out`.
pub open spec fn stepped<T, A: Task<T>>(before: A, out: Step<T>, after: A) -> bool {
    &&& before.admits(seq![out])
    &&& forall|rest: Seq<Step<T>>| #[trigger]
        after.admits(rest) ==> before.admits(seq![out] + rest)
}

/// No step of the task, now or later, yields a value.
pub open spec fn never_completes<T, A: Task<T>>(task: A) -> bool {
    forall|trace: Seq<Step<T>>, j: int|
        task.admits(trace) && 0 <= j < trace.len() ==> #[trigger] trace[j] is Pending
}

/// The next step of the task does not yield a value.
pub open spec fn pending_now<T, A: Task<T>>(task: A) -> bool {
    forall|out: Step<T>| #[trigger] task.admits(seq![out]) ==> out is Pending
}

/// The next step of the task yields `value` and nothing else.
pub open spec fn completes_with<T, A: Task<T>>(task: A, value: T) -> bool {
    forall|out: Step<T>| #[trigger] task.admits(seq![out]) ==> out == Step::Ready(value)
}

/// A borrowed task is a task: each step advances the task it borrows.
impl<T, F: Task<T>> Task<T> for &mut F {
    open spec fn admits(&self, trace: Seq<Step<T>>) -> bool {
        (**self).admits(trace)
    }

    fn step(&mut self, cx: &mut Context<'_>) -> (out: Step<T>) {
        (**self).step(cx)
    }
}

} // verus!
