//! The select operation: advance every slot once, in index order, and resolve
//! with the first task that finishes.

use crate::task::{stepped, Step, Task};
use core::task::Context;
use vstd::prelude::*;

verus! {

/// A slot that was not reported in a pass: an occupied slot took one step
/// that yielded no value, an empty slot stayed empty.
pub open spec fn advanced<T, A: Task<T>>(before: Option<A>, after: Option<A>) -> bool {
    match before {
        Some(a) => after matches Some(b) && stepped(a, Step::Pending, b),
        None => after is None,
    }
}

/// The slots of a collection in which every slot holds a task.
pub open spec fn occupied<A>(tasks: Seq<A>) -> Seq<Option<A>> {
    Seq::new(tasks.len(), |i: int| Some(tasks[i]))
}

/// One pass over the slots `before`, which yields `out` and leaves `after`.
///
/// The slots are advanced in index order, and the pass ends at the first
/// slot whose task finishes: the slots below it have each taken one step
/// that yielded no value, and the slots above it are untouched.  When
/// `vacating` is set the slot of the finished task is left empty; otherwise
/// it holds the task as its last step left it.
pub open spec fn select_step<T, A: Task<T>>(
    vacating: bool,
    before: Seq<Option<A>>,
    out: Step<(usize, T)>,
    after: Seq<Option<A>>,
) -> bool {
    &&& after.len() == before.len()
    &&& match out {
        Step::Pending => forall|i: int|
            0 <= i < before.len() ==> advanced(#[trigger] before[i], after[i]),
        Step::Ready((k, v)) => {
            &&& k < before.len()
            &&& forall|i: int| 0 <= i < k ==> advanced(#[trigger] before[i], after[i])
            &&& forall|i: int| k < i < before.len() ==> #[trigger] after[i] == before[i]
            &&& before[k as int] matches Some(a) && if vacating {
                a.admits(seq![Step::Ready(v)]) && after[k as int] is None
            } else {
                after[k as int] matches Some(b) && stepped(a, Step::Ready(v), b)
            }
        },
    }
}

/// One pass over a slice in which every slot holds a task.
fn sweep<T, A: Task<T>>(tasks: &mut [A], cx: &mut Context<'_>) -> (out: Step<(usize, T)>)
    ensures
        select_step(false, occupied(old(tasks)@), out, occupied(final(tasks)@)),
{
    let n: usize = tasks.len();
    let mut i: usize = 0;
    while i < n
        invariant
            i <= n,
            n == tasks@.len(),
            n == old(tasks)@.len(),
            forall|j: int| 0 <= j < i ==> stepped(#[trigger] old(tasks)@[j], Step::Pending, tasks@[j]),
            forall|j: int| i <= j < n ==> #[trigger] tasks@[j] == old(tasks)@[j],
        decreases n - i,
    {
        let out = tasks[i].step(cx);
        match out {
            Step::Ready(v) => {
                return Step::Ready((i, v));
            },
            Step::Pending => {},
        }
        i += 1;
    }
    Step::Pending
}

/// One pass over a slice of optional slots.  Empty slots are skipped, and
/// the slot of a task that finishes is vacated.
fn sweep_optional<T, A: Task<T>>(tasks: &mut [Option<A>], cx: &mut Context<'_>) -> (out: Step<
    (usize, T),
>)
    ensures
        select_step(true, old(tasks)@, out, final(tasks)@),
{
    let n: usize = tasks.len();
    let mut i: usize = 0;
    while i < n
        invariant
            i <= n,
            n == tasks@.len(),
            n == old(tasks)@.len(),
            forall|j: int| 0 <= j < i ==> advanced(#[trigger] old(tasks)@[j], tasks@[j]),
            forall|j: int| i <= j < n ==> #[trigger] tasks@[j] == old(tasks)@[j],
        decreases n - i,
    {
        if let Some(task) = &mut tasks[i] {
            let out = task.step(cx);
            match out {
                Step::Ready(v) => {
                    tasks[i] = None;
                    return Step::Ready((i, v));
                },
                Step::Pending => {},
            }
        }
        i += 1;
    }
    Step::Pending
}

/// A select operation: an exclusive borrow of a collection of task slots.
///
/// The operation keeps no state of its own between passes: every call of
/// [`SelectFuture::poll`] starts again at slot 0.
pub enum SelectFuture<'b, A> {
    /// Every slot holds a task.
    Future(&'b mut [A]),
    /// A slot holds a task or is empty.
    OptFuture(&'b mut [Option<A>]),
}

impl<'b, A> SelectFuture<'b, A> {
    /// Whether the operation runs over optional slots.
    pub open spec fn vacating(&self) -> bool {
        self is OptFuture
    }

    /// The slots as they are now.
    pub open spec fn slots(&self) -> Seq<Option<A>> {
        match self {
            SelectFuture::Future(tasks) => occupied(tasks@),
            SelectFuture::OptFuture(tasks) => tasks@,
        }
    }

    /// Runs one pass over the slots.  Returns `Step::Ready((k, v))` when the
    /// task in slot `k` finished with `v`, and `Step::Pending` when every
    /// task asked to be resumed later.  The operation keeps its flavour and
    /// its borrow: what the collection holds once the borrow ends is still
    /// what this operation leaves in it.
    pub fn poll<T>(&mut self, cx: &mut Context<'_>) -> (out: Step<(usize, T)>) where A: Task<T>
        ensures
            select_step(old(self).vacating(), old(self).slots(), out, final(self).slots()),
            match (*old(self), *final(self)) {
                (SelectFuture::Future(s), SelectFuture::Future(t)) => final(t)@ == final(s)@,
                (SelectFuture::OptFuture(s), SelectFuture::OptFuture(t)) => final(t)@ == final(s)@,
                _ => false,
            },
    {
        match self {
            SelectFuture::Future(tasks) => sweep(tasks, cx),
            SelectFuture::OptFuture(tasks) => sweep_optional(tasks, cx),
        }
    }

    /// The name of the flavour of slots that the operation runs over, for
    /// diagnostic display.
    pub fn flavor(&self) -> (name: &'static str)
        ensures
            name@ == (if self.vacating() {
                "OptFuture"@
            } else {
                "Future"@
            }),
    {
        match self {
            SelectFuture::Future(_) => "Future",
            SelectFuture::OptFuture(_) => "OptFuture",
        }
    }
}

/// Collections that a select operation can run over.
pub trait Select<T, A: Task<T>> {
    /// Whether the slots of this collection can be empty.
    spec fn vacating(&self) -> bool;

    /// The slots of this collection.
    spec fn slots(&self) -> Seq<Option<A>>;

    /// Borrows the collection for one select operation.  The operation
    /// starts from the slots as they are, and what it leaves is what the
    /// collection holds afterwards.
    fn select(&mut self) -> (op: SelectFuture<'_, A>)
        ensures
            op.vacating() == old(self).vacating(),
            op.slots() == old(self).slots(),
            match op {
                SelectFuture::Future(t) => occupied(final(t)@) == final(self).slots(),
                SelectFuture::OptFuture(t) => final(t)@ == final(self).slots(),
            },
    ;
}

impl<T, A: Task<T>> Select<T, A> for [A] {
    open spec fn vacating(&self) -> bool {
        false
    }

    open spec fn slots(&self) -> Seq<Option<A>> {
        occupied(self@)
    }

    fn select(&mut self) -> (op: SelectFuture<'_, A>) {
        SelectFuture::Future(self)
    }
}

impl<T, A: Task<T>> Select<T, A> for [Option<A>] {
    open spec fn vacating(&self) -> bool {
        true
    }

    open spec fn slots(&self) -> Seq<Option<A>> {
        self@
    }

    fn select(&mut self) -> (op: SelectFuture<'_, A>) {
        SelectFuture::OptFuture(self)
    }
}

} // verus!
