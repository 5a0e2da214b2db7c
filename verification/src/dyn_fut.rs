//! A uniform handle for tasks of different types.

use crate::task::{Step, Task};
use core::task::Context;
use vstd::prelude::*;

verus! {

/// A handle for a borrowed task of any type that yields a `T`.
///
/// Handles of one result type can fill one collection whatever the tasks
/// behind them are.  A handle has no behaviour of its own: each step is a
/// step of the task it borrows, which is advanced in place.
#[verifier::reject_recursive_types(T)]
pub struct DynFuture<'a, T>(Box<dyn Task<T> + 'a>);

impl<'a, T> Task<T> for DynFuture<'a, T> {
    /// A handle admits what the task behind it admits.
    closed spec fn admits(&self, trace: Seq<Step<T>>) -> bool {
        (*self.0).admits(trace)
    }

    fn step(&mut self, cx: &mut Context<'_>) -> (out: Step<T>) {
        self.0.step(cx)
    }
}

/// Tasks that can be borrowed behind a uniform handle.
pub trait DynFut<'a, T>: Task<T> {
    /// Borrows the task behind a handle that admits exactly what the task
    /// admits.
    fn dyn_fut(&'a mut self) -> (handle: DynFuture<'a, T>)
        ensures
            forall|trace: Seq<Step<T>>| #[trigger] handle.admits(trace) == old(self).admits(trace),
    ;
}

impl<'a, T, F: Task<T> + 'a> DynFut<'a, T> for F {
    fn dyn_fut(&'a mut self) -> (handle: DynFuture<'a, T>) {
        DynFuture(Box::new(self))
    }
}

} // verus!
