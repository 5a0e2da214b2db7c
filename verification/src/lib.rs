//! Select-first-ready over a fixed collection of cooperative tasks.
//!
//! A task is anything that can be advanced one step at a time and that
//! eventually yields a value.  A select operation borrows a slice of tasks,
//! advances them in index order, and resolves as soon as one of them
//! finishes, reporting the slot's index together with the value.

pub mod task;
pub mod select;
pub mod dyn_fut;
pub mod laws;

pub use crate::dyn_fut::{DynFut, DynFuture};
pub use crate::select::{Select, SelectFuture};
pub use crate::task::{Step, Task};
