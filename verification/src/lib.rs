//! Keyboard remapping as a pipeline of small state machines.

pub mod common;
pub mod machines;
pub mod sink;
pub mod input;

use vstd::prelude::*;

use crate::common::CoreEv;

verus! {

/// Whether a machine passes an event on (`Skip`) or has dealt with it
/// (`Take`).
pub enum Action {
    Skip,
    Take,
}

/// An event seen on the way into a machine or on the way out of it.
pub enum Event<'a, R> {
    In(&'a (Option<R>, CoreEv)),
    Out(&'a (Option<R>, CoreEv)),
}

} // verus!
