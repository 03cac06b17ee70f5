//! The events that flow between the machines of a pipeline, and what they
//! emit.

use vstd::prelude::*;

verus! {

/// Whether a key went down or came up.
#[derive(Debug, Copy, Clone, PartialEq, Eq, Structural)]
pub enum Movement {
    Up,
    Down,
}

/// A named mode of a machine; `Root` is the mode a machine starts in.
#[derive(Debug, Copy, Clone, PartialEq)]
pub enum Mode {
    Root,
    Mode(&'static str),
}

/// The events that a machine consumes.
#[derive(Debug, PartialEq)]
pub enum CoreEv {
    Key(u16, Movement),
    On(Mode),
    Off(Mode),
    Tick,
}

/// Requests that a machine body addresses to the machine that hosts it.
#[derive(Debug, PartialEq)]
pub enum MachineEv {
    Now(Mode),
    MaskOn(u16),
    MaskOff(u16),
}

/// Requests that a machine addresses to the runner that drives it.
#[derive(Debug, PartialEq)]
pub enum RunnerEv {
    Spawn(String),
    Die,
}

/// What a machine body emits.
#[derive(Debug, PartialEq)]
pub enum Out {
    Core(CoreEv),
    Machine(MachineEv),
    Runner(RunnerEv),
}

/// What a hosting machine passes on to its runner.
#[derive(Debug, PartialEq)]
pub enum MachineOut {
    Core(CoreEv),
    Runner(RunnerEv),
}

/// What a runner passes on.
#[derive(Debug, PartialEq)]
pub enum RunnerOut {
    Core(CoreEv),
    Runner(RunnerEv),
}

/// One step of a mode table.
#[derive(Debug, Copy, Clone)]
pub enum Act {
    Drop,
    Mask(u16),
    Remap(u16, u16),
    Emit(u16, Movement),
    Then(Mode),
    Launch(&'static str),
}

pub type NextDue = u64;

/// The mathematical value of a runner request: a spawn is known by the
/// characters of its name.
pub enum RunnerEvView {
    Spawn(Seq<char>),
    Die,
}

/// The mathematical value of an emitted item, shared by `Out`, `MachineOut`
/// and `RunnerOut` (the last two never hold `Machine`).
pub enum OutView {
    Core(CoreEv),
    Machine(MachineEv),
    Runner(RunnerEvView),
}

impl View for RunnerEv {
    type V = RunnerEvView;

    open spec fn view(&self) -> RunnerEvView {
        match self {
            RunnerEv::Spawn(name) => RunnerEvView::Spawn(name@),
            RunnerEv::Die => RunnerEvView::Die,
        }
    }
}

impl View for Out {
    type V = OutView;

    open spec fn view(&self) -> OutView {
        match self {
            Out::Core(ev) => OutView::Core(*ev),
            Out::Machine(ev) => OutView::Machine(*ev),
            Out::Runner(ev) => OutView::Runner(ev@),
        }
    }
}

impl View for MachineOut {
    type V = OutView;

    open spec fn view(&self) -> OutView {
        match self {
            MachineOut::Core(ev) => OutView::Core(*ev),
            MachineOut::Runner(ev) => OutView::Runner(ev@),
        }
    }
}

impl View for RunnerOut {
    type V = OutView;

    open spec fn view(&self) -> OutView {
        match self {
            RunnerOut::Core(ev) => OutView::Core(*ev),
            RunnerOut::Runner(ev) => OutView::Runner(ev@),
        }
    }
}

/// A mode named `name` (compared by its characters).
pub open spec fn is_named(mode: Mode, name: &str) -> bool {
    match mode {
        Mode::Mode(n) => n@ == name@,
        Mode::Root => false,
    }
}

/// Compares two names by their characters.
pub fn same_name(a: &str, b: &str) -> (r: bool)
    ensures
        r == (a@ == b@),
{
    let a_owned = a.to_owned();
    let b_owned = b.to_owned();
    a_owned == b_owned
}

/// Whether `mode` is the mode named `name`.
pub fn mode_is(mode: Mode, name: &str) -> (r: bool)
    ensures
        r == is_named(mode, name),
{
    match mode {
        Mode::Mode(n) => same_name(n, name),
        Mode::Root => false,
    }
}

} // verus!
