//! The decisions of the loop that reads a keyboard device, feeds its key
//! events through the machines and writes what comes out to a virtual
//! device: how a read is classified, and what is written for each item.

use vstd::prelude::*;

use crate::common::{CoreEv, Movement, RunnerOut};

verus! {

/// Whether the reader takes events as they come or is catching up after
/// the device dropped some.
#[derive(Debug, Copy, Clone, PartialEq, Eq, Structural)]
pub enum ReadMode {
    Read,
    Sync,
}

/// A successfully read event: a key event with its code and value, a scan
/// code report, or anything else.
#[derive(Debug, Copy, Clone, PartialEq, Eq, Structural)]
pub enum EventClass {
    Key(u16, i32),
    Scan,
    Other,
}

/// What a read gave: an event, or word that the device dropped events.
#[derive(Debug, Copy, Clone, PartialEq, Eq, Structural)]
pub enum ReadOutcome {
    Event(EventClass),
    Sync,
}

/// Why a read failed: a signal (the timer) interrupted it, there was nothing
/// to read yet, or anything else.
#[derive(Debug, Copy, Clone, PartialEq, Eq, Structural)]
pub enum ReadError {
    Interrupted,
    Again,
    Other,
}

/// What the loop does next.
#[derive(Debug, PartialEq)]
pub enum Step {
    /// Run the machines on the event, write what they emit, then a sync report.
    Feed(CoreEv),
    /// Write the event as it was read.
    Forward,
    /// Nothing.
    Skip,
    /// Stop reading, with an error.
    Stop,
}

/// What is written for an item that the machines emit.
#[derive(Debug, PartialEq)]
pub enum Write<TRaw> {
    /// The raw event it came from.
    Raw(TRaw),
    /// A key event made up from a code and a value.
    Key(u16, i32),
    /// Nothing.
    Nothing,
}

/// The movement that a key event's value reports: 0 is a release, 1 a press
/// and 2 an autorepeat, taken as a press; any other value is not a key
/// movement.
pub open spec fn movement_spec(value: i32) -> Option<Movement> {
    if value == 0 {
        Some(Movement::Up)
    } else if value == 1 || value == 2 {
        Some(Movement::Down)
    } else {
        None
    }
}

pub fn movement_of(value: i32) -> (m: Option<Movement>)
    ensures
        m == movement_spec(value),
{
    match value {
        0 => Some(Movement::Up),
        1 => Some(Movement::Down),
        2 => Some(Movement::Down),
        _ => None,
    }
}

/// The movement that a low-level keyboard hook's flags report: bit 0x80 is
/// set on a release.
pub open spec fn flags_movement_spec(flags: u32) -> Movement {
    if flags & 0x80 == 0x80 {
        Movement::Up
    } else {
        Movement::Down
    }
}

pub fn movement_of_flags(flags: u32) -> (m: Movement)
    ensures
        m == flags_movement_spec(flags),
{
    if flags & 0x80 == 0x80 {
        Movement::Up
    } else {
        Movement::Down
    }
}

/// The value written for a movement.
pub open spec fn value_spec(m: Movement) -> i32 {
    match m {
        Movement::Up => 0,
        Movement::Down => 1,
    }
}

pub fn value_of(m: Movement) -> (v: i32)
    ensures
        v == value_spec(m),
{
    match m {
        Movement::Up => 0,
        Movement::Down => 1,
    }
}

/// The mode after a read in `mode`, and the step to take.
pub open spec fn decide_spec(mode: ReadMode, outcome: Result<ReadOutcome, ReadError>) -> (ReadMode, Step) {
    match outcome {
        Err(ReadError::Interrupted) => (mode, Step::Feed(CoreEv::Tick)),
        Err(ReadError::Again) => (mode, Step::Skip),
        Err(ReadError::Other) => (mode, Step::Stop),
        Ok(ReadOutcome::Sync) => (ReadMode::Sync, Step::Skip),
        Ok(ReadOutcome::Event(class)) => match mode {
            ReadMode::Sync => (ReadMode::Read, Step::Skip),
            ReadMode::Read => match class {
                EventClass::Key(code, value) => match movement_spec(value) {
                    Some(m) => (ReadMode::Read, Step::Feed(CoreEv::Key(code, m))),
                    None => (ReadMode::Read, Step::Stop),
                },
                EventClass::Scan => (ReadMode::Read, Step::Skip),
                EventClass::Other => (ReadMode::Read, Step::Forward),
            },
        },
    }
}

/// Decides what to do with the outcome of a read in `mode`.
pub fn decide(mode: ReadMode, outcome: Result<ReadOutcome, ReadError>) -> (r: (ReadMode, Step))
    ensures
        r == decide_spec(mode, outcome),
{
    match outcome {
        Err(ReadError::Interrupted) => (mode, Step::Feed(CoreEv::Tick)),
        Err(ReadError::Again) => (mode, Step::Skip),
        Err(ReadError::Other) => (mode, Step::Stop),
        Ok(ReadOutcome::Sync) => (ReadMode::Sync, Step::Skip),
        Ok(ReadOutcome::Event(class)) => match mode {
            ReadMode::Sync => (ReadMode::Read, Step::Skip),
            ReadMode::Read => match class {
                EventClass::Key(code, value) => match movement_of(value) {
                    Some(m) => (ReadMode::Read, Step::Feed(CoreEv::Key(code, m))),
                    None => (ReadMode::Read, Step::Stop),
                },
                EventClass::Scan => (ReadMode::Read, Step::Skip),
                EventClass::Other => (ReadMode::Read, Step::Forward),
            },
        },
    }
}

/// What is written for an emitted item: a key event that came from a raw
/// event is written as that raw event, one the machines made up is written
/// from its code and movement, and nothing else is written.
pub open spec fn write_spec<TRaw>(item: (Option<TRaw>, RunnerOut)) -> Write<TRaw> {
    match item {
        (Some(raw), RunnerOut::Core(CoreEv::Key(_, _))) => Write::Raw(raw),
        (None, RunnerOut::Core(CoreEv::Key(code, m))) => Write::Key(code, value_spec(m)),
        _ => Write::Nothing,
    }
}

pub fn write_for<TRaw>(item: (Option<TRaw>, RunnerOut)) -> (w: Write<TRaw>)
    ensures
        w == write_spec(item),
{
    match item {
        (Some(raw), RunnerOut::Core(CoreEv::Key(_, _))) => Write::Raw(raw),
        (None, RunnerOut::Core(CoreEv::Key(code, m))) => Write::Key(code, value_of(m)),
        _ => Write::Nothing,
    }
}

} // verus!

verus! {

/// Every key event that comes out of the machines reaches the virtual
/// keyboard: one with a raw origin as that raw event, whether the key went
/// down or up, and a made-up one as its code with value 1 for a press and 0
/// for a release.
pub proof fn lemma_key_events_are_written<TRaw>(raw: Option<TRaw>, code: u16, m: Movement)
    ensures
        raw is Some ==> write_spec((raw, RunnerOut::Core(CoreEv::Key(code, m)))) == Write::Raw(raw->0),
        raw is None ==> write_spec((raw, RunnerOut::Core(CoreEv::Key(code, m)))) == Write::<TRaw>::Key(
            code,
            if m == Movement::Down {
                1i32
            } else {
                0i32
            },
        ),
{
}

/// Nothing but key events is written.
pub proof fn lemma_only_key_events_are_written<TRaw>(item: (Option<TRaw>, RunnerOut))
    ensures
        !(item.1 matches RunnerOut::Core(CoreEv::Key(_, _))) ==> write_spec(item) == Write::<TRaw>::Nothing,
{
}

/// A press and the release of the same real key are written alike: each as
/// the raw event it came from.
pub proof fn lemma_press_and_release_written_alike<TRaw>(down: TRaw, up: TRaw, code: u16)
    ensures
        write_spec((Some(down), RunnerOut::Core(CoreEv::Key(code, Movement::Down)))) == Write::Raw(down),
        write_spec((Some(up), RunnerOut::Core(CoreEv::Key(code, Movement::Up)))) == Write::Raw(up),
{
}

} // verus!
