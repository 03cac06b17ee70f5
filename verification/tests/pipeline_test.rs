use keymachines::common::{CoreEv, MachineOut, Movement, Out, RunnerEv, RunnerOut};
use keymachines::input::{
    decide, movement_of, movement_of_flags, value_of, write_for, EventClass, ReadError, ReadMode, ReadOutcome, Step, Write,
};
use keymachines::machines::big_machine::BigMachine;
use keymachines::machines::lead_machine::LeadMachine;
use keymachines::machines::machine::Machine;
use keymachines::machines::mode_machine::ModeMachine;
use keymachines::machines::print_keys::PrintKeys;
use keymachines::machines::runner::Runner;
use keymachines::machines::stage::Stage;
use keymachines::machines::{Ctx, RunRef, Runnable};
use keymachines::sink::Sink;
use std::collections::VecDeque;
use vstd::view::View;

use CoreEv::{Key, Tick};
use Movement::{Down, Up};

/// Presses 100 + n to mask n and releases it to unmask; passes the rest on.
struct Masker {}

impl View for Masker {
    type V = ();

    fn view(&self) -> () {}
}

impl Runnable<(), CoreEv, Out> for Masker {
    fn run(&mut self, x: &mut Ctx<(), Out>, ev: (Option<()>, CoreEv)) {
        match ev {
            (_, Key(i, Down)) if i > 100 => x.mask(&[i - 100]),
            (_, Key(i, Up)) if i > 100 => x.unmask(&[i - 100]),
            (raw, e) => x.emit((raw, Out::Core(e))),
        }
    }

    fn spawn(&self, _name: &String) -> Option<Self> {
        None
    }
}

/// Passes events on, asks to be spawned again while it has depth left.
struct Splitter {
    depth: u16,
}

impl View for Splitter {
    type V = u16;

    fn view(&self) -> u16 {
        self.depth
    }
}

impl Runnable<(), CoreEv, MachineOut> for Splitter {
    fn run(&mut self, x: &mut Ctx<(), MachineOut>, ev: (Option<()>, CoreEv)) {
        x.emit((ev.0, MachineOut::Core(ev.1)));
        x.emit((None, MachineOut::Core(Key(self.depth, Up))));
        if self.depth > 0 {
            x.emit((None, MachineOut::Runner(RunnerEv::Spawn("child".to_string()))));
        }
    }

    fn spawn(&self, _name: &String) -> Option<Self> {
        if self.depth > 0 {
            Some(Splitter { depth: self.depth - 1 })
        } else {
            None
        }
    }
}

fn outputs(x: &mut Ctx<(), RunnerOut>) -> Vec<(Option<()>, RunnerOut)> {
    let mut v = Vec::new();
    while let Some(item) = x.buff.pop_front() {
        v.push(item);
    }
    v
}

#[test]
fn masking_releases_a_key_held_on_the_way_out() {
    let mut runner = Runner::new(vec![RunRef::new("m", Machine::new(Masker {}))]);
    let mut sink = Ctx::new();
    runner.run(&mut sink, (None, Key(5, Down)));
    assert_eq!(outputs(&mut sink), vec![(None, RunnerOut::Core(Key(5, Down)))]);
    runner.run(&mut sink, (None, Key(105, Down)));
    assert_eq!(outputs(&mut sink), vec![(None, RunnerOut::Core(Key(5, Up)))]);
    // masking again is quiet
    runner.run(&mut sink, (None, Key(105, Down)));
    assert_eq!(outputs(&mut sink), vec![]);
    // a real release while masked is swallowed; unmasking finds in and out agree
    runner.run(&mut sink, (None, Key(5, Up)));
    runner.run(&mut sink, (None, Key(105, Up)));
    assert_eq!(outputs(&mut sink), vec![]);
}

#[test]
fn machine_tracks_input_and_output_maps() {
    let mut m = Machine::new(Masker {});
    let mut sink: Ctx<(), MachineOut> = Ctx::new();
    m.run(&mut sink, (None, Key(7, Down)));
    m.run(&mut sink, (None, Key(107, Down)));
    m.run(&mut sink, (None, Key(8, Down)));
    assert!(m.context.maps.pre.get(7));
    assert!(m.context.maps.pre.get(8));
    assert!(!m.context.maps.post.get(7));
    assert!(m.context.maps.post.get(8));
    assert!(m.context.maps.mask.get(7));
    assert_eq!(m.context.buff.len(), 0);
}

#[test]
fn dead_machine_sees_nothing_more() {
    struct Once {
        done: bool,
    }
    impl View for Once {
        type V = bool;
        fn view(&self) -> bool {
            self.done
        }
    }
    impl Runnable<(), CoreEv, MachineOut> for Once {
        fn run(&mut self, x: &mut Ctx<(), MachineOut>, ev: (Option<()>, CoreEv)) {
            x.emit((ev.0, MachineOut::Core(ev.1)));
            if !self.done {
                self.done = true;
                x.emit((None, MachineOut::Runner(RunnerEv::Die)));
            }
        }
        fn spawn(&self, _name: &String) -> Option<Self> {
            None
        }
    }
    let mut runner = Runner::new(vec![RunRef::new("once", Once { done: false })]);
    let mut sink = Ctx::new();
    runner.run(&mut sink, (None, Key(1, Down)));
    assert_eq!(outputs(&mut sink), vec![(None, RunnerOut::Core(Key(1, Down)))]);
    runner.run(&mut sink, (None, Key(2, Down)));
    assert_eq!(outputs(&mut sink), vec![]);
}

#[test]
fn spawned_machine_runs_on_its_parents_output() {
    let mut runner = Runner::new(vec![RunRef::new("s", Splitter { depth: 1 })]);
    let mut sink = Ctx::new();
    runner.run(&mut sink, (None, Tick));
    assert_eq!(
        outputs(&mut sink),
        vec![
            (None, RunnerOut::Core(Tick)),
            (None, RunnerOut::Core(Key(0, Up))),
            (None, RunnerOut::Core(Key(1, Up))),
            (None, RunnerOut::Core(Key(0, Up))),
        ]
    );
    // both the parent and the child stay; on the next pass the parent
    // spawns again: parent (2), its new child (4), the old child (8)
    runner.run(&mut sink, (None, Tick));
    assert_eq!(outputs(&mut sink).len(), 8);
}

#[test]
fn sink_appends() {
    let mut q: VecDeque<u8> = VecDeque::new();
    q.emit(1);
    q.emit_many(vec![2, 3]);
    q.emit(4);
    assert_eq!(q, VecDeque::from(vec![1, 2, 3, 4]));
}

#[test]
fn key_values_read_and_written() {
    assert_eq!(movement_of(0), Some(Up));
    assert_eq!(movement_of(1), Some(Down));
    assert_eq!(movement_of(2), Some(Down));
    assert_eq!(movement_of(3), None);
    assert_eq!(movement_of(-1), None);
    assert_eq!(value_of(Up), 0);
    assert_eq!(value_of(Down), 1);
}

#[test]
fn reads_decide_the_next_step() {
    let key = Ok(ReadOutcome::Event(EventClass::Key(30, 2)));
    assert_eq!(decide(ReadMode::Read, key), (ReadMode::Read, Step::Feed(Key(30, Down))));
    let odd = Ok(ReadOutcome::Event(EventClass::Key(30, 7)));
    assert_eq!(decide(ReadMode::Read, odd), (ReadMode::Read, Step::Stop));
    let scan = Ok(ReadOutcome::Event(EventClass::Scan));
    assert_eq!(decide(ReadMode::Read, scan), (ReadMode::Read, Step::Skip));
    let other = Ok(ReadOutcome::Event(EventClass::Other));
    assert_eq!(decide(ReadMode::Read, other), (ReadMode::Read, Step::Forward));
    assert_eq!(decide(ReadMode::Read, Ok(ReadOutcome::Sync)), (ReadMode::Sync, Step::Skip));
    assert_eq!(decide(ReadMode::Sync, Ok(ReadOutcome::Sync)), (ReadMode::Sync, Step::Skip));
    assert_eq!(decide(ReadMode::Sync, key), (ReadMode::Read, Step::Skip));
    assert_eq!(decide(ReadMode::Sync, Err(ReadError::Interrupted)), (ReadMode::Sync, Step::Feed(Tick)));
    assert_eq!(decide(ReadMode::Read, Err(ReadError::Again)), (ReadMode::Read, Step::Skip));
    assert_eq!(decide(ReadMode::Read, Err(ReadError::Other)), (ReadMode::Read, Step::Stop));
}

#[test]
fn emitted_items_become_writes() {
    assert_eq!(write_for((Some(9u8), RunnerOut::Core(Key(4, Down)))), Write::Raw(9));
    assert_eq!(write_for::<u8>((None, RunnerOut::Core(Key(4, Up)))), Write::Key(4, 0));
    assert_eq!(write_for::<u8>((None, RunnerOut::Core(Key(4, Down)))), Write::Key(4, 1));
    assert_eq!(write_for((Some(9u8), RunnerOut::Core(Tick))), Write::Nothing);
    assert_eq!(write_for::<u8>((None, RunnerOut::Runner(RunnerEv::Die))), Write::Nothing);
}

#[test]
fn hook_flags_give_movement() {
    assert_eq!(movement_of_flags(0x80), Up);
    assert_eq!(movement_of_flags(0x81), Up);
    assert_eq!(movement_of_flags(0x01), Down);
    assert_eq!(movement_of_flags(0), Down);
}

#[test]
fn runner_keeps_tags() {
    let runner = Runner::new(vec![
        RunRef::new("first", Splitter { depth: 0 }),
        RunRef::new("second", Splitter { depth: 0 }),
    ]);
    let tags: Vec<&str> = runner.machines().iter().map(|r| r.tag).collect();
    assert_eq!(tags, vec!["first", "second"]);
}

#[test]
fn spawned_machine_takes_parents_tag() {
    let mut runner = Runner::new(vec![RunRef::new("parent", Splitter { depth: 1 })]);
    let mut sink = Ctx::new();
    runner.run(&mut sink, (None, Tick));
    let tags: Vec<&str> = runner.machines().iter().map(|r| r.tag).collect();
    assert_eq!(tags, vec!["parent", "parent"]);
}

#[test]
fn stage_runner_takes_every_trackable_key() {

    let mut runner: Runner<(), Machine<(), Stage>> = Runner::new(vec![
        RunRef::new("print", Machine::new(Stage::Print(PrintKeys::new(1, 31)))),
        RunRef::new("big", Machine::new(Stage::Big(BigMachine::new()))),
        RunRef::new("mode", Machine::new(Stage::Modes(ModeMachine::new()))),
        RunRef::new("lead", Machine::new(Stage::Lead(LeadMachine::new()))),
    ]);
    let mut x: Ctx<(), RunnerOut> = Ctx::new();
    runner.run(&mut x, (None, Key(1023, Down)));
    runner.run(&mut x, (None, Key(1023, Up)));
    let keys: Vec<CoreEv> = outputs(&mut x)
        .into_iter()
        .filter_map(|(_, o)| match o {
            RunnerOut::Core(Key(c, m)) => Some(Key(c, m)),
            _ => None,
        })
        .collect();
    assert_eq!(keys, vec![Key(1023, Down), Key(1023, Up)]);
    assert_eq!(runner.machines().len(), 4);
}
