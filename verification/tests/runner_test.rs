use keymachines::common::{CoreEv, MachineOut, Movement, RunnerEv};
use keymachines::machines::runner::Runner;
use keymachines::machines::{Ctx, RunRef, Runnable};
use vstd::view::View;

use CoreEv::{Key, Tick};
use Movement::Down;

struct Mayfly {
    life: u8,
}

impl View for Mayfly {
    type V = u8;

    fn view(&self) -> u8 {
        self.life
    }
}

impl Runnable<(), CoreEv, MachineOut> for Mayfly {
    fn run(&mut self, x: &mut Ctx<(), MachineOut>, ev: (Option<()>, CoreEv)) {
        if self.life > 0 {
            println!("reemitting");
            x.emit((ev.0, MachineOut::Core(ev.1)));
            self.life -= 1;
        } else {
            x.emit((None, MachineOut::Runner(RunnerEv::Die)));
        }
    }

    fn spawn(&self, _name: &String) -> Option<Self> {
        None
    }
}

struct Redoubler {
    i: u8,
    depth: u16,
}

impl View for Redoubler {
    type V = (u8, u16);

    fn view(&self) -> (u8, u16) {
        (self.i, self.depth)
    }
}

impl Runnable<(), CoreEv, MachineOut> for Redoubler {
    fn run(&mut self, x: &mut Ctx<(), MachineOut>, ev: (Option<()>, CoreEv)) {
        println!("D{:?} I{:?} E{:?}", self.depth, self.i, &ev);

        x.emit((ev.0, MachineOut::Core(ev.1)));
        x.emit((None, MachineOut::Core(Key(self.depth, Down))));

        if self.depth > 0 {
            x.emit((None, MachineOut::Runner(RunnerEv::Spawn("bob".to_string()))));
        }
    }

    fn spawn(&self, _name: &String) -> Option<Self> {
        if self.depth > 0 {
            Some(Redoubler { i: self.i + 1, depth: self.depth - 1 })
        } else {
            None
        }
    }
}

struct TestMachine {
    count: u16,
}

impl View for TestMachine {
    type V = u16;

    fn view(&self) -> u16 {
        self.count
    }
}

impl Runnable<(), CoreEv, MachineOut> for TestMachine {
    fn run(&mut self, x: &mut Ctx<(), MachineOut>, _ev: (Option<()>, CoreEv)) {
        for i in 0..self.count {
            let _ = i;
            x.emit((None, MachineOut::Core(Tick)))
        }
    }

    fn spawn(&self, _name: &String) -> Option<Self> {
        None
    }
}

#[test]
fn percolates() {
    let mut runner = Runner::new(vec![
        RunRef::new("2", TestMachine { count: 2 }),
        RunRef::new("3", TestMachine { count: 3 }),
    ]);

    let mut sink = Ctx::new();

    runner.run(&mut sink, (None, Tick));

    assert_eq!(sink.buff.len(), 2 * 3)
}

#[test]
fn accumulates_in_sink_buffer() {
    let mut runner = Runner::new(vec![
        RunRef::new("2", TestMachine { count: 2 }),
        RunRef::new("3", TestMachine { count: 3 }),
    ]);

    let mut sink = Ctx::new();

    runner.run(&mut sink, (None, Tick));
    runner.run(&mut sink, (None, Tick));

    assert_eq!(sink.buff.len(), (2 * 3) + (2 * 3))
}

#[test]
fn empty_set_opaque() {
    let mut runner = Runner::<(), TestMachine>::new(vec![]);

    let mut sink = Ctx::new();

    runner.run(&mut sink, (None, Tick));
    runner.run(&mut sink, (None, Tick));
    runner.run(&mut sink, (None, Tick));

    assert_eq!(sink.buff.len(), 0)
}

#[test]
fn spawns_machines() {
    let mut runner = Runner::new(vec![RunRef::new("alf", Redoubler { i: 0, depth: 2 })]);

    let mut sink = Ctx::new();

    runner.run(&mut sink, (None, Key(3, Down)));

    assert_eq!(sink.buff.len(), 16)
}

#[test]
fn spawns_machines_2() {
    let mut runner = Runner::new(vec![
        RunRef::new("baz", Redoubler { i: 10, depth: 1 }),
        RunRef::new("maz", Redoubler { i: 20, depth: 1 }),
    ]);

    let mut sink = Ctx::new();

    runner.run(&mut sink, (None, Key(10, Down)));

    assert_eq!(sink.buff.len(), 128)
}

#[test]
fn machines_die_too() {
    let mut runner = Runner::new(vec![RunRef::new("Morris", Mayfly { life: 3 })]);

    let mut sink = Ctx::new();

    runner.run(&mut sink, (None, Key(1, Down)));
    runner.run(&mut sink, (None, Key(2, Down)));
    runner.run(&mut sink, (None, Key(3, Down)));
    runner.run(&mut sink, (None, Key(4, Down)));
    runner.run(&mut sink, (None, Key(5, Down)));

    println!("{:?}", sink.buff);

    assert_eq!(sink.buff.len(), 3)
}

#[test]
fn machines_run_in_sequence() {
    let m1 = TestMachine { count: 3 };
    let m2 = TestMachine { count: 4 };
    let m3 = TestMachine { count: 5 };
    let m4 = TestMachine { count: 6 };
    let m5 = TestMachine { count: 7 };

    let mut runner = Runner::new(vec![
        RunRef::new("m1", m1),
        RunRef::new("m2", m2),
        RunRef::new("m3", m3),
        RunRef::new("m4", m4),
        RunRef::new("m5", m5),
    ]);

    let mut sink = Ctx::new();
    runner.run(&mut sink, (None, Tick));
    runner.run(&mut sink, (None, Tick));

    assert_eq!(sink.buff.len(), 2 * 3 * 4 * 5 * 6 * 7)
}
