use keymachines::common::{CoreEv, Movement, Out, RunnerOut};
use keymachines::machines::machine::Machine;
use keymachines::machines::runner::Runner;
use keymachines::machines::{Ctx, RunRef, Runnable};
use vstd::view::View;

use CoreEv::Key;
use Movement::{Down, Up};

struct Masker {}

impl View for Masker {
    type V = ();

    fn view(&self) -> () {}
}

impl Runnable<(), CoreEv, Out> for Masker {
    fn run(&mut self, x: &mut Ctx<(), Out>, ev: (Option<()>, CoreEv)) {
        match ev {
            (_, Key(i, Down)) if i > 100 => {
                x.mask(&[i - 100]);
            }
            (_, Key(i, Up)) if i > 100 => {
                x.unmask(&[i - 100]);
            }
            (raw, e) => {
                x.emit((raw, Out::Core(e)));
            }
        }
    }

    fn spawn(&self, _name: &String) -> Option<Self> {
        None
    }
}

#[test]
fn masking_obscures() {
    let mut runner = Runner::new(vec![RunRef::new("m1", Machine::new(Masker {}))]);

    let mut sink = Ctx::new();

    runner.run(&mut sink, (None, Key(101, Down)));

    runner.run(&mut sink, (None, Key(1, Down)));
    runner.run(&mut sink, (None, Key(2, Down)));
    assert!(sink.buff.contains(&(None, RunnerOut::Core(Key(2, Down)))));
    assert_eq!(sink.buff.len(), 1);

    runner.run(&mut sink, (None, Key(2, Up)));
    runner.run(&mut sink, (None, Key(1, Up)));
    assert!(sink.buff.contains(&(None, RunnerOut::Core(Key(2, Up)))));
    assert_eq!(sink.buff.len(), 2);
}

#[test]
fn unmasking_reemits() {
    let mut runner = Runner::new(vec![RunRef::new("m1", Machine::new(Masker {}))]);

    let mut sink = Ctx::new();

    runner.run(&mut sink, (None, Key(101, Down)));

    runner.run(&mut sink, (None, Key(1, Down)));
    assert_eq!(sink.buff.len(), 0, "real key suppressed");

    runner.run(&mut sink, (None, Key(101, Up)));
    assert!(
        sink.buff.contains(&(None, RunnerOut::Core(Key(1, Down)))),
        "on unmask, key finally percolates"
    );

    runner.run(&mut sink, (None, Key(101, Down)));
    assert!(
        sink.buff.contains(&(None, RunnerOut::Core(Key(1, Up)))),
        "on mask, key is released"
    );

    runner.run(&mut sink, (None, Key(1, Up)));
    assert_eq!(sink.buff.len(), 2, "real release suppressed");

    runner.run(&mut sink, (None, Key(101, Up)));
    assert_eq!(
        sink.buff.len(),
        2,
        "nothing to do as already apparently released"
    );
}
