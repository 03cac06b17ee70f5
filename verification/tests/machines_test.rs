use keymachines::common::{same_name, mode_is, CoreEv, MachineEv, Mode, Movement, Out, RunnerEv};
use keymachines::machines::big_machine::BigMachine;
use keymachines::machines::dynamic_machine::DynamicMachine;
use keymachines::machines::lead_machine::LeadMachine;
use keymachines::machines::mode_machine::ModeMachine;
use keymachines::machines::print_keys::PrintKeys;
use keymachines::machines::{Ctx, Runnable};

use CoreEv::{Key, Off, On, Tick};
use Movement::{Down, Up};

fn drain(x: &mut Ctx<u8, Out>) -> Vec<(Option<u8>, Out)> {
    let mut v = Vec::new();
    while let Some(item) = x.buff.pop_front() {
        v.push(item);
    }
    v
}

#[test]
fn names_compare_by_characters() {
    assert!(same_name("MShift", "MShift"));
    assert!(!same_name("MShift", "MAltShift"));
    assert!(mode_is(Mode::Mode("MAlt"), "MAlt"));
    assert!(!mode_is(Mode::Root, "MAlt"));
}

#[test]
fn ctx_emits_in_order() {
    let mut x: Ctx<u8, Out> = Ctx::new();
    x.key_down(3);
    x.mask(&[4, 5]);
    x.unmask(&[6]);
    x.key_up(3);
    x.emit_many(vec![(Some(1), Out::Core(Tick)), (None, Out::Core(Key(9, Up)))]);
    assert_eq!(
        drain(&mut x),
        vec![
            (None, Out::Core(Key(3, Down))),
            (None, Out::Machine(MachineEv::MaskOn(4))),
            (None, Out::Machine(MachineEv::MaskOn(5))),
            (None, Out::Machine(MachineEv::MaskOff(6))),
            (None, Out::Core(Key(3, Up))),
            (Some(1), Out::Core(Tick)),
            (None, Out::Core(Key(9, Up))),
        ]
    );
}

#[test]
fn mode_machine_announces_shift() {
    let mut m = ModeMachine::new();
    let mut x: Ctx<u8, Out> = Ctx::new();
    m.run(&mut x, (Some(7), Key(42, Down)));
    assert_eq!(
        drain(&mut x),
        vec![
            (None, Out::Core(Off(Mode::Root))),
            (None, Out::Core(On(Mode::Mode("MShift")))),
            (Some(7), Out::Core(Key(42, Down))),
        ]
    );
    m.run(&mut x, (Some(8), Key(42, Up)));
    assert_eq!(
        drain(&mut x),
        vec![
            (None, Out::Core(Off(Mode::Mode("MShift")))),
            (None, Out::Core(On(Mode::Root))),
            (Some(8), Out::Core(Key(42, Up))),
        ]
    );
    // other keys pass straight through
    m.run(&mut x, (Some(9), Key(30, Down)));
    assert_eq!(drain(&mut x), vec![(Some(9), Out::Core(Key(30, Down)))]);
}

#[test]
fn mode_machine_launches_on_alt_shift_j() {
    let mut m = ModeMachine::new();
    let mut x: Ctx<u8, Out> = Ctx::new();
    m.run(&mut x, (None, Key(56, Down)));
    m.run(&mut x, (None, Key(42, Down)));
    drain(&mut x);
    m.run(&mut x, (Some(2), Key(36, Down)));
    assert_eq!(
        drain(&mut x),
        vec![
            (None, Out::Runner(RunnerEv::Spawn("AltShiftJ".to_string()))),
            (Some(2), Out::Core(Key(36, Down))),
        ]
    );
    m.run(&mut x, (None, Key(56, Up)));
    assert_eq!(
        drain(&mut x),
        vec![
            (None, Out::Core(Off(Mode::Mode("MAltShift")))),
            (None, Out::Core(On(Mode::Mode("MShift")))),
            (None, Out::Core(Key(56, Up))),
        ]
    );
}

#[test]
fn lead_machine_turns_j_into_down_arrow() {
    let mut m = LeadMachine::new();
    let mut x: Ctx<u8, Out> = Ctx::new();
    m.run(&mut x, (None, On(Mode::Mode("MAltShift"))));
    assert_eq!(
        drain(&mut x),
        vec![
            (None, Out::Core(Off(Mode::Root))),
            (None, Out::Core(On(Mode::Mode("AltShift")))),
            (None, Out::Core(On(Mode::Mode("MAltShift")))),
        ]
    );
    m.run(&mut x, (Some(1), Key(36, Down)));
    drain(&mut x);
    m.run(&mut x, (Some(2), Key(36, Down)));
    assert_eq!(drain(&mut x), vec![(None, Out::Core(Key(108, Down)))]);
    m.run(&mut x, (Some(3), Key(36, Up)));
    assert_eq!(
        drain(&mut x),
        vec![
            (None, Out::Core(Key(108, Up))),
            (None, Out::Core(Off(Mode::Mode("AltShiftJ")))),
            (None, Out::Core(On(Mode::Mode("AltShift")))),
        ]
    );
}

#[test]
fn big_machine_maps_space_to_enter() {
    let mut m = BigMachine::new();
    let mut x: Ctx<u8, Out> = Ctx::new();
    m.run(&mut x, (Some(1), Key(42, Down)));
    m.run(&mut x, (Some(2), Key(56, Down)));
    assert_eq!(
        drain(&mut x),
        vec![(Some(1), Out::Core(Key(42, Down))), (Some(2), Out::Core(Key(56, Down)))]
    );
    m.run(&mut x, (Some(3), Key(57, Down)));
    assert_eq!(
        drain(&mut x),
        vec![
            (None, Out::Machine(MachineEv::MaskOn(42))),
            (None, Out::Machine(MachineEv::MaskOn(56))),
            (None, Out::Core(Key(28, Down))),
        ]
    );
    m.run(&mut x, (Some(4), Key(57, Up)));
    assert_eq!(
        drain(&mut x),
        vec![
            (None, Out::Core(Key(28, Up))),
            (None, Out::Machine(MachineEv::MaskOff(42))),
            (None, Out::Machine(MachineEv::MaskOff(56))),
        ]
    );
    // back under alt-shift, so J maps too
    m.run(&mut x, (Some(5), Key(36, Down)));
    assert_eq!(
        drain(&mut x),
        vec![
            (None, Out::Machine(MachineEv::MaskOn(42))),
            (None, Out::Machine(MachineEv::MaskOn(56))),
            (None, Out::Core(Key(108, Down))),
        ]
    );
}

#[test]
fn big_machine_passes_plain_keys() {
    let mut m = BigMachine::new();
    let mut x: Ctx<u8, Out> = Ctx::new();
    m.run(&mut x, (Some(1), Key(57, Down)));
    m.run(&mut x, (Some(2), Key(36, Up)));
    assert_eq!(
        drain(&mut x),
        vec![(Some(1), Out::Core(Key(57, Down))), (Some(2), Out::Core(Key(36, Up)))]
    );
}

#[test]
fn pass_through_machines_pass_everything() {
    let mut d = DynamicMachine {};
    let mut p = PrintKeys::new(1, 31);
    let mut x: Ctx<u8, Out> = Ctx::new();
    d.run(&mut x, (Some(1), Tick));
    p.run(&mut x, (None, Key(3, Up)));
    assert_eq!(
        drain(&mut x),
        vec![(Some(1), Out::Core(Tick)), (None, Out::Core(Key(3, Up)))]
    );
    assert_eq!(p.tabs(), 1);
    assert_eq!(p.colour(), 31);
}

#[test]
fn print_keys_lists_keys_down() {
    let p = PrintKeys::new(4, 32);
    let mut x: Ctx<u8, Out> = Ctx::new();
    x.maps.track_in(&Key(30, Down));
    x.maps.track_in(&Key(2, Down));
    x.maps.track_in(&Key(1000, Down));
    assert_eq!(p.line(&x.maps, &Key(30, Down)), vec![(2, false), (30, true), (1000, false)]);
    assert_eq!(p.line(&x.maps, &Tick), vec![(2, false), (30, false), (1000, false)]);
}

#[test]
fn big_machine_remaps_only_under_both_modifiers() {
    let mut m = BigMachine::new();
    let mut x: Ctx<u8, Out> = Ctx::new();
    m.run(&mut x, (Some(1), Key(42, Down)));
    m.run(&mut x, (Some(2), Key(56, Down)));
    m.run(&mut x, (Some(3), Key(42, Up)));
    drain(&mut x);
    // only alt is held now: space passes unchanged
    m.run(&mut x, (Some(4), Key(57, Down)));
    assert_eq!(drain(&mut x), vec![(Some(4), Out::Core(Key(57, Down)))]);
}

#[test]
fn lead_machine_passes_other_keys_in_j_mode() {
    let mut m = LeadMachine::new();
    let mut x: Ctx<u8, Out> = Ctx::new();
    m.run(&mut x, (None, On(Mode::Mode("MAltShift"))));
    m.run(&mut x, (Some(1), Key(36, Down)));
    drain(&mut x);
    m.run(&mut x, (Some(2), Key(30, Down)));
    assert_eq!(drain(&mut x), vec![(Some(2), Out::Core(Key(30, Down)))]);
}

#[test]
fn mode_machine_follows_held_modifiers() {
    let mut m = ModeMachine::new();
    let mut x: Ctx<u8, Out> = Ctx::new();
    m.run(&mut x, (None, Key(42, Down)));
    m.run(&mut x, (None, Key(56, Down)));
    m.run(&mut x, (None, Key(42, Down)));
    drain(&mut x);
    // releasing shift leaves alt held
    m.run(&mut x, (None, Key(42, Up)));
    assert_eq!(
        drain(&mut x),
        vec![
            (None, Out::Core(Off(Mode::Mode("MAltShift")))),
            (None, Out::Core(On(Mode::Mode("MAlt")))),
            (None, Out::Core(Key(42, Up))),
        ]
    );
}
