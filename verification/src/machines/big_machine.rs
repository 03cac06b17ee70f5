//! A single machine that tracks shift and alt itself and, while both are
//! held, turns space into enter, J into down and K into up, masking the
//! modifiers while it does.

use vstd::prelude::*;

use crate::Action;
use crate::common::{CoreEv, MachineEv, Movement, Out, OutView};
use super::{Ctx, Runnable, is_key, mask_requests};
use super::key_maps::{track, track_inputs};

verus! {

#[derive(PartialEq, Eq, Structural, Copy, Clone, Debug)]
pub enum Mode {
    Root,
    Shift,
    Alt,
    AltShift,
    AltShiftSpace,
    AltShiftJ,
    AltShiftK,
}

pub struct BigMachine {
    mode: Mode,
}

impl View for BigMachine {
    type V = Mode;

    closed spec fn view(&self) -> Mode {
        self.mode
    }
}

pub open spec fn key(code: u16, movement: Movement) -> CoreEv {
    CoreEv::Key(code, movement)
}

/// The mode after `ev` in mode `prev`.
pub open spec fn big_next(prev: Mode, ev: CoreEv) -> Mode {
    match prev {
        Mode::Root => if ev == key(42, Movement::Down) {
            Mode::Shift
        } else if ev == key(56, Movement::Down) {
            Mode::Alt
        } else {
            prev
        },
        Mode::Shift => if ev == key(42, Movement::Up) {
            Mode::Root
        } else if ev == key(56, Movement::Down) {
            Mode::AltShift
        } else {
            prev
        },
        Mode::Alt => if ev == key(56, Movement::Up) {
            Mode::Root
        } else if ev == key(42, Movement::Down) {
            Mode::AltShift
        } else {
            prev
        },
        Mode::AltShift => if ev == key(42, Movement::Up) {
            Mode::Alt
        } else if ev == key(56, Movement::Up) {
            Mode::Shift
        } else if ev == key(36, Movement::Down) {
            Mode::AltShiftJ
        } else if ev == key(37, Movement::Down) {
            Mode::AltShiftK
        } else if ev == key(57, Movement::Down) {
            Mode::AltShiftSpace
        } else {
            prev
        },
        Mode::AltShiftSpace => if ev == key(42, Movement::Up) || ev == key(56, Movement::Up) {
            Mode::Root
        } else if ev == key(57, Movement::Up) {
            Mode::AltShift
        } else {
            prev
        },
        Mode::AltShiftJ => if ev == key(42, Movement::Up) || ev == key(56, Movement::Up) {
            Mode::Root
        } else if ev == key(36, Movement::Up) {
            Mode::AltShift
        } else {
            prev
        },
        Mode::AltShiftK => if ev == key(42, Movement::Up) || ev == key(56, Movement::Up) {
            Mode::Root
        } else if ev == key(37, Movement::Up) {
            Mode::AltShift
        } else {
            prev
        },
    }
}

/// Pressing `code` that maps to `target`: mask both modifiers, press the target.
pub open spec fn press_mapped<TRaw>(target: u16) -> Seq<(Option<TRaw>, OutView)> {
    mask_requests(seq![42u16, 56u16], true) + seq![(None, OutView::Core(key(target, Movement::Down)))]
}

/// Releasing it: release the target, unmask both modifiers.
pub open spec fn release_mapped<TRaw>(target: u16) -> Seq<(Option<TRaw>, OutView)> {
    seq![(None, OutView::Core(key(target, Movement::Up)))] + mask_requests(seq![42u16, 56u16], false)
}

/// What the machine emits itself when going from `prev` to `next` on `ev`,
/// or `None` if it passes the event on.
pub open spec fn big_action<TRaw>(prev: Mode, next: Mode, ev: CoreEv) -> Option<Seq<(Option<TRaw>, OutView)>> {
    if next == Mode::AltShiftSpace && ev == key(57, Movement::Down) {
        Some(press_mapped(28))
    } else if prev == Mode::AltShiftSpace && ev == key(57, Movement::Up) {
        Some(release_mapped(28))
    } else if next == Mode::AltShiftJ && ev == key(36, Movement::Down) {
        Some(press_mapped(108))
    } else if prev == Mode::AltShiftJ && ev == key(36, Movement::Up) {
        Some(release_mapped(108))
    } else if next == Mode::AltShiftK && ev == key(37, Movement::Down) {
        Some(press_mapped(103))
    } else if prev == Mode::AltShiftK && ev == key(37, Movement::Up) {
        Some(release_mapped(103))
    } else {
        None
    }
}

fn next_mode(prev: Mode, ev: &CoreEv) -> (m: Mode)
    ensures
        m == big_next(prev, *ev),
{
    match prev {
        Mode::Root => if is_key(ev, 42, Movement::Down) {
            Mode::Shift
        } else if is_key(ev, 56, Movement::Down) {
            Mode::Alt
        } else {
            prev
        },
        Mode::Shift => if is_key(ev, 42, Movement::Up) {
            Mode::Root
        } else if is_key(ev, 56, Movement::Down) {
            Mode::AltShift
        } else {
            prev
        },
        Mode::Alt => if is_key(ev, 56, Movement::Up) {
            Mode::Root
        } else if is_key(ev, 42, Movement::Down) {
            Mode::AltShift
        } else {
            prev
        },
        Mode::AltShift => if is_key(ev, 42, Movement::Up) {
            Mode::Alt
        } else if is_key(ev, 56, Movement::Up) {
            Mode::Shift
        } else if is_key(ev, 36, Movement::Down) {
            Mode::AltShiftJ
        } else if is_key(ev, 37, Movement::Down) {
            Mode::AltShiftK
        } else if is_key(ev, 57, Movement::Down) {
            Mode::AltShiftSpace
        } else {
            prev
        },
        Mode::AltShiftSpace => if is_key(ev, 42, Movement::Up) || is_key(ev, 56, Movement::Up) {
            Mode::Root
        } else if is_key(ev, 57, Movement::Up) {
            Mode::AltShift
        } else {
            prev
        },
        Mode::AltShiftJ => if is_key(ev, 42, Movement::Up) || is_key(ev, 56, Movement::Up) {
            Mode::Root
        } else if is_key(ev, 36, Movement::Up) {
            Mode::AltShift
        } else {
            prev
        },
        Mode::AltShiftK => if is_key(ev, 42, Movement::Up) || is_key(ev, 56, Movement::Up) {
            Mode::Root
        } else if is_key(ev, 37, Movement::Up) {
            Mode::AltShift
        } else {
            prev
        },
    }
}

fn press<TRaw>(x: &mut Ctx<TRaw, Out>, target: u16)
    ensures
        final(x).buff_view() == old(x).buff_view() + press_mapped::<TRaw>(target),
        final(x).maps == old(x).maps,
{
    let modifiers: [u16; 2] = [42, 56];
    x.mask(&modifiers);
    x.key_down(target);
    proof {
        assert(modifiers@ =~= seq![42u16, 56u16]);
    }
    assert(x.buff_view() =~= old(x).buff_view() + press_mapped::<TRaw>(target));
}

fn release<TRaw>(x: &mut Ctx<TRaw, Out>, target: u16)
    ensures
        final(x).buff_view() == old(x).buff_view() + release_mapped::<TRaw>(target),
        final(x).maps == old(x).maps,
{
    let modifiers: [u16; 2] = [42, 56];
    x.key_up(target);
    x.unmask(&modifiers);
    proof {
        assert(modifiers@ =~= seq![42u16, 56u16]);
    }
    assert(x.buff_view() =~= old(x).buff_view() + release_mapped::<TRaw>(target));
}

impl BigMachine {
    pub fn new() -> (m: BigMachine)
        ensures
            m@ == Mode::Root,
    {
        BigMachine { mode: Mode::Root }
    }
}

impl<TRaw> Runnable<TRaw, CoreEv, Out> for BigMachine {
    open spec fn next(s: Mode, ev: (Option<TRaw>, CoreEv)) -> Mode {
        big_next(s, ev.1)
    }

    open spec fn emitted(s: Mode, ev: (Option<TRaw>, CoreEv)) -> Seq<(Option<TRaw>, OutView)> {
        match big_action::<TRaw>(s, big_next(s, ev.1), ev.1) {
            Some(out) => out,
            None => seq![(ev.0, OutView::Core(ev.1))],
        }
    }

    fn run(&mut self, x: &mut Ctx<TRaw, Out>, inp: (Option<TRaw>, CoreEv)) {
        let (raw, ev) = inp;
        let prev_mode = self.mode;
        let next_mode = next_mode(prev_mode, &ev);
        let action = if next_mode == Mode::AltShiftSpace && is_key(&ev, 57, Movement::Down) {
            press(x, 28);
            Action::Take
        } else if prev_mode == Mode::AltShiftSpace && is_key(&ev, 57, Movement::Up) {
            release(x, 28);
            Action::Take
        } else if next_mode == Mode::AltShiftJ && is_key(&ev, 36, Movement::Down) {
            press(x, 108);
            Action::Take
        } else if prev_mode == Mode::AltShiftJ && is_key(&ev, 36, Movement::Up) {
            release(x, 108);
            Action::Take
        } else if next_mode == Mode::AltShiftK && is_key(&ev, 37, Movement::Down) {
            press(x, 103);
            Action::Take
        } else if prev_mode == Mode::AltShiftK && is_key(&ev, 37, Movement::Up) {
            release(x, 103);
            Action::Take
        } else {
            Action::Skip
        };
        match action {
            Action::Skip => {
                let ghost xb = x.buff_view();
                let ghost ev_v = ev;
                x.emit((raw, Out::Core(ev)));
                assert(x.buff_view() =~= xb.push((raw, OutView::Core(ev_v))));
            },
            Action::Take => {},
        }
        self.mode = next_mode;
        assert(x.buff_view() =~= old(x).buff_view() + Self::emitted(old(self)@, inp));
    }

    fn spawn(&self, name: &String) -> (child: Option<Self>) {
        None
    }
}

} // verus!

verus! {

/// Outside the alt-shift chords every event passes on unchanged.
pub proof fn lemma_passes_outside_chords<TRaw>(s: Mode, ev: (Option<TRaw>, CoreEv))
    requires
        s == Mode::Root || s == Mode::Shift || s == Mode::Alt,
    ensures
        <BigMachine as Runnable<TRaw, CoreEv, Out>>::emitted(s, ev) == seq![(ev.0, OutView::Core(ev.1))],
{
}

/// Under alt-shift, pressing and releasing space, J or K presses and
/// releases its target (enter, down, up) with the modifiers masked around it,
/// and comes back to alt-shift.
pub proof fn lemma_mapped_key_balanced<TRaw>(r1: Option<TRaw>, r2: Option<TRaw>, code: u16, target: u16)
    requires
        (code == 57 && target == 28) || (code == 36 && target == 108) || (code == 37 && target == 103),
    ensures
        ({
            let s1 = <BigMachine as Runnable<TRaw, CoreEv, Out>>::next(Mode::AltShift, (r1, key(code, Movement::Down)));
            <BigMachine as Runnable<TRaw, CoreEv, Out>>::next(s1, (r2, key(code, Movement::Up)))
        }) == Mode::AltShift,
        <BigMachine as Runnable<TRaw, CoreEv, Out>>::emitted(Mode::AltShift, (r1, key(code, Movement::Down)))
            == press_mapped::<TRaw>(target),
        ({
            let s1 = <BigMachine as Runnable<TRaw, CoreEv, Out>>::next(Mode::AltShift, (r1, key(code, Movement::Down)));
            <BigMachine as Runnable<TRaw, CoreEv, Out>>::emitted(s1, (r2, key(code, Movement::Up)))
        }) == release_mapped::<TRaw>(target),
{
}

} // verus!

verus! {

/// The mode agrees with the held modifiers: shift (42) is held in `Shift`,
/// alt (56) in `Alt`, and both in every alt-shift mode.
pub open spec fn big_consistent(mode: Mode, held: Set<int>) -> bool {
    match mode {
        Mode::Root => true,
        Mode::Shift => held.contains(42),
        Mode::Alt => held.contains(56),
        _ => held.contains(42) && held.contains(56),
    }
}

/// The mode after the events of `evs`, in order, starting in `s`.
pub open spec fn big_run<TRaw>(s: Mode, evs: Seq<(Option<TRaw>, CoreEv)>) -> Mode
    decreases evs.len(),
{
    if evs.len() == 0 {
        s
    } else {
        big_run(big_next(s, evs[0].1), evs.drop_first())
    }
}

/// Whatever the events, the mode stays in agreement with the modifiers held.
pub proof fn lemma_big_mode_follows_modifiers<TRaw>(s: Mode, held: Set<int>, evs: Seq<(Option<TRaw>, CoreEv)>)
    requires
        big_consistent(s, held),
    ensures
        big_consistent(big_run(s, evs), track_inputs(held, evs)),
    decreases evs.len(),
{
    if evs.len() > 0 {
        lemma_big_mode_follows_modifiers(big_next(s, evs[0].1), track(held, evs[0].1), evs.drop_first());
    }
}

/// From a new machine, after any events, an event that comes while shift
/// and alt are not both held passes on unchanged and alone: remapping and
/// masking happen only under both.
pub proof fn lemma_big_passes_unless_chorded<TRaw>(evs: Seq<(Option<TRaw>, CoreEv)>, ev: (Option<TRaw>, CoreEv))
    requires
        !(track_inputs(Set::<int>::empty(), evs).contains(42) && track_inputs(Set::<int>::empty(), evs).contains(
            56,
        )),
    ensures
        <BigMachine as Runnable<TRaw, CoreEv, Out>>::emitted(big_run(Mode::Root, evs), ev) == seq![
            (ev.0, OutView::Core(ev.1)),
        ],
{
    lemma_big_mode_follows_modifiers(Mode::Root, Set::<int>::empty(), evs);
    lemma_passes_outside_chords(big_run(Mode::Root, evs), ev);
}

} // verus!

verus! {

/// Under alt-shift, pressing space, J or K (or the key repeating while held,
/// which leaves the mode as it is) masks shift (42) and alt (56) and presses
/// enter (28), down (108) or up (103) in its place; the key itself never
/// passes on. Holding J keeps the machine in the J mode.
pub proof fn lemma_chord_press_maps<TRaw>(prev: Mode, raw: Option<TRaw>)
    ensures
        big_next(Mode::AltShiftJ, key(36, Movement::Down)) == Mode::AltShiftJ,
        big_next(Mode::AltShiftK, key(37, Movement::Down)) == Mode::AltShiftK,
        big_next(Mode::AltShiftSpace, key(57, Movement::Down)) == Mode::AltShiftSpace,
        big_next(prev, key(57, Movement::Down)) == Mode::AltShiftSpace ==> <BigMachine as Runnable<
            TRaw,
            CoreEv,
            Out,
        >>::emitted(prev, (raw, key(57, Movement::Down))) == seq![
            (None::<TRaw>, OutView::Machine(MachineEv::MaskOn(42))),
            (None, OutView::Machine(MachineEv::MaskOn(56))),
            (None, OutView::Core(CoreEv::Key(28, Movement::Down))),
        ],
        big_next(prev, key(36, Movement::Down)) == Mode::AltShiftJ ==> <BigMachine as Runnable<
            TRaw,
            CoreEv,
            Out,
        >>::emitted(prev, (raw, key(36, Movement::Down))) == seq![
            (None::<TRaw>, OutView::Machine(MachineEv::MaskOn(42))),
            (None, OutView::Machine(MachineEv::MaskOn(56))),
            (None, OutView::Core(CoreEv::Key(108, Movement::Down))),
        ],
        big_next(prev, key(37, Movement::Down)) == Mode::AltShiftK ==> <BigMachine as Runnable<
            TRaw,
            CoreEv,
            Out,
        >>::emitted(prev, (raw, key(37, Movement::Down))) == seq![
            (None::<TRaw>, OutView::Machine(MachineEv::MaskOn(42))),
            (None, OutView::Machine(MachineEv::MaskOn(56))),
            (None, OutView::Core(CoreEv::Key(103, Movement::Down))),
        ],
{
    reveal_with_fuel(mask_requests, 3);
    assert(seq![42u16, 56u16].drop_last() =~= seq![42u16]);
    assert(seq![42u16].drop_last() =~= Seq::<u16>::empty());
    let on = mask_requests::<TRaw>(seq![42u16, 56u16], true);
    assert(on =~= seq![
        (None::<TRaw>, OutView::Machine(MachineEv::MaskOn(42))),
        (None, OutView::Machine(MachineEv::MaskOn(56))),
    ]);
    assert(press_mapped::<TRaw>(28) =~= on + seq![(None, OutView::Core(CoreEv::Key(28, Movement::Down)))]);
    assert(press_mapped::<TRaw>(108) =~= on + seq![(None, OutView::Core(CoreEv::Key(108, Movement::Down)))]);
    assert(press_mapped::<TRaw>(103) =~= on + seq![(None, OutView::Core(CoreEv::Key(103, Movement::Down)))]);
}

} // verus!

verus! {

/// Releasing space, J or K while in its mode releases the key pressed in its
/// place and then unmasks shift (42) and alt (56); the key itself never
/// passes on.
pub proof fn lemma_chord_release_maps<TRaw>(raw: Option<TRaw>)
    ensures
        <BigMachine as Runnable<TRaw, CoreEv, Out>>::emitted(Mode::AltShiftSpace, (raw, key(57, Movement::Up))) == seq![
            (None::<TRaw>, OutView::Core(CoreEv::Key(28, Movement::Up))),
            (None, OutView::Machine(MachineEv::MaskOff(42))),
            (None, OutView::Machine(MachineEv::MaskOff(56))),
        ],
        <BigMachine as Runnable<TRaw, CoreEv, Out>>::emitted(Mode::AltShiftJ, (raw, key(36, Movement::Up))) == seq![
            (None::<TRaw>, OutView::Core(CoreEv::Key(108, Movement::Up))),
            (None, OutView::Machine(MachineEv::MaskOff(42))),
            (None, OutView::Machine(MachineEv::MaskOff(56))),
        ],
        <BigMachine as Runnable<TRaw, CoreEv, Out>>::emitted(Mode::AltShiftK, (raw, key(37, Movement::Up))) == seq![
            (None::<TRaw>, OutView::Core(CoreEv::Key(103, Movement::Up))),
            (None, OutView::Machine(MachineEv::MaskOff(42))),
            (None, OutView::Machine(MachineEv::MaskOff(56))),
        ],
{
    reveal_with_fuel(mask_requests, 3);
    assert(seq![42u16, 56u16].drop_last() =~= seq![42u16]);
    assert(seq![42u16].drop_last() =~= Seq::<u16>::empty());
    let off = mask_requests::<TRaw>(seq![42u16, 56u16], false);
    assert(off =~= seq![
        (None::<TRaw>, OutView::Machine(MachineEv::MaskOff(42))),
        (None, OutView::Machine(MachineEv::MaskOff(56))),
    ]);
    assert(release_mapped::<TRaw>(28) =~= seq![(None, OutView::Core(CoreEv::Key(28, Movement::Up)))] + off);
    assert(release_mapped::<TRaw>(108) =~= seq![(None, OutView::Core(CoreEv::Key(108, Movement::Up)))] + off);
    assert(release_mapped::<TRaw>(103) =~= seq![(None, OutView::Core(CoreEv::Key(103, Movement::Up)))] + off);
}

} // verus!
