//! A machine that tracks which modifiers are held (shift, alt, both) as
//! named modes, announces each change, and asks for a launch on alt-shift-J.

use vstd::prelude::*;

use crate::common::{Act, CoreEv, Mode, Movement, Out, OutView, is_named, mode_is};
use super::{Ctx, Runnable, acts_effect, acts_output, run_acts};
use super::key_maps::{track, track_inputs};

verus! {

pub struct ModeMachine {
    mode: Mode,
}

impl View for ModeMachine {
    type V = Mode;

    closed spec fn view(&self) -> Mode {
        self.mode
    }
}

/// The acts that `ev` triggers in `mode`.
pub open spec fn mode_table(mode: Mode, ev: CoreEv) -> Seq<Act> {
    match ev {
        CoreEv::Key(42, Movement::Down) => if mode is Root {
            seq![Act::Then(Mode::Mode("MShift"))]
        } else if is_named(mode, "MAlt") {
            seq![Act::Then(Mode::Mode("MAltShift"))]
        } else {
            Seq::empty()
        },
        CoreEv::Key(56, Movement::Down) => if mode is Root {
            seq![Act::Then(Mode::Mode("MAlt"))]
        } else if is_named(mode, "MShift") {
            seq![Act::Then(Mode::Mode("MAltShift"))]
        } else {
            Seq::empty()
        },
        CoreEv::Key(42, Movement::Up) => if is_named(mode, "MShift") {
            seq![Act::Then(Mode::Root)]
        } else if is_named(mode, "MAltShift") {
            seq![Act::Then(Mode::Mode("MAlt"))]
        } else {
            Seq::empty()
        },
        CoreEv::Key(56, Movement::Up) => if is_named(mode, "MAlt") {
            seq![Act::Then(Mode::Root)]
        } else if is_named(mode, "MAltShift") {
            seq![Act::Then(Mode::Mode("MShift"))]
        } else {
            Seq::empty()
        },
        CoreEv::Key(36, Movement::Down) => if is_named(mode, "MAltShift") {
            seq![Act::Launch("AltShiftJ")]
        } else {
            Seq::empty()
        },
        _ => Seq::empty(),
    }
}

fn mode_acts(mode: Mode, ev: &CoreEv) -> (acts: Vec<Act>)
    ensures
        acts@ == mode_table(mode, *ev),
{
    let root = match mode {
        Mode::Root => true,
        _ => false,
    };
    match ev {
        CoreEv::Key(code, movement) => {
            let code = *code;
            let down = *movement == Movement::Down;
            if code == 42 && down {
                if root {
                    vec![Act::Then(Mode::Mode("MShift"))]
                } else if mode_is(mode, "MAlt") {
                    vec![Act::Then(Mode::Mode("MAltShift"))]
                } else {
                    vec![]
                }
            } else if code == 56 && down {
                if root {
                    vec![Act::Then(Mode::Mode("MAlt"))]
                } else if mode_is(mode, "MShift") {
                    vec![Act::Then(Mode::Mode("MAltShift"))]
                } else {
                    vec![]
                }
            } else if code == 42 && !down {
                if mode_is(mode, "MShift") {
                    vec![Act::Then(Mode::Root)]
                } else if mode_is(mode, "MAltShift") {
                    vec![Act::Then(Mode::Mode("MAlt"))]
                } else {
                    vec![]
                }
            } else if code == 56 && !down {
                if mode_is(mode, "MAlt") {
                    vec![Act::Then(Mode::Root)]
                } else if mode_is(mode, "MAltShift") {
                    vec![Act::Then(Mode::Mode("MShift"))]
                } else {
                    vec![]
                }
            } else if code == 36 && down {
                if mode_is(mode, "MAltShift") {
                    vec![Act::Launch("AltShiftJ")]
                } else {
                    vec![]
                }
            } else {
                vec![]
            }
        },
        _ => vec![],
    }
}

impl ModeMachine {
    pub fn new() -> (m: ModeMachine)
        ensures
            m@ == Mode::Root,
    {
        ModeMachine { mode: Mode::Root }
    }
}

impl<TRaw> Runnable<TRaw, CoreEv, Out> for ModeMachine {
    open spec fn next(s: Mode, ev: (Option<TRaw>, CoreEv)) -> Mode {
        acts_effect::<TRaw>(s, mode_table(s, ev.1)).0
    }

    open spec fn emitted(s: Mode, ev: (Option<TRaw>, CoreEv)) -> Seq<(Option<TRaw>, OutView)> {
        acts_output(s, mode_table(s, ev.1), ev)
    }

    fn run(&mut self, x: &mut Ctx<TRaw, Out>, ev: (Option<TRaw>, CoreEv)) {
        let (raw, e) = ev;
        let acts = mode_acts(self.mode, &e);
        let reemit = run_acts(&mut self.mode, &acts, x);
        if reemit {
            let ghost xb = x.buff_view();
            let ghost ev_v = e;
            x.emit((raw, Out::Core(e)));
            assert(x.buff_view() =~= xb.push((raw, OutView::Core(ev_v))));
        }
        assert(x.buff_view() =~= old(x).buff_view() + acts_output(old(self)@, mode_table(old(self)@, ev.1), ev));
    }

    fn spawn(&self, name: &String) -> (child: Option<Self>) {
        None
    }
}

} // verus!

verus! {

/// The mode machine never swallows an event: whatever it emits, the event
/// itself comes last.
pub proof fn lemma_mode_machine_passes_every_event<TRaw>(s: Mode, ev: (Option<TRaw>, CoreEv))
    ensures
        <ModeMachine as Runnable<TRaw, CoreEv, Out>>::emitted(s, ev).len() > 0,
        <ModeMachine as Runnable<TRaw, CoreEv, Out>>::emitted(s, ev).last() == (ev.0, OutView::Core(ev.1)),
{
    let acts = mode_table(s, ev.1);
    assert forall|i: int| 0 <= i < acts.len() implies !(#[trigger] acts[i] is Drop) by {}
    super::lemma_no_drop_passes_on::<TRaw>(s, acts);
}

/// A change of mode is announced: the old mode ends, the new one begins,
/// then the event passes on.
pub proof fn lemma_mode_change_announced<TRaw>(s: Mode, ev: (Option<TRaw>, CoreEv), n: Mode)
    requires
        mode_table(s, ev.1) == seq![Act::Then(n)],
    ensures
        <ModeMachine as Runnable<TRaw, CoreEv, Out>>::next(s, ev) == n,
        <ModeMachine as Runnable<TRaw, CoreEv, Out>>::emitted(s, ev) == seq![
            (None, OutView::Core(CoreEv::Off(s))),
            (None, OutView::Core(CoreEv::On(n))),
            (ev.0, OutView::Core(ev.1)),
        ],
{
    reveal_with_fuel(acts_effect, 2);
    let acts = mode_table(s, ev.1);
    assert(acts.drop_first() =~= Seq::<Act>::empty());
    assert(acts_effect::<TRaw>(s, acts).1 =~= seq![
        (None, OutView::Core(CoreEv::Off(s))),
        (None, OutView::Core(CoreEv::On(n))),
    ]);
    assert(<ModeMachine as Runnable<TRaw, CoreEv, Out>>::emitted(s, ev) =~= seq![
        (None, OutView::Core(CoreEv::Off(s))),
        (None, OutView::Core(CoreEv::On(n))),
        (ev.0, OutView::Core(ev.1)),
    ]);
}

/// A table entry that only switches to `n` leads to `n`.
proof fn lemma_then_leads_to<TRaw>(s: Mode, n: Mode)
    ensures
        acts_effect::<TRaw>(s, seq![Act::Then(n)]).0 == n,
{
    reveal_with_fuel(acts_effect, 2);
    assert(seq![Act::Then(n)].drop_first() =~= Seq::<Act>::empty());
}

/// Pressing and releasing shift, alone or around alt, comes back to `Root`.
pub proof fn lemma_modifiers_round_trip<TRaw>(r1: Option<TRaw>, r2: Option<TRaw>, r3: Option<TRaw>, r4: Option<TRaw>)
    ensures
        ({
            let s1 = <ModeMachine as Runnable<TRaw, CoreEv, Out>>::next(Mode::Root, (r1, CoreEv::Key(42, Movement::Down)));
            <ModeMachine as Runnable<TRaw, CoreEv, Out>>::next(s1, (r2, CoreEv::Key(42, Movement::Up)))
        }) == Mode::Root,
        ({
            let s1 = <ModeMachine as Runnable<TRaw, CoreEv, Out>>::next(Mode::Root, (r1, CoreEv::Key(42, Movement::Down)));
            let s2 = <ModeMachine as Runnable<TRaw, CoreEv, Out>>::next(s1, (r2, CoreEv::Key(56, Movement::Down)));
            let s3 = <ModeMachine as Runnable<TRaw, CoreEv, Out>>::next(s2, (r3, CoreEv::Key(56, Movement::Up)));
            <ModeMachine as Runnable<TRaw, CoreEv, Out>>::next(s3, (r4, CoreEv::Key(42, Movement::Up)))
        }) == Mode::Root,
{
    reveal_strlit("MShift");
    reveal_strlit("MAlt");
    reveal_strlit("MAltShift");
    assert("MAltShift"@.len() == 9);
    assert("MAlt"@.len() == 4);
    assert("MShift"@.len() == 6);
    let shift = Mode::Mode("MShift");
    let alt_shift = Mode::Mode("MAltShift");
    lemma_then_leads_to::<TRaw>(Mode::Root, shift);
    lemma_then_leads_to::<TRaw>(shift, Mode::Root);
    lemma_then_leads_to::<TRaw>(shift, alt_shift);
    lemma_then_leads_to::<TRaw>(alt_shift, shift);
    assert(!is_named(alt_shift, "MAlt"));
    assert(mode_table(Mode::Root, CoreEv::Key(42, Movement::Down)) == seq![Act::Then(shift)]);
    assert(mode_table(shift, CoreEv::Key(42, Movement::Up)) == seq![Act::Then(Mode::Root)]);
    assert(mode_table(shift, CoreEv::Key(56, Movement::Down)) == seq![Act::Then(alt_shift)]);
    assert(mode_table(alt_shift, CoreEv::Key(56, Movement::Up)) == seq![Act::Then(shift)]);
}

} // verus!

verus! {

/// The mode that the held modifiers call for: shift is 42, alt is 56.
pub open spec fn modifier_mode(held: Set<int>) -> Mode {
    if held.contains(42) && held.contains(56) {
        Mode::Mode("MAltShift")
    } else if held.contains(42) {
        Mode::Mode("MShift")
    } else if held.contains(56) {
        Mode::Mode("MAlt")
    } else {
        Mode::Root
    }
}

/// Key events only, and a key is released only while it is held (presses
/// may repeat), starting with `held` held.
pub open spec fn keys_well_formed<TRaw>(held: Set<int>, evs: Seq<(Option<TRaw>, CoreEv)>) -> bool
    decreases evs.len(),
{
    evs.len() == 0 || ({
        &&& match evs[0].1 {
            CoreEv::Key(code, Movement::Up) => held.contains(code as int),
            CoreEv::Key(_, Movement::Down) => true,
            _ => false,
        }
        &&& keys_well_formed(track(held, evs[0].1), evs.drop_first())
    })
}

/// The mode machine in state `s` run on `evs` in order: its final mode and
/// everything it emits.
pub open spec fn mode_run<TRaw>(s: Mode, evs: Seq<(Option<TRaw>, CoreEv)>) -> (Mode, Seq<(Option<TRaw>, OutView)>)
    decreases evs.len(),
{
    if evs.len() == 0 {
        (s, Seq::empty())
    } else {
        let s1 = <ModeMachine as Runnable<TRaw, CoreEv, Out>>::next(s, evs[0]);
        let o1 = <ModeMachine as Runnable<TRaw, CoreEv, Out>>::emitted(s, evs[0]);
        let (s2, o2) = mode_run(s1, evs.drop_first());
        (s2, o1 + o2)
    }
}

/// Follows the announcements in `o`, starting from mode `cur`: each end of
/// a mode must name the mode last begun; the result is the mode last begun,
/// or `None` if an end names another mode.
pub open spec fn follow_announcements<TRaw>(cur: Mode, o: Seq<(Option<TRaw>, OutView)>) -> Option<Mode>
    decreases o.len(),
{
    if o.len() == 0 {
        Some(cur)
    } else {
        match o[0].1 {
            OutView::Core(CoreEv::Off(p)) => if p == cur {
                follow_announcements(cur, o.drop_first())
            } else {
                None
            },
            OutView::Core(CoreEv::On(q)) => follow_announcements(q, o.drop_first()),
            _ => follow_announcements(cur, o.drop_first()),
        }
    }
}

proof fn lemma_follow_append<TRaw>(cur: Mode, a: Seq<(Option<TRaw>, OutView)>, b: Seq<(Option<TRaw>, OutView)>)
    ensures
        follow_announcements(cur, a + b) == match follow_announcements(cur, a) {
            Some(c) => follow_announcements(c, b),
            None => None,
        },
    decreases a.len(),
{
    if a.len() == 0 {
        assert(a + b =~= b);
    } else {
        assert((a + b).drop_first() =~= a.drop_first() + b);
        assert((a + b)[0] == a[0]);
        match a[0].1 {
            OutView::Core(CoreEv::On(q)) => lemma_follow_append(q, a.drop_first(), b),
            _ => lemma_follow_append(cur, a.drop_first(), b),
        }
    }
}

/// What the acts of a table entry of at most one act do.
proof fn lemma_short_acts<TRaw>(s: Mode, acts: Seq<Act>)
    requires
        acts.len() <= 1,
    ensures
        acts.len() == 0 ==> acts_effect::<TRaw>(s, acts) == (s, Seq::<(Option<TRaw>, OutView)>::empty(), true),
        acts.len() == 1 ==> acts_effect::<TRaw>(s, acts) == super::act_effect::<TRaw>(s, acts[0]),
{
    reveal_with_fuel(acts_effect, 2);
    if acts.len() == 1 {
        assert(acts.drop_first() =~= Seq::<Act>::empty());
        let (m1, o1, r1) = super::act_effect::<TRaw>(s, acts[0]);
        assert(o1 + Seq::<(Option<TRaw>, OutView)>::empty() =~= o1);
    }
}

/// One well-formed key event keeps the mode equal to what the held
/// modifiers call for, and announces every change.
proof fn lemma_mode_step<TRaw>(held: Set<int>, ev: (Option<TRaw>, CoreEv))
    requires
        ev.1 matches CoreEv::Key(code, movement) && (movement == Movement::Up ==> held.contains(code as int)),
    ensures
        <ModeMachine as Runnable<TRaw, CoreEv, Out>>::next(modifier_mode(held), ev) == modifier_mode(track(held, ev.1)),
        follow_announcements(modifier_mode(held), <ModeMachine as Runnable<TRaw, CoreEv, Out>>::emitted(modifier_mode(held), ev))
            == Some(modifier_mode(track(held, ev.1))),
{
    reveal_strlit("MShift");
    reveal_strlit("MAlt");
    reveal_strlit("MAltShift");
    assert("MAltShift"@.len() == 9);
    assert("MAlt"@.len() == 4);
    assert("MShift"@.len() == 6);
    let s = modifier_mode(held);
    let acts = mode_table(s, ev.1);
    assert(acts.len() <= 1);
    lemma_short_acts::<TRaw>(s, acts);
    let out = <ModeMachine as Runnable<TRaw, CoreEv, Out>>::emitted(s, ev);
    let (n, o, r) = acts_effect::<TRaw>(s, acts);
    assert(r);
    assert(out == o.push((ev.0, OutView::Core(ev.1))));
    reveal_with_fuel(follow_announcements, 4);
    if acts.len() == 1 {
        match acts[0] {
            Act::Then(m) => {
                assert(o == seq![(None::<TRaw>, OutView::Core(CoreEv::Off(s))), (None, OutView::Core(CoreEv::On(m)))]);
                assert(out.drop_first().drop_first().drop_first() =~= Seq::<(Option<TRaw>, OutView)>::empty());
            },
            _ => {
                assert(out.drop_first().drop_first() =~= Seq::<(Option<TRaw>, OutView)>::empty());
            },
        }
    } else {
        assert(out.drop_first() =~= Seq::<(Option<TRaw>, OutView)>::empty());
    }
}

/// Fed well-formed key events, the mode machine is always in the mode that
/// the held modifiers call for (`Root`, `MShift`, `MAlt` or `MAltShift`
/// for neither, shift, alt or both), and its announcements follow it: each
/// end names the mode begun before, and the mode last begun is the current
/// one.
pub proof fn lemma_mode_follows_modifiers<TRaw>(held: Set<int>, evs: Seq<(Option<TRaw>, CoreEv)>)
    requires
        keys_well_formed(held, evs),
    ensures
        mode_run(modifier_mode(held), evs).0 == modifier_mode(track_inputs(held, evs)),
        follow_announcements(modifier_mode(held), mode_run(modifier_mode(held), evs).1) == Some(
            mode_run(modifier_mode(held), evs).0,
        ),
    decreases evs.len(),
{
    if evs.len() > 0 {
        let s = modifier_mode(held);
        lemma_mode_step::<TRaw>(held, evs[0]);
        let held1 = track(held, evs[0].1);
        lemma_mode_follows_modifiers(held1, evs.drop_first());
        let o1 = <ModeMachine as Runnable<TRaw, CoreEv, Out>>::emitted(s, evs[0]);
        lemma_follow_append(s, o1, mode_run(modifier_mode(held1), evs.drop_first()).1);
    }
}

/// From a new machine with nothing held.
pub proof fn lemma_new_mode_machine_follows_modifiers<TRaw>(evs: Seq<(Option<TRaw>, CoreEv)>)
    requires
        keys_well_formed(Set::<int>::empty(), evs),
    ensures
        mode_run(Mode::Root, evs).0 == modifier_mode(track_inputs(Set::<int>::empty(), evs)),
        follow_announcements(Mode::Root, mode_run(Mode::Root, evs).1) == Some(mode_run(Mode::Root, evs).0),
{
    assert(modifier_mode(Set::<int>::empty()) == Mode::Root);
    lemma_mode_follows_modifiers(Set::<int>::empty(), evs);
}

} // verus!
