//! A machine that follows the alt-shift mode announced by a mode machine and,
//! inside it, turns J into a held down-arrow (108) and tracks K and space as
//! modes of their own.

use vstd::prelude::*;

use crate::common::{Act, CoreEv, Mode, Movement, Out, OutView, is_named, mode_is};
use super::{Ctx, Runnable, acts_effect, acts_output, is_key, run_acts};

verus! {

pub struct LeadMachine {
    mode: Mode,
}

impl View for LeadMachine {
    type V = Mode;

    closed spec fn view(&self) -> Mode {
        self.mode
    }
}

/// Whether `ev` is the announcement that the mode named `name` ended
/// (`on == false`) or began.
pub open spec fn announces(ev: CoreEv, on: bool, name: &str) -> bool {
    match ev {
        CoreEv::On(m) => on && is_named(m, name),
        CoreEv::Off(m) => !on && is_named(m, name),
        _ => false,
    }
}

/// The acts that `ev` triggers in `mode`.
pub open spec fn lead_table(mode: Mode, ev: CoreEv) -> Seq<Act> {
    if mode is Root {
        if announces(ev, true, "MAltShift") {
            seq![Act::Then(Mode::Mode("AltShift"))]
        } else {
            Seq::empty()
        }
    } else if is_named(mode, "AltShift") {
        if announces(ev, false, "MAltShift") {
            seq![Act::Then(Mode::Root)]
        } else if ev == CoreEv::Key(36, Movement::Down) {
            seq![Act::Then(Mode::Mode("AltShiftJ"))]
        } else if ev == CoreEv::Key(37, Movement::Down) {
            seq![Act::Then(Mode::Mode("AltShiftK"))]
        } else if ev == CoreEv::Key(57, Movement::Down) {
            seq![Act::Then(Mode::Mode("AltShiftSpace"))]
        } else {
            Seq::empty()
        }
    } else if is_named(mode, "AltShiftJ") {
        if announces(ev, false, "MAltShift") {
            seq![Act::Emit(108, Movement::Up), Act::Then(Mode::Root)]
        } else if ev == CoreEv::Key(36, Movement::Up) {
            seq![Act::Drop, Act::Emit(108, Movement::Up), Act::Then(Mode::Mode("AltShift"))]
        } else if ev == CoreEv::Key(36, Movement::Down) {
            seq![Act::Drop, Act::Emit(108, Movement::Down)]
        } else if ev == CoreEv::Key(37, Movement::Down) {
            seq![Act::Emit(108, Movement::Up), Act::Then(Mode::Mode("AltShiftK"))]
        } else if ev == CoreEv::Key(57, Movement::Down) {
            seq![Act::Emit(108, Movement::Up), Act::Then(Mode::Mode("AltShiftSpace"))]
        } else {
            Seq::empty()
        }
    } else if is_named(mode, "AltShiftK") {
        if announces(ev, false, "MAltShift") {
            seq![Act::Then(Mode::Root)]
        } else if ev == CoreEv::Key(37, Movement::Up) {
            seq![Act::Then(Mode::Mode("AltShift"))]
        } else if ev == CoreEv::Key(36, Movement::Down) {
            seq![Act::Then(Mode::Mode("AltShiftJ"))]
        } else if ev == CoreEv::Key(57, Movement::Down) {
            seq![Act::Then(Mode::Mode("AltShiftSpace"))]
        } else {
            Seq::empty()
        }
    } else if is_named(mode, "AltShiftSpace") {
        if announces(ev, false, "MAltShift") {
            seq![Act::Then(Mode::Root)]
        } else if ev == CoreEv::Key(57, Movement::Up) {
            seq![Act::Then(Mode::Mode("AltShift"))]
        } else if ev == CoreEv::Key(36, Movement::Down) {
            seq![Act::Then(Mode::Mode("AltShiftJ"))]
        } else if ev == CoreEv::Key(37, Movement::Down) {
            seq![Act::Then(Mode::Mode("AltShiftK"))]
        } else {
            Seq::empty()
        }
    } else {
        Seq::empty()
    }
}

fn is_announcement(ev: &CoreEv, on: bool, name: &str) -> (r: bool)
    ensures
        r == announces(*ev, on, name),
{
    match ev {
        CoreEv::On(m) => on && mode_is(*m, name),
        CoreEv::Off(m) => !on && mode_is(*m, name),
        _ => false,
    }
}

fn lead_acts(mode: Mode, ev: &CoreEv) -> (acts: Vec<Act>)
    ensures
        acts@ == lead_table(mode, *ev),
{
    let root = match mode {
        Mode::Root => true,
        _ => false,
    };
    if root {
        if is_announcement(ev, true, "MAltShift") {
            vec![Act::Then(Mode::Mode("AltShift"))]
        } else {
            vec![]
        }
    } else if mode_is(mode, "AltShift") {
        if is_announcement(ev, false, "MAltShift") {
            vec![Act::Then(Mode::Root)]
        } else if is_key(ev, 36, Movement::Down) {
            vec![Act::Then(Mode::Mode("AltShiftJ"))]
        } else if is_key(ev, 37, Movement::Down) {
            vec![Act::Then(Mode::Mode("AltShiftK"))]
        } else if is_key(ev, 57, Movement::Down) {
            vec![Act::Then(Mode::Mode("AltShiftSpace"))]
        } else {
            vec![]
        }
    } else if mode_is(mode, "AltShiftJ") {
        if is_announcement(ev, false, "MAltShift") {
            vec![Act::Emit(108, Movement::Up), Act::Then(Mode::Root)]
        } else if is_key(ev, 36, Movement::Up) {
            vec![Act::Drop, Act::Emit(108, Movement::Up), Act::Then(Mode::Mode("AltShift"))]
        } else if is_key(ev, 36, Movement::Down) {
            vec![Act::Drop, Act::Emit(108, Movement::Down)]
        } else if is_key(ev, 37, Movement::Down) {
            vec![Act::Emit(108, Movement::Up), Act::Then(Mode::Mode("AltShiftK"))]
        } else if is_key(ev, 57, Movement::Down) {
            vec![Act::Emit(108, Movement::Up), Act::Then(Mode::Mode("AltShiftSpace"))]
        } else {
            vec![]
        }
    } else if mode_is(mode, "AltShiftK") {
        if is_announcement(ev, false, "MAltShift") {
            vec![Act::Then(Mode::Root)]
        } else if is_key(ev, 37, Movement::Up) {
            vec![Act::Then(Mode::Mode("AltShift"))]
        } else if is_key(ev, 36, Movement::Down) {
            vec![Act::Then(Mode::Mode("AltShiftJ"))]
        } else if is_key(ev, 57, Movement::Down) {
            vec![Act::Then(Mode::Mode("AltShiftSpace"))]
        } else {
            vec![]
        }
    } else if mode_is(mode, "AltShiftSpace") {
        if is_announcement(ev, false, "MAltShift") {
            vec![Act::Then(Mode::Root)]
        } else if is_key(ev, 57, Movement::Up) {
            vec![Act::Then(Mode::Mode("AltShift"))]
        } else if is_key(ev, 36, Movement::Down) {
            vec![Act::Then(Mode::Mode("AltShiftJ"))]
        } else if is_key(ev, 37, Movement::Down) {
            vec![Act::Then(Mode::Mode("AltShiftK"))]
        } else {
            vec![]
        }
    } else {
        vec![]
    }
}

impl LeadMachine {
    pub fn new() -> (m: LeadMachine)
        ensures
            m@ == Mode::Root,
    {
        LeadMachine { mode: Mode::Root }
    }
}

impl<TRaw> Runnable<TRaw, CoreEv, Out> for LeadMachine {
    open spec fn next(s: Mode, ev: (Option<TRaw>, CoreEv)) -> Mode {
        acts_effect::<TRaw>(s, lead_table(s, ev.1)).0
    }

    open spec fn emitted(s: Mode, ev: (Option<TRaw>, CoreEv)) -> Seq<(Option<TRaw>, OutView)> {
        acts_output(s, lead_table(s, ev.1), ev)
    }

    fn run(&mut self, x: &mut Ctx<TRaw, Out>, ev: (Option<TRaw>, CoreEv)) {
        let (raw, e) = ev;
        let acts = lead_acts(self.mode, &e);
        let reemit = run_acts(&mut self.mode, &acts, x);
        if reemit {
            let ghost xb = x.buff_view();
            let ghost ev_v = e;
            x.emit((raw, Out::Core(e)));
            assert(x.buff_view() =~= xb.push((raw, OutView::Core(ev_v))));
        }
        assert(x.buff_view() =~= old(x).buff_view() + acts_output(old(self)@, lead_table(old(self)@, ev.1), ev));
    }

    fn spawn(&self, name: &String) -> (child: Option<Self>) {
        None
    }
}

} // verus!

verus! {

/// In the J mode, J never passes on: pressing it presses the down arrow
/// (108), releasing it releases the arrow and returns to the alt-shift mode.
pub proof fn lemma_j_becomes_down_arrow<TRaw>(raw: Option<TRaw>)
    ensures
        <LeadMachine as Runnable<TRaw, CoreEv, Out>>::emitted(
            Mode::Mode("AltShiftJ"),
            (raw, CoreEv::Key(36, Movement::Down)),
        ) == seq![(None::<TRaw>, OutView::Core(CoreEv::Key(108, Movement::Down)))],
        <LeadMachine as Runnable<TRaw, CoreEv, Out>>::next(
            Mode::Mode("AltShiftJ"),
            (raw, CoreEv::Key(36, Movement::Down)),
        ) == Mode::Mode("AltShiftJ"),
        <LeadMachine as Runnable<TRaw, CoreEv, Out>>::emitted(
            Mode::Mode("AltShiftJ"),
            (raw, CoreEv::Key(36, Movement::Up)),
        ) == seq![
            (None::<TRaw>, OutView::Core(CoreEv::Key(108, Movement::Up))),
            (None, OutView::Core(CoreEv::Off(Mode::Mode("AltShiftJ")))),
            (None, OutView::Core(CoreEv::On(Mode::Mode("AltShift")))),
        ],
        <LeadMachine as Runnable<TRaw, CoreEv, Out>>::next(
            Mode::Mode("AltShiftJ"),
            (raw, CoreEv::Key(36, Movement::Up)),
        ) == Mode::Mode("AltShift"),
{
    reveal_strlit("AltShift");
    reveal_strlit("AltShiftJ");
    assert("AltShift"@.len() == 8);
    assert("AltShiftJ"@.len() == 9);
    reveal_with_fuel(acts_effect, 4);
    let j = Mode::Mode("AltShiftJ");
    assert(!is_named(j, "AltShift"));
    let down = seq![Act::Drop, Act::Emit(108, Movement::Down)];
    let up = seq![Act::Drop, Act::Emit(108, Movement::Up), Act::Then(Mode::Mode("AltShift"))];
    assert(lead_table(j, CoreEv::Key(36, Movement::Down)) == down);
    assert(lead_table(j, CoreEv::Key(36, Movement::Up)) == up);
    assert(down.drop_first().drop_first() =~= Seq::<Act>::empty());
    assert(up.drop_first().drop_first().drop_first() =~= Seq::<Act>::empty());
    assert(acts_effect::<TRaw>(j, down).1 =~= seq![(None::<TRaw>, OutView::Core(CoreEv::Key(108, Movement::Down)))]);
    assert(acts_effect::<TRaw>(j, up).1 =~= seq![
        (None::<TRaw>, OutView::Core(CoreEv::Key(108, Movement::Up))),
        (None, OutView::Core(CoreEv::Off(j))),
        (None, OutView::Core(CoreEv::On(Mode::Mode("AltShift")))),
    ]);
}

} // verus!

verus! {

/// Whether the lead machine swallows `ev` in mode `s`: only J (36) in the J
/// mode.
pub open spec fn lead_drops(s: Mode, ev: CoreEv) -> bool {
    is_named(s, "AltShiftJ") && ev matches CoreEv::Key(36, _)
}

/// A made-up down-arrow (108) key event.
pub open spec fn is_down_arrow<TRaw>(item: (Option<TRaw>, OutView)) -> bool {
    &&& item.0 is None
    &&& match item.1 {
        OutView::Core(CoreEv::Key(code, _)) => code == 108,
        _ => false,
    }
}

/// Every item is a made-up down-arrow event.
pub open spec fn only_down_arrow<TRaw>(o: Seq<(Option<TRaw>, OutView)>) -> bool {
    forall|i: int| 0 <= i < o.len() ==> is_down_arrow(#[trigger] o[i])
}

/// `o` is down-arrow events, then, if the mode changed from `s` to `n`, the
/// announcement that `s` ended followed by the one that `n` began.
pub open spec fn announced_change<TRaw>(s: Mode, n: Mode, o: Seq<(Option<TRaw>, OutView)>) -> bool {
    ||| n == s && only_down_arrow(o)
    ||| {
        &&& o.len() >= 2
        &&& only_down_arrow(o.take(o.len() - 2))
        &&& o[o.len() - 2] == (None::<TRaw>, OutView::Core(CoreEv::Off(s)))
        &&& o.last() == (None::<TRaw>, OutView::Core(CoreEv::On(n)))
    }
}

/// Acts of the lead table's kind: drops and down-arrow events, then at most
/// one mode switch, last.
pub open spec fn lead_shaped(acts: Seq<Act>) -> bool {
    forall|i: int|
        0 <= i < acts.len() ==> (#[trigger] acts[i] is Drop || acts[i] == Act::Emit(108, Movement::Up)
            || acts[i] == Act::Emit(108, Movement::Down) || (i == acts.len() - 1 && acts[i] is Then))
}

proof fn lemma_shaped_effect<TRaw>(s: Mode, acts: Seq<Act>)
    requires
        lead_shaped(acts),
    ensures
        announced_change(s, acts_effect::<TRaw>(s, acts).0, acts_effect::<TRaw>(s, acts).1),
    decreases acts.len(),
{
    if acts.len() > 0 {
        let rest = acts.drop_first();
        let (m1, o1, _) = super::act_effect::<TRaw>(s, acts[0]);
        if acts[0] is Then {
            assert(acts.len() == 1);
            assert(rest.len() == 0);
            assert(acts_effect::<TRaw>(m1, rest).1 =~= Seq::<(Option<TRaw>, OutView)>::empty());
            let o = acts_effect::<TRaw>(s, acts).1;
            assert(o =~= o1);
            assert(o.take(o.len() - 2) =~= Seq::<(Option<TRaw>, OutView)>::empty());
        } else {
            assert(m1 == s);
            assert forall|i: int| 0 <= i < rest.len() implies (#[trigger] rest[i] is Drop || rest[i] == Act::Emit(
                108,
                Movement::Up,
            ) || rest[i] == Act::Emit(108, Movement::Down) || (i == rest.len() - 1 && rest[i] is Then)) by {
                assert(rest[i] == acts[i + 1]);
            }
            lemma_shaped_effect::<TRaw>(m1, rest);
            let (n, o2, _) = acts_effect::<TRaw>(m1, rest);
            let o = o1 + o2;
            assert(only_down_arrow(o1));
            if n == s && only_down_arrow(o2) {
                assert forall|i: int| 0 <= i < o.len() implies is_down_arrow(#[trigger] o[i]) by {
                    if i < o1.len() {
                        assert(o[i] == o1[i]);
                    } else {
                        assert(o[i] == o2[i - o1.len()]);
                    }
                }
            } else {
                assert(o.take(o.len() - 2) =~= o1 + o2.take(o2.len() - 2));
                let t = o2.take(o2.len() - 2);
                assert forall|i: int| 0 <= i < (o1 + t).len() implies is_down_arrow(#[trigger] (o1 + t)[i]) by {
                    if i < o1.len() {
                        assert((o1 + t)[i] == o1[i]);
                    } else {
                        assert((o1 + t)[i] == t[i - o1.len()]);
                    }
                }
                assert(o[o.len() - 2] == o2[o2.len() - 2]);
                assert(o.last() == o2.last());
            }
        }
    }
}

proof fn lemma_drop_first_swallows<TRaw>(s: Mode, acts: Seq<Act>)
    requires
        acts.len() > 0,
        acts[0] is Drop,
    ensures
        !acts_effect::<TRaw>(s, acts).2,
{
}

/// The lead machine passes every event on, last, except J in the J mode,
/// which it swallows; besides, it emits only down-arrow events and, when
/// its mode changes, the end of the old mode and then the start of the new.
pub proof fn lemma_lead_passes_all_but_j<TRaw>(s: Mode, ev: (Option<TRaw>, CoreEv))
    ensures
        ({
            let out = <LeadMachine as Runnable<TRaw, CoreEv, Out>>::emitted(s, ev);
            (out.len() > 0 && out.last() == (ev.0, OutView::Core(ev.1))) <==> !lead_drops(s, ev.1)
        }),
        ({
            let a = acts_effect::<TRaw>(s, lead_table(s, ev.1)).1;
            &&& announced_change(s, <LeadMachine as Runnable<TRaw, CoreEv, Out>>::next(s, ev), a)
            &&& <LeadMachine as Runnable<TRaw, CoreEv, Out>>::emitted(s, ev) == if lead_drops(s, ev.1) {
                a
            } else {
                a.push((ev.0, OutView::Core(ev.1)))
            }
        }),
{
    reveal_strlit("AltShift");
    reveal_strlit("AltShiftJ");
    reveal_strlit("AltShiftK");
    reveal_strlit("AltShiftSpace");
    assert("AltShift"@.len() == 8);
    assert("AltShiftJ"@.len() == 9);
    assert("AltShiftK"@.len() == 9);
    assert("AltShiftK"@[8] == 'K');
    assert("AltShiftJ"@[8] == 'J');
    assert("AltShiftSpace"@.len() == 13);
    let acts = lead_table(s, ev.1);
    assert(lead_shaped(acts));
    lemma_shaped_effect::<TRaw>(s, acts);
    let (n, a, reemit) = acts_effect::<TRaw>(s, acts);
    if lead_drops(s, ev.1) {
        assert(!is_named(s, "AltShift"));
        assert(acts[0] is Drop);
        lemma_drop_first_swallows::<TRaw>(s, acts);
        if a.len() > 0 {
            assert(a.last() != (ev.0, OutView::Core(ev.1)));
        }
    } else {
        assert forall|i: int| 0 <= i < acts.len() implies !(#[trigger] acts[i] is Drop) by {}
        super::lemma_no_drop_passes_on::<TRaw>(s, acts);
    }
}

} // verus!

verus! {

/// Every way out of the J mode releases the down arrow (108) it holds: when
/// the mode changes from the J mode, the first thing emitted is the made-up
/// release of 108, ahead of the announcements of the change.
pub proof fn lemma_leaving_j_releases_arrow<TRaw>(s: Mode, ev: (Option<TRaw>, CoreEv))
    requires
        is_named(s, "AltShiftJ"),
        <LeadMachine as Runnable<TRaw, CoreEv, Out>>::next(s, ev) != s,
    ensures
        <LeadMachine as Runnable<TRaw, CoreEv, Out>>::emitted(s, ev).len() >= 3,
        <LeadMachine as Runnable<TRaw, CoreEv, Out>>::emitted(s, ev)[0] == (
            None::<TRaw>,
            OutView::Core(CoreEv::Key(108, Movement::Up)),
        ),
        <LeadMachine as Runnable<TRaw, CoreEv, Out>>::emitted(s, ev)[1] == (
            None::<TRaw>,
            OutView::Core(CoreEv::Off(s)),
        ),
{
    reveal_strlit("AltShift");
    reveal_strlit("AltShiftJ");
    assert("AltShift"@.len() == 8);
    assert("AltShiftJ"@.len() == 9);
    assert(!is_named(s, "AltShift"));
    assert(!(s is Root));
    reveal_with_fuel(acts_effect, 4);
    let acts = lead_table(s, ev.1);
    let e = ev.1;
    if announces(e, false, "MAltShift") {
        assert(acts.drop_first().drop_first() =~= Seq::<Act>::empty());
    } else if e == CoreEv::Key(36, Movement::Up) {
        assert(acts.drop_first().drop_first().drop_first() =~= Seq::<Act>::empty());
    } else if e == CoreEv::Key(36, Movement::Down) {
        assert(acts.drop_first().drop_first() =~= Seq::<Act>::empty());
    } else if e == CoreEv::Key(37, Movement::Down) || e == CoreEv::Key(57, Movement::Down) {
        assert(acts.drop_first().drop_first() =~= Seq::<Act>::empty());
    } else {
        assert(acts =~= Seq::<Act>::empty());
    }
}

} // verus!
