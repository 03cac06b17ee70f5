//! Machines, the context they emit into, and the runner that chains them.

pub mod key_maps;
pub mod machine;
pub mod runner;
pub mod mode_machine;
pub mod lead_machine;
pub mod big_machine;
pub mod dynamic_machine;
pub mod print_keys;
pub mod stage;

use vstd::prelude::*;
use std::collections::VecDeque;

use crate::common::{Act, CoreEv, MachineEv, Mode, Movement, Out, OutView, RunnerEv, RunnerEvView};
use self::key_maps::KeyMaps;

verus! {

/// A machine in a runner's list, under a tag that names it.
pub struct RunRef<M> {
    pub tag: &'static str,
    pub inner: M,
}

impl<M> RunRef<M> {
    pub fn new(tag: &'static str, inner: M) -> (r: RunRef<M>)
        ensures
            r.tag == tag,
            r.inner == inner,
    {
        RunRef { tag, inner }
    }
}

/// Two run refs are never equal, whatever they hold.
impl<M> PartialEq for RunRef<M> {
    fn eq(&self, other: &Self) -> (r: bool) {
        false
    }
}

impl<M> vstd::std_specs::cmp::PartialEqSpecImpl for RunRef<M> {
    open spec fn obeys_eq_spec() -> bool {
        true
    }

    open spec fn eq_spec(&self, other: &Self) -> bool {
        false
    }
}

/// What a machine sees of the world: the key maps, and the buffer it emits
/// into, each item paired with the raw event it came from, if any.
pub struct Ctx<TRaw, TOut> {
    pub maps: KeyMaps,
    pub buff: VecDeque<(Option<TRaw>, TOut)>,
}

/// The mathematical value of one emitted item.
pub open spec fn item_view<TRaw, TOut: View>(item: (Option<TRaw>, TOut)) -> (Option<TRaw>, TOut::V) {
    (item.0, item.1@)
}

impl<TRaw, TOut: View> Ctx<TRaw, TOut> {
    /// The buffer, item by item, as mathematical values.
    pub open spec fn buff_view(&self) -> Seq<(Option<TRaw>, TOut::V)> {
        self.buff@.map_values(|item: (Option<TRaw>, TOut)| item_view(item))
    }
}

impl<TRaw, TOut> Ctx<TRaw, TOut> {
    pub fn new() -> (x: Ctx<TRaw, TOut>)
        ensures
            x.maps@.pre == Set::<int>::empty(),
            x.maps@.post == Set::<int>::empty(),
            x.maps@.mask == Set::<int>::empty(),
            x.buff@ == Seq::<(Option<TRaw>, TOut)>::empty(),
    {
        Ctx { maps: KeyMaps::new(), buff: VecDeque::new() }
    }

    pub fn emit(&mut self, ev: (Option<TRaw>, TOut))
        ensures
            final(self).buff@ == old(self).buff@.push(ev),
            final(self).maps == old(self).maps,
    {
        self.buff.push_back(ev)
    }

    pub fn emit_many(&mut self, evs: Vec<(Option<TRaw>, TOut)>)
        ensures
            final(self).buff@ == old(self).buff@ + evs@,
            final(self).maps == old(self).maps,
    {
        let mut evs = evs;
        let ghost all = evs@;
        while evs.len() > 0
            invariant
                self.buff@ + evs@ == old(self).buff@ + all,
                self.maps == old(self).maps,
            decreases evs.len(),
        {
            let ghost before = evs@;
            let item = evs.remove(0);
            self.buff.push_back(item);
            assert(self.buff@ + evs@ =~= old(self).buff@ + all) by {
                assert(before =~= seq![item] + evs@);
            }
        }
        assert(self.buff@ =~= old(self).buff@ + all);
    }
}

impl<TRaw> Ctx<TRaw, Out> {
    pub fn key_down(&mut self, code: u16)
        ensures
            final(self).buff_view() == old(self).buff_view().push(
                (None, OutView::Core(CoreEv::Key(code, Movement::Down))),
            ),
            final(self).maps == old(self).maps,
    {
        self.emit((None, Out::Core(CoreEv::Key(code, Movement::Down))));
        proof {
            assert(self.buff_view() =~= old(self).buff_view().push(
                (None, OutView::Core(CoreEv::Key(code, Movement::Down))),
            ));
        }
    }

    pub fn key_up(&mut self, code: u16)
        ensures
            final(self).buff_view() == old(self).buff_view().push(
                (None, OutView::Core(CoreEv::Key(code, Movement::Up))),
            ),
            final(self).maps == old(self).maps,
    {
        self.emit((None, Out::Core(CoreEv::Key(code, Movement::Up))));
        proof {
            assert(self.buff_view() =~= old(self).buff_view().push(
                (None, OutView::Core(CoreEv::Key(code, Movement::Up))),
            ));
        }
    }

    /// Asks the hosting machine to mask each of `codes`, in order.
    pub fn mask(&mut self, codes: &[u16])
        ensures
            final(self).buff_view() == old(self).buff_view() + mask_requests(codes@, true),
            final(self).maps == old(self).maps,
    {
        let mut i: usize = 0;
        while i < codes.len()
            invariant
                i <= codes@.len(),
                self.buff_view() == old(self).buff_view() + mask_requests(codes@.take(i as int), true),
                self.maps == old(self).maps,
            decreases codes@.len() - i,
        {
            let ghost prev = self.buff_view();
            let code = codes[i];
            self.emit((None, Out::Machine(MachineEv::MaskOn(code))));
            proof {
                assert(self.buff_view() =~= prev.push((None, OutView::Machine(MachineEv::MaskOn(code)))));
                assert(codes@.take(i + 1).drop_last() =~= codes@.take(i as int));
                assert(codes@.take(i + 1).last() == code);
                assert(self.buff_view() =~= old(self).buff_view() + mask_requests(codes@.take(i + 1), true));
            }
            i = i + 1;
        }
        assert(codes@.take(codes@.len() as int) =~= codes@);
    }

    /// Asks the hosting machine to unmask each of `codes`, in order.
    pub fn unmask(&mut self, codes: &[u16])
        ensures
            final(self).buff_view() == old(self).buff_view() + mask_requests(codes@, false),
            final(self).maps == old(self).maps,
    {
        let mut i: usize = 0;
        while i < codes.len()
            invariant
                i <= codes@.len(),
                self.buff_view() == old(self).buff_view() + mask_requests(codes@.take(i as int), false),
                self.maps == old(self).maps,
            decreases codes@.len() - i,
        {
            let ghost prev = self.buff_view();
            let code = codes[i];
            self.emit((None, Out::Machine(MachineEv::MaskOff(code))));
            proof {
                assert(self.buff_view() =~= prev.push((None, OutView::Machine(MachineEv::MaskOff(code)))));
                assert(codes@.take(i + 1).drop_last() =~= codes@.take(i as int));
                assert(codes@.take(i + 1).last() == code);
                assert(self.buff_view() =~= old(self).buff_view() + mask_requests(codes@.take(i + 1), false));
            }
            i = i + 1;
        }
        assert(codes@.take(codes@.len() as int) =~= codes@);
    }
}

/// The mask (`on`) or unmask requests for `codes`, in order.
pub open spec fn mask_requests<TRaw>(codes: Seq<u16>, on: bool) -> Seq<(Option<TRaw>, OutView)>
    decreases codes.len(),
{
    if codes.len() == 0 {
        Seq::empty()
    } else {
        mask_requests(codes.drop_last(), on).push(
            (
                None,
                OutView::Machine(
                    if on {
                        MachineEv::MaskOn(codes.last())
                    } else {
                        MachineEv::MaskOff(codes.last())
                    },
                ),
            ),
        )
    }
}

/// A machine: it consumes events, each paired with the raw event it came
/// from, and emits into a context.
///
/// An implementation describes itself by the spec functions below, over its
/// view: the state it moves to on an event, what it emits, on which events it
/// runs without panicking, and the machines it spawns on request. `rank`
/// bounds how deep spawning can go: a spawned machine ranks below its parent.
pub trait Runnable<TRaw, TIn, TOut: View>: View + Sized {
    open spec fn next(s: Self::V, ev: (Option<TRaw>, TIn)) -> Self::V {
        s
    }

    open spec fn emitted(s: Self::V, ev: (Option<TRaw>, TIn)) -> Seq<(Option<TRaw>, TOut::V)> {
        Seq::empty()
    }

    open spec fn accepts(s: Self::V, ev: (Option<TRaw>, TIn)) -> bool {
        true
    }

    open spec fn rank(s: Self::V) -> nat {
        0
    }

    open spec fn spawned(s: Self::V, name: Seq<char>) -> Option<Self::V> {
        None
    }

    fn run(&mut self, x: &mut Ctx<TRaw, TOut>, ev: (Option<TRaw>, TIn))
        requires
            Self::accepts(old(self)@, ev),
        ensures
            final(self)@ == Self::next(old(self)@, ev),
            final(x).buff_view() == old(x).buff_view() + Self::emitted(old(self)@, ev),
            final(x).maps == old(x).maps,
            Self::rank(final(self)@) <= Self::rank(old(self)@),
    ;

    /// The machine to start when this one asks for `name` to be spawned.
    fn spawn(&self, name: &String) -> (child: Option<Self>)
        ensures
            match child {
                Some(c) => Self::spawned(self@, name@) == Some(c@) && Self::rank(c@) < Self::rank(self@),
                None => Self::spawned(self@, name@) is None,
            },
    ;
}

/// What one act of a mode table does in mode `mode`: the mode after it,
/// what it emits, and whether the event that triggered it still passes on.
pub open spec fn act_effect<TRaw>(mode: Mode, act: Act) -> (Mode, Seq<(Option<TRaw>, OutView)>, bool) {
    match act {
        Act::Drop => (mode, Seq::empty(), false),
        Act::Emit(code, movement) => (
            mode,
            seq![(None, OutView::Core(CoreEv::Key(code, movement)))],
            true,
        ),
        Act::Then(new_mode) => (
            new_mode,
            seq![(None, OutView::Core(CoreEv::Off(mode))), (None, OutView::Core(CoreEv::On(new_mode)))],
            true,
        ),
        Act::Launch(name) => (
            mode,
            seq![(None, OutView::Runner(RunnerEvView::Spawn(name@)))],
            true,
        ),
        Act::Mask(_) => (mode, Seq::empty(), true),
        Act::Remap(_, _) => (mode, Seq::empty(), true),
    }
}

/// What the acts do, in order, starting in `mode`.
pub open spec fn acts_effect<TRaw>(mode: Mode, acts: Seq<Act>) -> (Mode, Seq<(Option<TRaw>, OutView)>, bool)
    decreases acts.len(),
{
    if acts.len() == 0 {
        (mode, Seq::empty(), true)
    } else {
        let (m1, o1, r1) = act_effect::<TRaw>(mode, acts[0]);
        let (m2, o2, r2) = acts_effect::<TRaw>(m1, acts.drop_first());
        (m2, o1 + o2, r1 && r2)
    }
}

/// What a mode machine emits for `ev`: what its acts emit, then the event
/// itself unless an act dropped it.
pub open spec fn acts_output<TRaw>(mode: Mode, acts: Seq<Act>, ev: (Option<TRaw>, CoreEv)) -> Seq<
    (Option<TRaw>, OutView),
> {
    let (_, out, reemit) = acts_effect::<TRaw>(mode, acts);
    if reemit {
        out.push((ev.0, OutView::Core(ev.1)))
    } else {
        out
    }
}

/// Carries out `acts` in order: switches `mode`, emits into `x`, and returns
/// whether the triggering event still passes on.
pub fn run_acts<TRaw>(mode: &mut Mode, acts: &Vec<Act>, x: &mut Ctx<TRaw, Out>) -> (reemit: bool)
    ensures
        *final(mode) == acts_effect::<TRaw>(*old(mode), acts@).0,
        final(x).buff_view() == old(x).buff_view() + acts_effect::<TRaw>(*old(mode), acts@).1,
        reemit == acts_effect::<TRaw>(*old(mode), acts@).2,
        final(x).maps == old(x).maps,
{
    let mut reemit = true;
    let mut i: usize = 0;
    let ghost x0 = x.buff_view();
    let ghost target = acts_effect::<TRaw>(*mode, acts@);
    assert(acts@.skip(0) =~= acts@);
    while i < acts.len()
        invariant
            i <= acts@.len(),
            x.maps == old(x).maps,
            target.0 == acts_effect::<TRaw>(*mode, acts@.skip(i as int)).0,
            x0 + target.1 == x.buff_view() + acts_effect::<TRaw>(*mode, acts@.skip(i as int)).1,
            target.2 == (reemit && acts_effect::<TRaw>(*mode, acts@.skip(i as int)).2),
        decreases acts@.len() - i,
    {
        let ghost m0 = *mode;
        let ghost xb = x.buff_view();
        let act = acts[i];
        proof {
            assert(acts@.skip(i as int)[0] == act);
            assert(acts@.skip(i as int).drop_first() =~= acts@.skip(i + 1));
        }
        match act {
            Act::Drop => {
                reemit = false;
            },
            Act::Emit(c, m) => {
                x.emit((None, Out::Core(CoreEv::Key(c, m))));
                assert(x.buff_view() =~= xb.push((None, OutView::Core(CoreEv::Key(c, m)))));
            },
            Act::Then(new_mode) => {
                let old_mode = *mode;
                x.emit((None, Out::Core(CoreEv::Off(old_mode))));
                x.emit((None, Out::Core(CoreEv::On(new_mode))));
                *mode = new_mode;
                assert(x.buff_view() =~= xb.push((None, OutView::Core(CoreEv::Off(old_mode)))).push(
                    (None, OutView::Core(CoreEv::On(new_mode))),
                ));
            },
            Act::Mask(_) => {},
            Act::Remap(_, _) => {},
            Act::Launch(name) => {
                let spawn_name = name.to_owned();
                let ghost nv = spawn_name@;
                x.emit((None, Out::Runner(RunnerEv::Spawn(spawn_name))));
                assert(x.buff_view() =~= xb.push((None, OutView::Runner(RunnerEvView::Spawn(nv)))));
            },
        }
        proof {
            let (m1, o1, r1) = act_effect::<TRaw>(m0, act);
            assert(*mode == m1);
            assert(x.buff_view() =~= xb + o1);
            let rest = acts_effect::<TRaw>(*mode, acts@.skip(i + 1));
            assert(x0 + target.1 =~= x.buff_view() + rest.1);
        }
        i = i + 1;
    }
    assert(acts@.skip(i as int) =~= Seq::<Act>::empty());
    assert(x.buff_view() =~= x0 + target.1);
    reemit
}

/// Whether `ev` is the key event `code`, `movement`.
pub fn is_key(ev: &CoreEv, code: u16, movement: Movement) -> (r: bool)
    ensures
        r == (*ev == CoreEv::Key(code, movement)),
{
    match ev {
        CoreEv::Key(c, m) => *c == code && *m == movement,
        _ => false,
    }
}

/// A machine that is handed the bare event, without its raw origin.
pub trait RunnableEx<TRaw, TIn, TOut> {
    fn run(&mut self, x: &mut Ctx<TRaw, TOut>, ev: TIn);
}

} // verus!

verus! {

/// Acts without a `Drop` let the triggering event pass on.
pub proof fn lemma_no_drop_passes_on<TRaw>(mode: Mode, acts: Seq<Act>)
    requires
        forall|i: int| 0 <= i < acts.len() ==> !(#[trigger] acts[i] is Drop),
    ensures
        acts_effect::<TRaw>(mode, acts).2,
    decreases acts.len(),
{
    if acts.len() > 0 {
        let (m1, _, _) = act_effect::<TRaw>(mode, acts[0]);
        assert forall|i: int| 0 <= i < acts.drop_first().len() implies !(#[trigger] acts.drop_first()[i] is Drop) by {
            assert(acts.drop_first()[i] == acts[i + 1]);
        }
        lemma_no_drop_passes_on::<TRaw>(m1, acts.drop_first());
    }
}

} // verus!
