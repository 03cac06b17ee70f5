//! A machine that hosts a body: it keeps the key maps, masks keys on the
//! body's request, and keeps the keys that are down on the way out in step
//! with those down on the way in when a key is unmasked.

use vstd::prelude::*;

use crate::common::{CoreEv, MachineEv, MachineOut, Mode, Movement, Out, OutView};
use super::key_maps::{KEY_CAPACITY, KeyMapsView, last_input_key, lemma_track_inputs_last, trackable, track, track_inputs};
use super::{Ctx, Runnable};

verus! {

pub struct Machine<TRaw, TBody> {
    pub context: Ctx<TRaw, Out>,
    pub body: TBody,
    pub mode: Mode,
}

pub struct MachineView<TRaw, B> {
    pub maps: KeyMapsView,
    pub buff: Seq<(Option<TRaw>, OutView)>,
    pub body: B,
    pub mode: Mode,
}

impl<TRaw, TBody: View> View for Machine<TRaw, TBody> {
    type V = MachineView<TRaw, TBody::V>;

    open spec fn view(&self) -> MachineView<TRaw, TBody::V> {
        MachineView {
            maps: self.context.maps@,
            buff: self.context.buff_view(),
            body: self.body@,
            mode: self.mode,
        }
    }
}

/// The key maps of a fresh machine: nothing down, nothing masked.
pub open spec fn empty_maps() -> KeyMapsView {
    KeyMapsView { pre: Set::empty(), post: Set::empty(), mask: Set::empty() }
}

/// Whether `ev` is a key event on a masked key.
pub open spec fn masked(mask: Set<int>, ev: CoreEv) -> bool {
    match ev {
        CoreEv::Key(code, _) => mask.contains(code as int),
        _ => false,
    }
}

/// An item whose key codes, if any, a key map can track.
pub open spec fn out_trackable(o: OutView) -> bool {
    match o {
        OutView::Core(ev) => trackable(ev),
        OutView::Machine(MachineEv::MaskOn(code)) => code < KEY_CAPACITY,
        OutView::Machine(MachineEv::MaskOff(code)) => code < KEY_CAPACITY,
        _ => true,
    }
}

pub open spec fn all_trackable<TRaw>(q: Seq<(Option<TRaw>, OutView)>) -> bool {
    forall|i: int| 0 <= i < q.len() ==> #[trigger] out_trackable(q[i].1)
}

/// How the machine handles one item that its body emitted: the key maps
/// after it, and what it passes on.
///
/// Masking a key that is down on the way out releases it; unmasking a key
/// whose state on the way in differs from that on the way out presses or
/// releases it to match; key events pass on and are tracked on the way out;
/// runner requests pass on unchanged.
pub open spec fn handle_one<TRaw>(m: KeyMapsView, item: (Option<TRaw>, OutView)) -> (
    KeyMapsView,
    Seq<(Option<TRaw>, OutView)>,
) {
    match item.1 {
        OutView::Machine(MachineEv::MaskOn(code)) => {
            let c = code as int;
            let m1 = KeyMapsView { mask: m.mask.insert(c), ..m };
            if !m.mask.contains(c) && m.post.contains(c) {
                (
                    KeyMapsView { post: m1.post.remove(c), ..m1 },
                    seq![(None, OutView::Core(CoreEv::Key(code, Movement::Up)))],
                )
            } else {
                (m1, Seq::empty())
            }
        },
        OutView::Machine(MachineEv::MaskOff(code)) => {
            let c = code as int;
            let m1 = KeyMapsView { mask: m.mask.remove(c), ..m };
            if m.mask.contains(c) && m.pre.contains(c) && !m.post.contains(c) {
                (
                    KeyMapsView { post: m1.post.insert(c), ..m1 },
                    seq![(None, OutView::Core(CoreEv::Key(code, Movement::Down)))],
                )
            } else if m.mask.contains(c) && !m.pre.contains(c) && m.post.contains(c) {
                (
                    KeyMapsView { post: m1.post.remove(c), ..m1 },
                    seq![(None, OutView::Core(CoreEv::Key(code, Movement::Up)))],
                )
            } else {
                (m1, Seq::empty())
            }
        },
        OutView::Machine(MachineEv::Now(_)) => (m, Seq::empty()),
        OutView::Core(ev) => (
            KeyMapsView { post: track(m.post, ev), ..m },
            seq![(item.0, OutView::Core(ev))],
        ),
        OutView::Runner(r) => (m, seq![(item.0, OutView::Runner(r))]),
    }
}

/// Handles the items of `q` in order.
pub open spec fn handle<TRaw>(m: KeyMapsView, q: Seq<(Option<TRaw>, OutView)>) -> (
    KeyMapsView,
    Seq<(Option<TRaw>, OutView)>,
)
    decreases q.len(),
{
    if q.len() == 0 {
        (m, Seq::empty())
    } else {
        let (m1, o1) = handle_one(m, q[0]);
        let (m2, o2) = handle(m1, q.drop_first());
        (m2, o1 + o2)
    }
}

/// The key maps once `ev` has been recorded on the way in.
pub open spec fn tracked_in(m: KeyMapsView, ev: CoreEv) -> KeyMapsView {
    KeyMapsView { pre: track(m.pre, ev), ..m }
}

/// What the body sees and what the machine must then handle.
pub open spec fn pending_items<TRaw, TBody: Runnable<TRaw, CoreEv, Out>>(
    s: MachineView<TRaw, TBody::V>,
    ev: (Option<TRaw>, CoreEv),
) -> Seq<(Option<TRaw>, OutView)> {
    s.buff + TBody::emitted(s.body, ev)
}

impl<TRaw, TBody: Runnable<TRaw, CoreEv, Out>> Machine<TRaw, TBody> {
    pub fn new(body: TBody) -> (m: Machine<TRaw, TBody>)
        ensures
            m@ == (MachineView::<TRaw, TBody::V> {
                maps: empty_maps(),
                buff: Seq::empty(),
                body: body@,
                mode: Mode::Root,
            }),
    {
        let m = Machine { context: Ctx::new(), body, mode: Mode::Root };
        assert(m@.buff =~= Seq::<(Option<TRaw>, OutView)>::empty());
        m
    }

    /// Runs the body on `inp`, then handles everything in the context's
    /// buffer, passing on what comes out.
    pub fn run_handle(&mut self, x: &mut Ctx<TRaw, MachineOut>, inp: (Option<TRaw>, CoreEv))
        requires
            TBody::accepts(old(self).body@, inp),
            all_trackable(pending_items::<TRaw, TBody>(old(self)@, inp)),
        ensures
            final(self)@ == (MachineView::<TRaw, TBody::V> {
                maps: handle(old(self)@.maps, pending_items::<TRaw, TBody>(old(self)@, inp)).0,
                buff: Seq::empty(),
                body: TBody::next(old(self)@.body, inp),
                mode: old(self)@.mode,
            }),
            final(x).buff_view() == old(x).buff_view() + handle(
                old(self)@.maps,
                pending_items::<TRaw, TBody>(old(self)@, inp),
            ).1,
            final(x).maps == old(x).maps,
            TBody::rank(final(self).body@) <= TBody::rank(old(self).body@),
    {
        let ghost q = pending_items::<TRaw, TBody>(old(self)@, inp);
        let ghost target = handle(old(self)@.maps, q);
        self.body.run(&mut self.context, inp);
        assert(self.context.buff_view() == q);
        while self.context.buff.len() > 0
            invariant
                all_trackable(self.context.buff_view()),
                handle(self.context.maps@, self.context.buff_view()).0 == target.0,
                x.buff_view() + handle(self.context.maps@, self.context.buff_view()).1 == old(x).buff_view()
                    + target.1,
                x.maps == old(x).maps,
                self.body@ == TBody::next(old(self)@.body, inp),
                self.mode == old(self).mode,
                TBody::rank(self.body@) <= TBody::rank(old(self).body@),
            decreases self.context.buff@.len(),
        {
            let ghost before = self.context.buff_view();
            let ghost maps_before = self.context.maps@;
            let ghost x_before = x.buff_view();
            let (d, ev) = self.context.buff.pop_front().unwrap();
            proof {
                assert(self.context.buff_view() =~= before.drop_first());
                assert(before[0] == (d, ev@));
                assert(out_trackable(before[0].1));
                assert forall|i: int| 0 <= i < self.context.buff_view().len() implies #[trigger] out_trackable(
                    self.context.buff_view()[i].1,
                ) by {
                    assert(self.context.buff_view()[i] == before[i + 1]);
                }
            }
            match ev {
                Out::Machine(MachineEv::MaskOn(c)) => {
                    let was_masked = self.context.maps.mask.set(c as usize, true);
                    if !was_masked && self.context.maps.post.get(c as usize) {
                        let ev2 = CoreEv::Key(c, Movement::Up);
                        self.context.maps.track_out(&ev2);
                        x.emit((None, MachineOut::Core(ev2)));
                        proof {
                            assert(x.buff_view() =~= x_before.push(
                                (None, OutView::Core(CoreEv::Key(c, Movement::Up))),
                            ));
                        }
                    }
                },
                Out::Machine(MachineEv::MaskOff(c)) => {
                    let was_masked = self.context.maps.mask.set(c as usize, false);
                    if was_masked {
                        let down_in = self.context.maps.pre.get(c as usize);
                        let down_out = self.context.maps.post.get(c as usize);
                        if down_in && !down_out {
                            let ev2 = CoreEv::Key(c, Movement::Down);
                            self.context.maps.track_out(&ev2);
                            x.emit((None, MachineOut::Core(ev2)));
                            proof {
                                assert(x.buff_view() =~= x_before.push(
                                    (None, OutView::Core(CoreEv::Key(c, Movement::Down))),
                                ));
                            }
                        } else if !down_in && down_out {
                            let ev2 = CoreEv::Key(c, Movement::Up);
                            self.context.maps.track_out(&ev2);
                            x.emit((None, MachineOut::Core(ev2)));
                            proof {
                                assert(x.buff_view() =~= x_before.push(
                                    (None, OutView::Core(CoreEv::Key(c, Movement::Up))),
                                ));
                            }
                        }
                    }
                },
                Out::Machine(MachineEv::Now(_)) => {},
                Out::Core(peek) => {
                    self.context.maps.track_out(&peek);
                    let ghost pv = peek;
                    x.emit((d, MachineOut::Core(peek)));
                    proof {
                        assert(x.buff_view() =~= x_before.push((d, OutView::Core(pv))));
                    }
                },
                Out::Runner(r) => {
                    let ghost rv = r@;
                    x.emit((d, MachineOut::Runner(r)));
                    proof {
                        assert(x.buff_view() =~= x_before.push((d, OutView::Runner(rv))));
                    }
                },
            }
            proof {
                let (m1, o1) = handle_one(maps_before, before[0]);
                assert(self.context.maps@ == m1);
                assert(x.buff_view() == x_before + o1);
                assert(handle(maps_before, before) == (
                    handle(m1, before.drop_first()).0,
                    o1 + handle(m1, before.drop_first()).1,
                ));
                assert(x.buff_view() + handle(self.context.maps@, self.context.buff_view()).1 =~= x_before
                    + handle(maps_before, before).1);
            }
        }
        assert(self.context.buff_view() =~= Seq::<(Option<TRaw>, OutView)>::empty());
        assert(x.buff_view() =~= old(x).buff_view() + target.1);
    }
}

impl<TRaw, TBody: Runnable<TRaw, CoreEv, Out>> Runnable<TRaw, CoreEv, MachineOut> for Machine<
    TRaw,
    TBody,
> {
    open spec fn next(s: MachineView<TRaw, TBody::V>, ev: (Option<TRaw>, CoreEv)) -> MachineView<
        TRaw,
        TBody::V,
    > {
        let maps1 = tracked_in(s.maps, ev.1);
        if masked(s.maps.mask, ev.1) {
            MachineView { maps: maps1, ..s }
        } else {
            MachineView {
                maps: handle(maps1, pending_items::<TRaw, TBody>(s, ev)).0,
                buff: Seq::empty(),
                body: TBody::next(s.body, ev),
                mode: s.mode,
            }
        }
    }

    open spec fn emitted(s: MachineView<TRaw, TBody::V>, ev: (Option<TRaw>, CoreEv)) -> Seq<
        (Option<TRaw>, OutView),
    > {
        if masked(s.maps.mask, ev.1) {
            Seq::empty()
        } else {
            handle(tracked_in(s.maps, ev.1), pending_items::<TRaw, TBody>(s, ev)).1
        }
    }

    open spec fn accepts(s: MachineView<TRaw, TBody::V>, ev: (Option<TRaw>, CoreEv)) -> bool {
        &&& trackable(ev.1)
        &&& !masked(s.maps.mask, ev.1) ==> {
            &&& TBody::accepts(s.body, ev)
            &&& all_trackable(pending_items::<TRaw, TBody>(s, ev))
        }
    }

    open spec fn rank(s: MachineView<TRaw, TBody::V>) -> nat {
        TBody::rank(s.body)
    }

    open spec fn spawned(s: MachineView<TRaw, TBody::V>, name: Seq<char>) -> Option<
        MachineView<TRaw, TBody::V>,
    > {
        match TBody::spawned(s.body, name) {
            Some(b) => Some(
                MachineView { maps: empty_maps(), buff: Seq::empty(), body: b, mode: Mode::Root },
            ),
            None => None,
        }
    }

    fn run(&mut self, x: &mut Ctx<TRaw, MachineOut>, ev: (Option<TRaw>, CoreEv)) {
        let (d, e) = ev;
        self.context.maps.track_in(&e);
        if let CoreEv::Key(c, _) = e {
            if self.context.maps.mask.get(c as usize) {
                assert(x.buff_view() =~= old(x).buff_view() + Seq::empty());
                return ;
            }
        }
        self.run_handle(x, (d, e));
    }

    fn spawn(&self, name: &String) -> (child: Option<Self>) {
        match self.body.spawn(name) {
            Some(b) => Some(Machine::new(b)),
            None => None,
        }
    }
}

} // verus!

verus! {

/// The key state that a run of emitted items leaves, starting from `down`:
/// each key event passed on is recorded.
pub open spec fn track_outs<TRaw>(down: Set<int>, o: Seq<(Option<TRaw>, OutView)>) -> Set<int>
    decreases o.len(),
{
    if o.len() == 0 {
        down
    } else {
        let down1 = match o[0].1 {
            OutView::Core(ev) => track(down, ev),
            _ => down,
        };
        track_outs(down1, o.drop_first())
    }
}

proof fn lemma_track_outs_append<TRaw>(down: Set<int>, a: Seq<(Option<TRaw>, OutView)>, b: Seq<(Option<TRaw>, OutView)>)
    ensures
        track_outs(down, a + b) == track_outs(track_outs(down, a), b),
    decreases a.len(),
{
    if a.len() == 0 {
        assert(a + b =~= b);
    } else {
        let down1 = match a[0].1 {
            OutView::Core(ev) => track(down, ev),
            _ => down,
        };
        assert((a + b).drop_first() =~= a.drop_first() + b);
        lemma_track_outs_append(down1, a.drop_first(), b);
    }
}

/// Handling an item never changes which keys are down on the way in.
pub proof fn lemma_handle_keeps_input<TRaw>(m: KeyMapsView, q: Seq<(Option<TRaw>, OutView)>)
    ensures
        handle(m, q).0.pre == m.pre,
    decreases q.len(),
{
    if q.len() > 0 {
        lemma_handle_keeps_input(handle_one(m, q[0]).0, q.drop_first());
    }
}

/// The keys down on the way out are always those that what the machine
/// passed on leaves down: every key event it emits, whether passed on from
/// its body or made up on a mask change, is recorded, and nothing else is.
pub proof fn lemma_output_map_follows_output<TRaw>(m: KeyMapsView, q: Seq<(Option<TRaw>, OutView)>)
    ensures
        handle(m, q).0.post == track_outs(m.post, handle(m, q).1),
    decreases q.len(),
{
    if q.len() > 0 {
        let (m1, o1) = handle_one(m, q[0]);
        lemma_output_map_follows_output(m1, q.drop_first());
        lemma_track_outs_append(m.post, o1, handle(m1, q.drop_first()).1);
        reveal_with_fuel(track_outs, 2);
        assert(track_outs(m.post, o1) == m1.post);
    }
}

/// A key event on a masked key is swallowed: nothing is emitted, the body
/// does not see it, and only the record of keys down on the way in changes.
pub proof fn lemma_masked_key_swallowed<TRaw, TBody: Runnable<TRaw, CoreEv, Out>>(
    s: MachineView<TRaw, TBody::V>,
    raw: Option<TRaw>,
    code: u16,
    movement: Movement,
)
    requires
        s.maps.mask.contains(code as int),
    ensures
        <Machine<TRaw, TBody> as Runnable<TRaw, CoreEv, MachineOut>>::emitted(s, (raw, CoreEv::Key(code, movement)))
            == Seq::<(Option<TRaw>, OutView)>::empty(),
        <Machine<TRaw, TBody> as Runnable<TRaw, CoreEv, MachineOut>>::next(s, (raw, CoreEv::Key(code, movement)))
            == (MachineView { maps: tracked_in(s.maps, CoreEv::Key(code, movement)), ..s }),
{
}

/// Whatever the event, masked or not, it is recorded on the way in.
pub proof fn lemma_input_always_tracked<TRaw, TBody: Runnable<TRaw, CoreEv, Out>>(
    s: MachineView<TRaw, TBody::V>,
    ev: (Option<TRaw>, CoreEv),
)
    ensures
        <Machine<TRaw, TBody> as Runnable<TRaw, CoreEv, MachineOut>>::next(s, ev).maps.pre == track(
            s.maps.pre,
            ev.1,
        ),
{
    if !masked(s.maps.mask, ev.1) {
        lemma_handle_keeps_input(tracked_in(s.maps, ev.1), pending_items::<TRaw, TBody>(s, ev));
    }
}

/// Masking a key that was not masked releases it on the way out, if it was
/// down there; after it the key is masked and up on the way out.
pub proof fn lemma_mask_releases<TRaw>(m: KeyMapsView, raw: Option<TRaw>, code: u16)
    requires
        !m.mask.contains(code as int),
    ensures
        handle_one(m, (raw, OutView::Machine(MachineEv::MaskOn(code)))).0.mask.contains(code as int),
        !handle_one(m, (raw, OutView::Machine(MachineEv::MaskOn(code)))).0.post.contains(code as int),
        handle_one(m, (raw, OutView::Machine(MachineEv::MaskOn(code)))).1 == (if m.post.contains(
            code as int,
        ) {
            seq![(None::<TRaw>, OutView::Core(CoreEv::Key(code, Movement::Up)))]
        } else {
            Seq::empty()
        }),
{
}

/// Masking a key that is already masked does nothing.
pub proof fn lemma_mask_twice_is_quiet<TRaw>(m: KeyMapsView, raw: Option<TRaw>, code: u16)
    requires
        m.mask.contains(code as int),
    ensures
        handle_one(m, (raw, OutView::Machine(MachineEv::MaskOn(code)))) == (m, Seq::<
            (Option<TRaw>, OutView),
        >::empty()),
{
    assert(m.mask.insert(code as int) =~= m.mask);
}

/// Unmasking a masked key brings its state on the way out in line with its
/// state on the way in, pressing or releasing it if they differ.
pub proof fn lemma_unmask_resyncs<TRaw>(m: KeyMapsView, raw: Option<TRaw>, code: u16)
    requires
        m.mask.contains(code as int),
    ensures
        !handle_one(m, (raw, OutView::Machine(MachineEv::MaskOff(code)))).0.mask.contains(code as int),
        handle_one(m, (raw, OutView::Machine(MachineEv::MaskOff(code)))).0.post.contains(code as int)
            == m.pre.contains(code as int),
        handle_one(m, (raw, OutView::Machine(MachineEv::MaskOff(code)))).1.len() == (if m.pre.contains(
            code as int,
        ) == m.post.contains(code as int) {
            0int
        } else {
            1int
        }),
{
}

} // verus!

verus! {

/// A machine in state `s` run on the events of `evs` in order: the state it
/// ends in, and everything it passes on.
pub open spec fn machine_run<TRaw, TBody: Runnable<TRaw, CoreEv, Out>>(
    s: MachineView<TRaw, TBody::V>,
    evs: Seq<(Option<TRaw>, CoreEv)>,
) -> (MachineView<TRaw, TBody::V>, Seq<(Option<TRaw>, OutView)>)
    decreases evs.len(),
{
    if evs.len() == 0 {
        (s, Seq::empty())
    } else {
        let s1 = <Machine<TRaw, TBody> as Runnable<TRaw, CoreEv, MachineOut>>::next(s, evs[0]);
        let o1 = <Machine<TRaw, TBody> as Runnable<TRaw, CoreEv, MachineOut>>::emitted(s, evs[0]);
        let (s2, o2) = machine_run::<TRaw, TBody>(s1, evs.drop_first());
        (s2, o1 + o2)
    }
}

/// One run keeps the output map in step with what the run passes on.
pub proof fn lemma_output_map_per_run<TRaw, TBody: Runnable<TRaw, CoreEv, Out>>(
    s: MachineView<TRaw, TBody::V>,
    ev: (Option<TRaw>, CoreEv),
)
    ensures
        <Machine<TRaw, TBody> as Runnable<TRaw, CoreEv, MachineOut>>::next(s, ev).maps.post == track_outs(
            s.maps.post,
            <Machine<TRaw, TBody> as Runnable<TRaw, CoreEv, MachineOut>>::emitted(s, ev),
        ),
{
    if !masked(s.maps.mask, ev.1) {
        lemma_output_map_follows_output(tracked_in(s.maps, ev.1), pending_items::<TRaw, TBody>(s, ev));
    }
}

/// Over any run of calls, the input map holds the keys whose last input
/// event was a press, and the output map the keys whose last event passed
/// on (from the body, or made up on a mask change) was a press; from a new
/// machine, with nothing held before.
pub proof fn lemma_key_maps_over_runs<TRaw, TBody: Runnable<TRaw, CoreEv, Out>>(
    s: MachineView<TRaw, TBody::V>,
    evs: Seq<(Option<TRaw>, CoreEv)>,
)
    ensures
        machine_run::<TRaw, TBody>(s, evs).0.maps.pre == track_inputs(s.maps.pre, evs),
        machine_run::<TRaw, TBody>(s, evs).0.maps.post == track_outs(
            s.maps.post,
            machine_run::<TRaw, TBody>(s, evs).1,
        ),
    decreases evs.len(),
{
    if evs.len() > 0 {
        let s1 = <Machine<TRaw, TBody> as Runnable<TRaw, CoreEv, MachineOut>>::next(s, evs[0]);
        let o1 = <Machine<TRaw, TBody> as Runnable<TRaw, CoreEv, MachineOut>>::emitted(s, evs[0]);
        lemma_input_always_tracked::<TRaw, TBody>(s, evs[0]);
        lemma_output_map_per_run::<TRaw, TBody>(s, evs[0]);
        lemma_key_maps_over_runs::<TRaw, TBody>(s1, evs.drop_first());
        lemma_track_outs_append(s.maps.post, o1, machine_run::<TRaw, TBody>(s1, evs.drop_first()).1);
    }
}

} // verus!

verus! {

/// The movement of the last key event for `code` among the items `o`, if any.
pub open spec fn last_out_key<TRaw>(o: Seq<(Option<TRaw>, OutView)>, code: int) -> Option<Movement>
    decreases o.len(),
{
    if o.len() == 0 {
        None
    } else {
        match last_out_key(o.drop_first(), code) {
            Some(m) => Some(m),
            None => match o[0].1 {
                OutView::Core(CoreEv::Key(c, m)) => if c as int == code {
                    Some(m)
                } else {
                    None
                },
                _ => None,
            },
        }
    }
}

proof fn lemma_track_outs_last<TRaw>(down: Set<int>, o: Seq<(Option<TRaw>, OutView)>, code: int)
    ensures
        track_outs(down, o).contains(code) == match last_out_key(o, code) {
            Some(m) => m == Movement::Down,
            None => down.contains(code),
        },
    decreases o.len(),
{
    if o.len() > 0 {
        let down1 = match o[0].1 {
            OutView::Core(ev) => track(down, ev),
            _ => down,
        };
        lemma_track_outs_last(down1, o.drop_first(), code);
    }
}

/// From a new machine, over any run of calls: a key is down on the way in
/// exactly when the last input event for it was a press, and down on the
/// way out exactly when the last event for it that the machine passed on
/// (from the body or made up on a mask change) was a press; a key with no
/// such event is up.
pub proof fn lemma_new_machine_key_maps<TRaw, TBody: Runnable<TRaw, CoreEv, Out>>(
    body: TBody::V,
    evs: Seq<(Option<TRaw>, CoreEv)>,
    code: int,
)
    ensures
        ({
            let s = MachineView::<TRaw, TBody::V> {
                maps: empty_maps(),
                buff: Seq::empty(),
                body,
                mode: Mode::Root,
            };
            let (s1, o) = machine_run::<TRaw, TBody>(s, evs);
            &&& s1.maps.pre.contains(code) == (last_input_key(evs, code) == Some(Movement::Down))
            &&& s1.maps.post.contains(code) == (last_out_key(o, code) == Some(Movement::Down))
        }),
{
    let s = MachineView::<TRaw, TBody::V> { maps: empty_maps(), buff: Seq::empty(), body, mode: Mode::Root };
    lemma_key_maps_over_runs::<TRaw, TBody>(s, evs);
    lemma_track_inputs_last(s.maps.pre, evs, code);
    lemma_track_outs_last(s.maps.post, machine_run::<TRaw, TBody>(s, evs).1, code);
}

} // verus!

verus! {

/// Handling never touches a key or mode event the body emitted: it passes
/// on exactly that item, with its raw origin.
pub proof fn lemma_core_item_passes<TRaw>(m: KeyMapsView, raw: Option<TRaw>, ev: CoreEv)
    ensures
        handle_one(m, (raw, OutView::Core(ev))).1 == seq![(raw, OutView::Core(ev))],
{
}

/// Items that are not requests to the machine (mask, unmask, time) pass
/// through handling unchanged and in order.
pub proof fn lemma_handle_passes_non_requests<TRaw>(m: KeyMapsView, q: Seq<(Option<TRaw>, OutView)>)
    requires
        forall|i: int| 0 <= i < q.len() ==> !(#[trigger] q[i].1 is Machine),
    ensures
        handle(m, q).1 == q,
    decreases q.len(),
{
    if q.len() > 0 {
        assert(!(q[0].1 is Machine));
        assert forall|i: int| 0 <= i < q.drop_first().len() implies !(#[trigger] q.drop_first()[i].1 is Machine) by {
            assert(q.drop_first()[i] == q[i + 1]);
        }
        lemma_handle_passes_non_requests(handle_one(m, q[0]).0, q.drop_first());
        assert(handle_one(m, q[0]).1 == seq![q[0]]);
        assert(seq![q[0]] + q.drop_first() =~= q);
    }
}

/// A machine whose body asks nothing of it passes on, for an event it does
/// not mask, exactly what it held for the body and what the body emitted,
/// in order.
pub proof fn lemma_machine_passes_body_output<TRaw, TBody: Runnable<TRaw, CoreEv, Out>>(
    s: MachineView<TRaw, TBody::V>,
    ev: (Option<TRaw>, CoreEv),
)
    requires
        !masked(s.maps.mask, ev.1),
        forall|i: int|
            0 <= i < pending_items::<TRaw, TBody>(s, ev).len() ==> !(#[trigger] pending_items::<TRaw, TBody>(
                s,
                ev,
            )[i].1 is Machine),
    ensures
        <Machine<TRaw, TBody> as Runnable<TRaw, CoreEv, MachineOut>>::emitted(s, ev) == pending_items::<
            TRaw,
            TBody,
        >(s, ev),
{
    lemma_handle_passes_non_requests(tracked_in(s.maps, ev.1), pending_items::<TRaw, TBody>(s, ev));
}

} // verus!
