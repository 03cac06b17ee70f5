//! One type for any of the library's machine bodies, so that a runner can
//! hold different kinds of machines side by side.

use vstd::prelude::*;

use crate::common::{Act, CoreEv, MachineOut, Mode, Movement, Out, OutView, RunnerOut};
use super::big_machine::{self, BigMachine, big_action, big_next, key, press_mapped, release_mapped};
use super::dynamic_machine::DynamicMachine;
use super::key_maps::{KEY_CAPACITY, KeyMapsView, trackable};
use super::lead_machine::{LeadMachine, lead_table};
use super::machine::{Machine, MachineView, all_trackable, handle, handle_one, out_trackable, pending_items, tracked_in};
use super::mode_machine::{ModeMachine, mode_table};
use super::print_keys::PrintKeys;
use super::runner::{Runner, feed, forest, pass, sort_outs, tree};
use super::{Ctx, Runnable, act_effect, acts_effect, acts_output, mask_requests};

verus! {

pub enum Stage {
    Print(PrintKeys),
    Modes(ModeMachine),
    Big(BigMachine),
    Lead(LeadMachine),
    Dynamic(DynamicMachine),
}

pub enum StageView {
    Print((u8, u8)),
    Modes(Mode),
    Big(big_machine::Mode),
    Lead(Mode),
    Dynamic,
}

impl View for Stage {
    type V = StageView;

    open spec fn view(&self) -> StageView {
        match self {
            Stage::Print(p) => StageView::Print(p@),
            Stage::Modes(m) => StageView::Modes(m@),
            Stage::Big(m) => StageView::Big(m@),
            Stage::Lead(m) => StageView::Lead(m@),
            Stage::Dynamic(_) => StageView::Dynamic,
        }
    }
}

impl<TRaw> Runnable<TRaw, CoreEv, Out> for Stage {
    open spec fn next(s: StageView, ev: (Option<TRaw>, CoreEv)) -> StageView {
        match s {
            StageView::Print(p) => StageView::Print(p),
            StageView::Modes(m) => StageView::Modes(
                <ModeMachine as Runnable<TRaw, CoreEv, Out>>::next(m, ev),
            ),
            StageView::Big(m) => StageView::Big(<BigMachine as Runnable<TRaw, CoreEv, Out>>::next(m, ev)),
            StageView::Lead(m) => StageView::Lead(
                <LeadMachine as Runnable<TRaw, CoreEv, Out>>::next(m, ev),
            ),
            StageView::Dynamic => StageView::Dynamic,
        }
    }

    open spec fn emitted(s: StageView, ev: (Option<TRaw>, CoreEv)) -> Seq<(Option<TRaw>, OutView)> {
        match s {
            StageView::Print(p) => <PrintKeys as Runnable<TRaw, CoreEv, Out>>::emitted(p, ev),
            StageView::Modes(m) => <ModeMachine as Runnable<TRaw, CoreEv, Out>>::emitted(m, ev),
            StageView::Big(m) => <BigMachine as Runnable<TRaw, CoreEv, Out>>::emitted(m, ev),
            StageView::Lead(m) => <LeadMachine as Runnable<TRaw, CoreEv, Out>>::emitted(m, ev),
            StageView::Dynamic => <DynamicMachine as Runnable<TRaw, CoreEv, Out>>::emitted((), ev),
        }
    }

    fn run(&mut self, x: &mut Ctx<TRaw, Out>, ev: (Option<TRaw>, CoreEv)) {
        match self {
            Stage::Print(p) => p.run(x, ev),
            Stage::Modes(m) => m.run(x, ev),
            Stage::Big(m) => m.run(x, ev),
            Stage::Lead(m) => m.run(x, ev),
            Stage::Dynamic(m) => m.run(x, ev),
        }
    }

    fn spawn(&self, name: &String) -> (child: Option<Self>) {
        None
    }
}

} // verus!

verus! {

/// Every act that emits a key emits one a key map can track.
pub open spec fn acts_trackable(acts: Seq<Act>) -> bool {
    forall|i: int| 0 <= i < acts.len() ==> (#[trigger] acts[i] matches Act::Emit(code, _) ==> code < KEY_CAPACITY)
}

proof fn lemma_acts_emit_trackable<TRaw>(mode: Mode, acts: Seq<Act>)
    requires
        acts_trackable(acts),
    ensures
        all_trackable(acts_effect::<TRaw>(mode, acts).1),
    decreases acts.len(),
{
    if acts.len() > 0 {
        let (m1, o1, _) = act_effect::<TRaw>(mode, acts[0]);
        assert(acts_trackable(acts.drop_first())) by {
            assert forall|i: int| 0 <= i < acts.drop_first().len() implies (#[trigger] acts.drop_first()[i] matches Act::Emit(
                code,
                _,
            ) ==> code < KEY_CAPACITY) by {
                assert(acts.drop_first()[i] == acts[i + 1]);
            }
        }
        lemma_acts_emit_trackable::<TRaw>(m1, acts.drop_first());
        let o2 = acts_effect::<TRaw>(m1, acts.drop_first()).1;
        assert(all_trackable(o1));
        assert forall|i: int| 0 <= i < (o1 + o2).len() implies #[trigger] out_trackable((o1 + o2)[i].1) by {
            if i < o1.len() {
                assert((o1 + o2)[i] == o1[i]);
            } else {
                assert((o1 + o2)[i] == o2[i - o1.len()]);
            }
        }
    }
}

proof fn lemma_push_trackable<TRaw>(o: Seq<(Option<TRaw>, OutView)>, item: (Option<TRaw>, OutView))
    requires
        all_trackable(o),
        out_trackable(item.1),
    ensures
        all_trackable(o.push(item)),
{
    assert forall|i: int| 0 <= i < o.push(item).len() implies #[trigger] out_trackable(o.push(item)[i].1) by {
        if i < o.len() {
            assert(o.push(item)[i] == o[i]);
        }
    }
}

proof fn lemma_acts_output_trackable<TRaw>(mode: Mode, acts: Seq<Act>, ev: (Option<TRaw>, CoreEv))
    requires
        acts_trackable(acts),
        trackable(ev.1),
    ensures
        all_trackable(acts_output(mode, acts, ev)),
{
    lemma_acts_emit_trackable::<TRaw>(mode, acts);
    lemma_push_trackable(acts_effect::<TRaw>(mode, acts).1, (ev.0, OutView::Core(ev.1)));
}

proof fn lemma_mask_requests_trackable<TRaw>(on: bool)
    ensures
        all_trackable(mask_requests::<TRaw>(seq![42u16, 56u16], on)),
{
    reveal_with_fuel(mask_requests, 3);
    assert(seq![42u16, 56u16].drop_last() =~= seq![42u16]);
    assert(seq![42u16].drop_last() =~= Seq::<u16>::empty());
}

proof fn lemma_mapped_trackable<TRaw>(target: u16)
    requires
        target < KEY_CAPACITY,
    ensures
        all_trackable(press_mapped::<TRaw>(target)),
        all_trackable(release_mapped::<TRaw>(target)),
{
    lemma_mask_requests_trackable::<TRaw>(true);
    lemma_mask_requests_trackable::<TRaw>(false);
    let on = mask_requests::<TRaw>(seq![42u16, 56u16], true);
    let off = mask_requests::<TRaw>(seq![42u16, 56u16], false);
    let down: Seq<(Option<TRaw>, OutView)> = seq![(None, OutView::Core(key(target, Movement::Down)))];
    let up: Seq<(Option<TRaw>, OutView)> = seq![(None, OutView::Core(key(target, Movement::Up)))];
    assert forall|i: int| 0 <= i < (on + down).len() implies #[trigger] out_trackable((on + down)[i].1) by {
        if i < on.len() {
            assert((on + down)[i] == on[i]);
        } else {
            assert((on + down)[i] == down[i - on.len()]);
        }
    }
    assert forall|i: int| 0 <= i < (up + off).len() implies #[trigger] out_trackable((up + off)[i].1) by {
        if i < up.len() {
            assert((up + off)[i] == up[i]);
        } else {
            assert((up + off)[i] == off[i - up.len()]);
        }
    }
}

/// Every body stage, given an event a key map can track, emits only items a
/// key map can track.
pub proof fn lemma_stage_emits_trackable<TRaw>(st: StageView, ev: (Option<TRaw>, CoreEv))
    requires
        trackable(ev.1),
    ensures
        all_trackable(<Stage as Runnable<TRaw, CoreEv, Out>>::emitted(st, ev)),
{
    match st {
        StageView::Modes(m) => {
            lemma_acts_output_trackable(m, mode_table(m, ev.1), ev);
        },
        StageView::Lead(m) => {
            lemma_acts_output_trackable(m, lead_table(m, ev.1), ev);
        },
        StageView::Big(m) => {
            let others = <Stage as Runnable<TRaw, CoreEv, Out>>::emitted(st, ev);
            match big_action::<TRaw>(m, big_next(m, ev.1), ev.1) {
                Some(_) => {
                    lemma_mapped_trackable::<TRaw>(28);
                    lemma_mapped_trackable::<TRaw>(108);
                    lemma_mapped_trackable::<TRaw>(103);
                },
                None => {
                    lemma_push_trackable(Seq::<(Option<TRaw>, OutView)>::empty(), (ev.0, OutView::Core(ev.1)));
                    assert(others =~= Seq::<(Option<TRaw>, OutView)>::empty().push((ev.0, OutView::Core(ev.1))));
                },
            }
        },
        _ => {},
    }
}


/// Every event of `evs` is one a key map can track.
pub open spec fn events_trackable<TRaw>(evs: Seq<(Option<TRaw>, CoreEv)>) -> bool {
    forall|i: int| 0 <= i < evs.len() ==> #[trigger] trackable(evs[i].1)
}

/// A machine around a stage is ready when all it still holds for its body is
/// something a key map can track (a new machine holds nothing).
pub open spec fn stage_machine_ready<TRaw>(s: MachineView<TRaw, StageView>) -> bool {
    all_trackable(s.buff)
}

/// Every machine of `ms` is ready.
pub open spec fn stage_machines_ready<TRaw>(ms: Seq<(&'static str, MachineView<TRaw, StageView>)>) -> bool {
    forall|i: int| 0 <= i < ms.len() ==> #[trigger] stage_machine_ready(ms[i].1)
}

proof fn lemma_concat_trackable<TRaw>(a: Seq<(Option<TRaw>, OutView)>, b: Seq<(Option<TRaw>, OutView)>)
    requires
        all_trackable(a),
        all_trackable(b),
    ensures
        all_trackable(a + b),
{
    assert forall|i: int| 0 <= i < (a + b).len() implies #[trigger] out_trackable((a + b)[i].1) by {
        if i < a.len() {
            assert((a + b)[i] == a[i]);
        } else {
            assert((a + b)[i] == b[i - a.len()]);
        }
    }
}

proof fn lemma_concat_events<TRaw>(a: Seq<(Option<TRaw>, CoreEv)>, b: Seq<(Option<TRaw>, CoreEv)>)
    requires
        events_trackable(a),
        events_trackable(b),
    ensures
        events_trackable(a + b),
{
    assert forall|i: int| 0 <= i < (a + b).len() implies #[trigger] trackable((a + b)[i].1) by {
        if i < a.len() {
            assert((a + b)[i] == a[i]);
        } else {
            assert((a + b)[i] == b[i - a.len()]);
        }
    }
}

proof fn lemma_handle_trackable<TRaw>(m: KeyMapsView, q: Seq<(Option<TRaw>, OutView)>)
    requires
        all_trackable(q),
    ensures
        all_trackable(handle(m, q).1),
    decreases q.len(),
{
    if q.len() > 0 {
        let (m1, o1) = handle_one(m, q[0]);
        assert(out_trackable(q[0].1));
        assert(all_trackable(o1)) by {
            assert forall|i: int| 0 <= i < o1.len() implies #[trigger] out_trackable(o1[i].1) by {
                assert(i == 0);
            }
        }
        assert(all_trackable(q.drop_first())) by {
            assert forall|i: int| 0 <= i < q.drop_first().len() implies #[trigger] out_trackable(
                q.drop_first()[i].1,
            ) by {
                assert(q.drop_first()[i] == q[i + 1]);
            }
        }
        lemma_handle_trackable(m1, q.drop_first());
        lemma_concat_trackable(o1, handle(m1, q.drop_first()).1);
    }
}

proof fn lemma_stage_machine_step<TRaw>(s: MachineView<TRaw, StageView>, ev: (Option<TRaw>, CoreEv))
    requires
        stage_machine_ready(s),
        trackable(ev.1),
    ensures
        <Machine<TRaw, Stage> as Runnable<TRaw, CoreEv, MachineOut>>::accepts(s, ev),
        stage_machine_ready(<Machine<TRaw, Stage> as Runnable<TRaw, CoreEv, MachineOut>>::next(s, ev)),
        all_trackable(<Machine<TRaw, Stage> as Runnable<TRaw, CoreEv, MachineOut>>::emitted(s, ev)),
{
    lemma_stage_emits_trackable::<TRaw>(s.body, ev);
    lemma_concat_trackable(s.buff, <Stage as Runnable<TRaw, CoreEv, Out>>::emitted(s.body, ev));
    lemma_handle_trackable(tracked_in(s.maps, ev.1), pending_items::<TRaw, Stage>(s, ev));
    assert(all_trackable(Seq::<(Option<TRaw>, OutView)>::empty()));
}

proof fn lemma_sort_stage_outs<TRaw>(s: MachineView<TRaw, StageView>, outs: Seq<(Option<TRaw>, OutView)>)
    requires
        all_trackable(outs),
    ensures
        events_trackable(sort_outs::<TRaw, Machine<TRaw, Stage>>(s, outs).0),
        sort_outs::<TRaw, Machine<TRaw, Stage>>(s, outs).1.len() == 0,
    decreases outs.len(),
{
    if outs.len() > 0 {
        assert(out_trackable(outs[0].1));
        assert(all_trackable(outs.drop_first())) by {
            assert forall|i: int| 0 <= i < outs.drop_first().len() implies #[trigger] out_trackable(
                outs.drop_first()[i].1,
            ) by {
                assert(outs.drop_first()[i] == outs[i + 1]);
            }
        }
        lemma_sort_stage_outs(s, outs.drop_first());
        let o = sort_outs::<TRaw, Machine<TRaw, Stage>>(s, outs.drop_first()).0;
        if let OutView::Core(ev) = outs[0].1 {
            let head = seq![(outs[0].0, ev)];
            assert(events_trackable(head)) by {
                assert forall|i: int| 0 <= i < head.len() implies #[trigger] trackable(head[i].1) by {
                    assert(i == 0);
                }
            }
            lemma_concat_events(head, o);
        }
    }
}

proof fn lemma_feed_stage_machine<TRaw>(s: MachineView<TRaw, StageView>, evs: Seq<(Option<TRaw>, CoreEv)>)
    requires
        stage_machine_ready(s),
        events_trackable(evs),
    ensures
        feed::<TRaw, Machine<TRaw, Stage>>(s, evs).ok,
        stage_machine_ready(feed::<TRaw, Machine<TRaw, Stage>>(s, evs).state),
        events_trackable(feed::<TRaw, Machine<TRaw, Stage>>(s, evs).out),
        feed::<TRaw, Machine<TRaw, Stage>>(s, evs).kids.len() == 0,
    decreases evs.len(),
{
    if evs.len() == 0 {
        assert(events_trackable(Seq::<(Option<TRaw>, CoreEv)>::empty()));
    } else {
        assert(trackable(evs[0].1));
        lemma_stage_machine_step(s, evs[0]);
        let s1 = <Machine<TRaw, Stage> as Runnable<TRaw, CoreEv, MachineOut>>::next(s, evs[0]);
        let outs = <Machine<TRaw, Stage> as Runnable<TRaw, CoreEv, MachineOut>>::emitted(s, evs[0]);
        lemma_sort_stage_outs(s1, outs);
        assert(events_trackable(evs.drop_first())) by {
            assert forall|i: int| 0 <= i < evs.drop_first().len() implies #[trigger] trackable(
                evs.drop_first()[i].1,
            ) by {
                assert(evs.drop_first()[i] == evs[i + 1]);
            }
        }
        lemma_feed_stage_machine(s1, evs.drop_first());
        lemma_concat_events(
            sort_outs::<TRaw, Machine<TRaw, Stage>>(s1, outs).0,
            feed::<TRaw, Machine<TRaw, Stage>>(s1, evs.drop_first()).out,
        );
    }
}

proof fn lemma_tree_stage_machine<TRaw>(
    tag: &'static str,
    s: MachineView<TRaw, StageView>,
    evs: Seq<(Option<TRaw>, CoreEv)>,
)
    requires
        stage_machine_ready(s),
        events_trackable(evs),
    ensures
        tree::<TRaw, Machine<TRaw, Stage>>(tag, s, evs).ok,
        stage_machines_ready(tree::<TRaw, Machine<TRaw, Stage>>(tag, s, evs).kept),
        events_trackable(tree::<TRaw, Machine<TRaw, Stage>>(tag, s, evs).out),
{
    lemma_feed_stage_machine(s, evs);
    let f = feed::<TRaw, Machine<TRaw, Stage>>(s, evs);
    let r = forest::<TRaw, Machine<TRaw, Stage>>(
        tag,
        f.kids,
        f.out,
        <Machine<TRaw, Stage> as Runnable<TRaw, CoreEv, MachineOut>>::rank(s),
    );
    assert(r.kept.len() == 0 && r.out == f.out && r.ok);
    let t = tree::<TRaw, Machine<TRaw, Stage>>(tag, s, evs);
    assert forall|i: int| 0 <= i < t.kept.len() implies #[trigger] stage_machine_ready(t.kept[i].1) by {
        assert(t.kept[i] == (tag, f.state));
    }
}

proof fn lemma_pass_stage_machines<TRaw>(
    ms: Seq<(&'static str, MachineView<TRaw, StageView>)>,
    evs: Seq<(Option<TRaw>, CoreEv)>,
)
    requires
        stage_machines_ready(ms),
        events_trackable(evs),
    ensures
        pass::<TRaw, Machine<TRaw, Stage>>(ms, evs).ok,
        stage_machines_ready(pass::<TRaw, Machine<TRaw, Stage>>(ms, evs).kept),
    decreases ms.len(),
{
    if ms.len() > 0 {
        assert(stage_machine_ready(ms[0].1));
        lemma_tree_stage_machine(ms[0].0, ms[0].1, evs);
        let t = tree::<TRaw, Machine<TRaw, Stage>>(ms[0].0, ms[0].1, evs);
        assert(stage_machines_ready(ms.drop_first())) by {
            assert forall|i: int| 0 <= i < ms.drop_first().len() implies #[trigger] stage_machine_ready(
                ms.drop_first()[i].1,
            ) by {
                assert(ms.drop_first()[i] == ms[i + 1]);
            }
        }
        lemma_pass_stage_machines(ms.drop_first(), t.out);
        let r = pass::<TRaw, Machine<TRaw, Stage>>(ms.drop_first(), t.out);
        assert forall|i: int| 0 <= i < (t.kept + r.kept).len() implies #[trigger] stage_machine_ready(
            (t.kept + r.kept)[i].1,
        ) by {
            if i < t.kept.len() {
                assert((t.kept + r.kept)[i] == t.kept[i]);
            } else {
                assert((t.kept + r.kept)[i] == r.kept[i - t.kept.len()]);
            }
        }
    }
}

/// A runner of machines around stages, each of them ready, accepts every
/// event that a key map can track, and its machines are all ready after it.
pub proof fn lemma_stage_runner_accepts<TRaw>(
    rs: Seq<(&'static str, MachineView<TRaw, StageView>)>,
    ev: (Option<TRaw>, CoreEv),
)
    requires
        stage_machines_ready(rs),
        trackable(ev.1),
    ensures
        <Runner<TRaw, Machine<TRaw, Stage>> as Runnable<TRaw, CoreEv, RunnerOut>>::accepts(rs, ev),
        stage_machines_ready(<Runner<TRaw, Machine<TRaw, Stage>> as Runnable<TRaw, CoreEv, RunnerOut>>::next(rs, ev)),
{
    let evs = seq![ev];
    assert(events_trackable(evs)) by {
        assert forall|i: int| 0 <= i < evs.len() implies #[trigger] trackable(evs[i].1) by {
            assert(i == 0);
        }
    }
    lemma_pass_stage_machines(rs, evs);
}

} // verus!
