//! The runner: passes each event through its machines in order, lets
//! machines spawn further machines and die, and emits what comes out of the
//! last one.

use vstd::prelude::*;
use std::collections::VecDeque;
use std::marker::PhantomData;

use crate::common::{CoreEv, MachineOut, OutView, RunnerEv, RunnerEvView, RunnerOut};
use super::{Ctx, RunRef, Runnable};

verus! {

/// What one machine did with a run of events: the state it ended in, the
/// events it passed on, the machines it spawned (in the order it asked for
/// them), whether it asked to die, and whether every step was one it accepts.
pub struct Fed<TRaw, S> {
    pub state: S,
    pub out: Seq<(Option<TRaw>, CoreEv)>,
    pub kids: Seq<S>,
    pub died: bool,
    pub ok: bool,
}

/// What a pass over machines did: the machines kept for the next pass, each
/// with its tag, in the order they ran, the events that came out, and whether
/// every step was one its machine accepts.
pub struct Pass<TRaw, S> {
    pub kept: Seq<(&'static str, S)>,
    pub out: Seq<(Option<TRaw>, CoreEv)>,
    pub ok: bool,
}

/// Sorts what a machine emitted, once it has reached state `s`: events to
/// pass on, machines spawned, and whether it asked to die.
pub open spec fn sort_outs<TRaw, M: Runnable<TRaw, CoreEv, MachineOut>>(
    s: M::V,
    outs: Seq<(Option<TRaw>, OutView)>,
) -> (Seq<(Option<TRaw>, CoreEv)>, Seq<M::V>, bool)
    decreases outs.len(),
{
    if outs.len() == 0 {
        (Seq::empty(), Seq::empty(), false)
    } else {
        let (o, k, d) = sort_outs::<TRaw, M>(s, outs.drop_first());
        match outs[0].1 {
            OutView::Core(ev) => (seq![(outs[0].0, ev)] + o, k, d),
            OutView::Runner(RunnerEvView::Spawn(name)) => match M::spawned(s, name) {
                Some(c) => (o, seq![c] + k, d),
                None => (o, k, d),
            },
            OutView::Runner(RunnerEvView::Die) => (o, k, true),
            OutView::Machine(_) => (o, k, d),
        }
    }
}

/// Runs a machine in state `s` on `evs`, one event at a time.
pub open spec fn feed<TRaw, M: Runnable<TRaw, CoreEv, MachineOut>>(
    s: M::V,
    evs: Seq<(Option<TRaw>, CoreEv)>,
) -> Fed<TRaw, M::V>
    decreases evs.len(),
{
    if evs.len() == 0 {
        Fed { state: s, out: Seq::empty(), kids: Seq::empty(), died: false, ok: true }
    } else {
        let s1 = M::next(s, evs[0]);
        let (o, k, d) = sort_outs::<TRaw, M>(s1, M::emitted(s, evs[0]));
        let r = feed::<TRaw, M>(s1, evs.drop_first());
        Fed {
            state: r.state,
            out: o + r.out,
            kids: k + r.kids,
            died: d || r.died,
            ok: M::accepts(s, evs[0]) && r.ok,
        }
    }
}

/// Runs a machine tagged `tag` on `evs`, then the machines it spawned, the
/// last spawned first, each on what the previous one passed on; a spawned
/// machine takes its parent's tag.
pub open spec fn tree<TRaw, M: Runnable<TRaw, CoreEv, MachineOut>>(
    tag: &'static str,
    s: M::V,
    evs: Seq<(Option<TRaw>, CoreEv)>,
) -> Pass<TRaw, M::V>
    decreases M::rank(s), 1nat, 0nat,
{
    let f = feed::<TRaw, M>(s, evs);
    let kept0 = if f.died {
        Seq::empty()
    } else {
        seq![(tag, f.state)]
    };
    let r = forest::<TRaw, M>(tag, f.kids, f.out, M::rank(s));
    Pass { kept: kept0 + r.kept, out: r.out, ok: f.ok && r.ok }
}

/// Runs the trees of `kids`, the last first; every kid ranks below `bound`
/// (a kid that does not is never produced by `spawn`).
pub open spec fn forest<TRaw, M: Runnable<TRaw, CoreEv, MachineOut>>(
    tag: &'static str,
    kids: Seq<M::V>,
    evs: Seq<(Option<TRaw>, CoreEv)>,
    bound: nat,
) -> Pass<TRaw, M::V>
    decreases bound, 0nat, kids.len(),
{
    if kids.len() == 0 {
        Pass { kept: Seq::empty(), out: evs, ok: true }
    } else {
        let k = kids.last();
        let t = if M::rank(k) < bound {
            tree::<TRaw, M>(tag, k, evs)
        } else {
            Pass { kept: Seq::empty(), out: evs, ok: true }
        };
        let r = forest::<TRaw, M>(tag, kids.drop_last(), t.out, bound);
        Pass { kept: t.kept + r.kept, out: r.out, ok: t.ok && r.ok }
    }
}

/// Runs the trees of `ms` in order, each on what the previous passed on.
pub open spec fn pass<TRaw, M: Runnable<TRaw, CoreEv, MachineOut>>(
    ms: Seq<(&'static str, M::V)>,
    evs: Seq<(Option<TRaw>, CoreEv)>,
) -> Pass<TRaw, M::V>
    decreases ms.len(),
{
    if ms.len() == 0 {
        Pass { kept: Seq::empty(), out: evs, ok: true }
    } else {
        let t = tree::<TRaw, M>(ms[0].0, ms[0].1, evs);
        let r = pass::<TRaw, M>(ms.drop_first(), t.out);
        Pass { kept: t.kept + r.kept, out: r.out, ok: t.ok && r.ok }
    }
}

/// The machines of a queue of run refs, each with its tag.
pub open spec fn refs_view<M: View>(q: Seq<RunRef<M>>) -> Seq<(&'static str, M::V)> {
    q.map_values(|r: RunRef<M>| (r.tag, r.inner@))
}

/// The machines of a list.
pub open spec fn machines_view<M: View>(q: Seq<M>) -> Seq<M::V> {
    q.map_values(|m: M| m@)
}

/// What a runner emits for the events that come out of its last machine.
pub open spec fn runner_items<TRaw>(evs: Seq<(Option<TRaw>, CoreEv)>) -> Seq<(Option<TRaw>, OutView)> {
    evs.map_values(|e: (Option<TRaw>, CoreEv)| (e.0, OutView::Core(e.1)))
}

pub struct Runner<TRaw, M> {
    pending: VecDeque<RunRef<M>>,
    raw: PhantomData<TRaw>,
}

impl<TRaw, M: View> View for Runner<TRaw, M> {
    type V = Seq<(&'static str, M::V)>;

    closed spec fn view(&self) -> Seq<(&'static str, M::V)> {
        refs_view(self.pending@)
    }
}

proof fn lemma_refs_view_push<M: View>(q: Seq<RunRef<M>>, r: RunRef<M>)
    ensures
        refs_view(q.push(r)) == refs_view(q).push((r.tag, r.inner@)),
{
    assert(refs_view(q.push(r)) =~= refs_view(q).push((r.tag, r.inner@)));
}

proof fn lemma_machines_view_push<M: View>(q: Seq<M>, m: M)
    ensures
        machines_view(q.push(m)) == machines_view(q).push(m@),
{
    assert(machines_view(q.push(m)) =~= machines_view(q).push(m@));
}

/// Runs the tree rooted at `r` on `buff`; appends the machines it keeps to
/// `seen` and returns what comes out.
fn run_tree<TRaw, M: Runnable<TRaw, CoreEv, MachineOut>>(
    r: RunRef<M>,
    buff: VecDeque<(Option<TRaw>, CoreEv)>,
    seen: &mut VecDeque<RunRef<M>>,
) -> (out: VecDeque<(Option<TRaw>, CoreEv)>)
    requires
        tree::<TRaw, M>(r.tag, r.inner@, buff@).ok,
    ensures
        out@ == tree::<TRaw, M>(r.tag, r.inner@, buff@).out,
        refs_view(final(seen)@) == refs_view(old(seen)@) + tree::<TRaw, M>(r.tag, r.inner@, buff@).kept,
    decreases M::rank(r.inner@),
{
    let RunRef { tag, inner } = r;
    let mut m = inner;
    let ghost s0 = m@;
    assert(s0 == r.inner@);
    let ghost bound = M::rank(s0);
    let ghost buff0 = buff@;
    let ghost f = feed::<TRaw, M>(s0, buff@);
    let ghost seen0 = refs_view(seen@);
    let mut buff = buff;
    let mut out: VecDeque<(Option<TRaw>, CoreEv)> = VecDeque::new();
    let mut kids: Vec<M> = Vec::new();
    let mut requeue = true;
    let mut ctx: Ctx<TRaw, MachineOut> = Ctx::new();
    assert(f.out == out@ + feed::<TRaw, M>(m@, buff@).out);
    assert(f.kids == machines_view(kids@) + feed::<TRaw, M>(m@, buff@).kids);
    while buff.len() > 0
        invariant
            f.state == feed::<TRaw, M>(m@, buff@).state,
            f.out == out@ + feed::<TRaw, M>(m@, buff@).out,
            f.kids == machines_view(kids@) + feed::<TRaw, M>(m@, buff@).kids,
            f.died == (!requeue || feed::<TRaw, M>(m@, buff@).died),
            feed::<TRaw, M>(m@, buff@).ok,
            forall|i: int| 0 <= i < kids@.len() ==> #[trigger] M::rank(kids@[i]@) < bound,
            M::rank(m@) <= bound,
            ctx.buff@.len() == 0,
        decreases buff@.len(),
    {
        let ghost evs = buff@;
        let ghost s = m@;
        let ghost out_start = out@;
        let ghost kids_start = machines_view(kids@);
        let ghost requeue_start = requeue;
        let e1 = buff.pop_front().unwrap();
        assert(evs[0] == e1);
        assert(buff@ =~= evs.drop_first());
        let ghost ctx_start = ctx.buff_view();
        assert(ctx_start =~= Seq::<(Option<TRaw>, OutView)>::empty());
        m.run(&mut ctx, e1);
        let ghost s1 = m@;
        let ghost emitted = M::emitted(s, e1);
        let ghost sorted = sort_outs::<TRaw, M>(s1, emitted);
        assert(ctx.buff_view() =~= emitted);
        while ctx.buff.len() > 0
            invariant
                m@ == s1,
                M::rank(s1) <= bound,
                out@ + sort_outs::<TRaw, M>(s1, ctx.buff_view()).0 == out_start + sorted.0,
                machines_view(kids@) + sort_outs::<TRaw, M>(s1, ctx.buff_view()).1 == kids_start
                    + sorted.1,
                (!requeue || sort_outs::<TRaw, M>(s1, ctx.buff_view()).2) == (!requeue_start
                    || sorted.2),
                forall|i: int| 0 <= i < kids@.len() ==> #[trigger] M::rank(kids@[i]@) < bound,
            decreases ctx.buff@.len(),
        {
            let ghost before = ctx.buff_view();
            let ghost out_before = out@;
            let ghost kids_before = kids@;
            let (d, e2) = ctx.buff.pop_front().unwrap();
            assert(ctx.buff_view() =~= before.drop_first());
            assert(before[0] == (d, e2@));
            match e2 {
                MachineOut::Core(ev) => {
                    let ghost evv = ev;
                    out.push_back((d, ev));
                    assert(out@ =~= out_before.push((d, evv)));
                    assert(out@ + sort_outs::<TRaw, M>(s1, ctx.buff_view()).0 =~= out_before
                        + sort_outs::<TRaw, M>(s1, before).0);
                },
                MachineOut::Runner(RunnerEv::Spawn(name)) => {
                    let child = m.spawn(&name);
                    match child {
                        Some(c) => {
                            kids.push(c);
                            proof {
                                lemma_machines_view_push(kids_before, c);
                                assert(machines_view(kids@) + sort_outs::<TRaw, M>(
                                    s1,
                                    ctx.buff_view(),
                                ).1 =~= machines_view(kids_before) + sort_outs::<TRaw, M>(
                                    s1,
                                    before,
                                ).1);
                                assert forall|i: int| 0 <= i < kids@.len() implies #[trigger] M::rank(
                                    kids@[i]@,
                                ) < bound by {
                                    if i < kids_before.len() {
                                        assert(kids@[i] == kids_before[i]);
                                    }
                                }
                            }
                        },
                        None => {},
                    }
                },
                MachineOut::Runner(RunnerEv::Die) => {
                    requeue = false;
                },
            }
        }
        proof {
            assert(sort_outs::<TRaw, M>(s1, ctx.buff_view()) == (
                Seq::<(Option<TRaw>, CoreEv)>::empty(),
                Seq::<M::V>::empty(),
                false,
            ));
            assert(out@ =~= out_start + sorted.0);
            assert(machines_view(kids@) =~= kids_start + sorted.1);
            let rest = feed::<TRaw, M>(s1, buff@);
            assert(feed::<TRaw, M>(s, evs).out == sorted.0 + rest.out);
            assert(f.out =~= out@ + rest.out);
            assert(f.kids =~= machines_view(kids@) + rest.kids);
        }
    }
    proof {
        assert(f.out =~= out@);
        assert(f.kids =~= machines_view(kids@));
    }
    let ghost kept0 = if f.died {
        Seq::<(&'static str, M::V)>::empty()
    } else {
        seq![(tag, f.state)]
    };
    if requeue {
        let ghost seen_before = seen@;
        seen.push_back(RunRef { tag, inner: m });
        proof {
            lemma_refs_view_push(seen_before, RunRef { tag, inner: m });
            assert(refs_view(seen@) =~= seen0 + kept0);
        }
    } else {
        assert(refs_view(seen@) =~= seen0 + kept0);
    }
    let ghost whole = forest::<TRaw, M>(tag, f.kids, f.out, bound);
    assert(tree::<TRaw, M>(tag, s0, buff0) == Pass {
        kept: kept0 + whole.kept,
        out: whole.out,
        ok: f.ok && whole.ok,
    });
    let mut out = out;
    while kids.len() > 0
        invariant
            whole.out == forest::<TRaw, M>(tag, machines_view(kids@), out@, bound).out,
            seen0 + kept0 + whole.kept == refs_view(seen@) + forest::<TRaw, M>(
                tag,
                machines_view(kids@),
                out@,
                bound,
            ).kept,
            forest::<TRaw, M>(tag, machines_view(kids@), out@, bound).ok,
            forall|i: int| 0 <= i < kids@.len() ==> #[trigger] M::rank(kids@[i]@) < bound,
            bound == M::rank(r.inner@),
        decreases kids@.len(),
    {
        let ghost ks = kids@;
        let ghost seen_before = refs_view(seen@);
        let ghost out_before = out@;
        let k = kids.pop().unwrap();
        proof {
            assert(machines_view(kids@) =~= machines_view(ks).drop_last());
            assert(machines_view(ks).last() == k@);
            assert(M::rank(ks[ks.len() - 1]@) < bound);
            assert(ks[ks.len() - 1] == k);
            assert(M::rank(k@) < M::rank(r.inner@));
        }
        let ghost t = tree::<TRaw, M>(tag, k@, out_before);
        out = run_tree(RunRef { tag, inner: k }, out, seen);
        proof {
            assert(refs_view(seen@) == seen_before + t.kept);
            assert forall|i: int| 0 <= i < kids@.len() implies #[trigger] M::rank(kids@[i]@) < bound by {
                assert(kids@[i] == ks[i]);
            }
            let r = forest::<TRaw, M>(tag, machines_view(kids@), out@, bound);
            assert(forest::<TRaw, M>(tag, machines_view(ks), out_before, bound).kept == t.kept + r.kept);
            assert(seen0 + kept0 + whole.kept =~= refs_view(seen@) + r.kept);
        }
    }
    proof {
        assert(machines_view(kids@) =~= Seq::<M::V>::empty());
        assert(refs_view(seen@) =~= seen0 + tree::<TRaw, M>(tag, s0, buff0).kept);
    }
    out
}

impl<TRaw, M: Runnable<TRaw, CoreEv, MachineOut>> Runner<TRaw, M> {
    /// The machines, in the order they run.
    pub fn machines(&self) -> (ms: &VecDeque<RunRef<M>>)
        ensures
            refs_view(ms@) == self@,
    {
        &self.pending
    }

    pub fn new(active: Vec<RunRef<M>>) -> (r: Runner<TRaw, M>)
        ensures
            r@ == refs_view(active@),
    {
        let mut active = active;
        let mut pending: VecDeque<RunRef<M>> = VecDeque::new();
        let ghost all = active@;
        while active.len() > 0
            invariant
                pending@ + active@ == all,
            decreases active.len(),
        {
            let ghost before = active@;
            let item = active.remove(0);
            pending.push_back(item);
            assert(pending@ + active@ =~= all) by {
                assert(before =~= seq![item] + active@);
            }
        }
        assert(pending@ =~= all);
        Runner { pending, raw: PhantomData }
    }
}

impl<TRaw, M: Runnable<TRaw, CoreEv, MachineOut>> Runnable<TRaw, CoreEv, RunnerOut> for Runner<
    TRaw,
    M,
> {
    open spec fn next(s: Seq<(&'static str, M::V)>, ev: (Option<TRaw>, CoreEv)) -> Seq<(&'static str, M::V)> {
        if s.len() == 0 {
            s
        } else {
            pass::<TRaw, M>(s, seq![ev]).kept
        }
    }

    open spec fn emitted(s: Seq<(&'static str, M::V)>, ev: (Option<TRaw>, CoreEv)) -> Seq<(Option<TRaw>, OutView)> {
        if s.len() == 0 {
            Seq::empty()
        } else {
            runner_items(pass::<TRaw, M>(s, seq![ev]).out)
        }
    }

    open spec fn accepts(s: Seq<(&'static str, M::V)>, ev: (Option<TRaw>, CoreEv)) -> bool {
        s.len() == 0 || pass::<TRaw, M>(s, seq![ev]).ok
    }

    fn run(&mut self, x: &mut Ctx<TRaw, RunnerOut>, inp: (Option<TRaw>, CoreEv)) {
        if self.pending.len() == 0 {
            assert(x.buff_view() =~= old(x).buff_view() + Seq::empty());
            return ;
        }
        let ghost s0 = self@;
        let ghost p = pass::<TRaw, M>(s0, seq![inp]);
        let mut buff: VecDeque<(Option<TRaw>, CoreEv)> = VecDeque::new();
        buff.push_back(inp);
        let mut seen: VecDeque<RunRef<M>> = VecDeque::new();
        assert(buff@ =~= seq![inp]);
        assert(refs_view(seen@) =~= Seq::<(&'static str, M::V)>::empty());
        while self.pending.len() > 0
            invariant
                p.out == pass::<TRaw, M>(self@, buff@).out,
                p.kept == refs_view(seen@) + pass::<TRaw, M>(self@, buff@).kept,
                pass::<TRaw, M>(self@, buff@).ok,
            decreases self.pending@.len(),
        {
            let ghost ms = self@;
            let ghost seen_before = refs_view(seen@);
            let ghost buff_before = buff@;
            let r = self.pending.pop_front().unwrap();
            assert(self@ =~= ms.drop_first());
            assert(ms[0] == (r.tag, r.inner@));
            let ghost t = tree::<TRaw, M>(r.tag, r.inner@, buff_before);
            buff = run_tree(r, buff, &mut seen);
            assert(p.kept =~= refs_view(seen@) + pass::<TRaw, M>(self@, buff@).kept);
        }
        self.pending = seen;
        assert(p.kept =~= self@);
        let ghost outs = p.out;
        let ghost x0 = x.buff_view();
        while buff.len() > 0
            invariant
                x.buff_view() + runner_items(buff@) == x0 + runner_items(outs),
                x.maps == old(x).maps,
            decreases buff@.len(),
        {
            let ghost before = buff@;
            let ghost xb = x.buff_view();
            let (d, ev) = buff.pop_front().unwrap();
            assert(before[0] == (d, ev));
            assert(buff@ =~= before.drop_first());
            let ghost evv = ev;
            x.emit((d, RunnerOut::Core(ev)));
            assert(x.buff_view() =~= xb.push((d, OutView::Core(evv))));
            assert(runner_items(before) =~= seq![(d, OutView::Core(evv))] + runner_items(buff@));
            assert(x.buff_view() + runner_items(buff@) =~= xb + runner_items(before));
        }
        assert(runner_items(buff@) =~= Seq::<(Option<TRaw>, OutView)>::empty());
        assert(x.buff_view() =~= x0 + runner_items(outs));
    }

    fn spawn(&self, name: &String) -> (child: Option<Self>) {
        None
    }
}

} // verus!

verus! {

/// A runner without machines lets nothing through and stays empty.
pub proof fn lemma_empty_runner_is_opaque<TRaw, M: Runnable<TRaw, CoreEv, MachineOut>>(ev: (Option<TRaw>, CoreEv))
    ensures
        <Runner<TRaw, M> as Runnable<TRaw, CoreEv, RunnerOut>>::emitted(Seq::empty(), ev) == Seq::<
            (Option<TRaw>, OutView),
        >::empty(),
        <Runner<TRaw, M> as Runnable<TRaw, CoreEv, RunnerOut>>::next(Seq::empty(), ev) == Seq::<
            (&'static str, M::V),
        >::empty(),
{
}

/// Machines run in sequence: passing events through the machines `a` and
/// then `b` is passing them through `a`, then what comes out through `b`.
pub proof fn lemma_pass_in_sequence<TRaw, M: Runnable<TRaw, CoreEv, MachineOut>>(
    a: Seq<(&'static str, M::V)>,
    b: Seq<(&'static str, M::V)>,
    evs: Seq<(Option<TRaw>, CoreEv)>,
)
    ensures
        pass::<TRaw, M>(a + b, evs).out == pass::<TRaw, M>(b, pass::<TRaw, M>(a, evs).out).out,
        pass::<TRaw, M>(a + b, evs).kept == pass::<TRaw, M>(a, evs).kept + pass::<TRaw, M>(
            b,
            pass::<TRaw, M>(a, evs).out,
        ).kept,
        pass::<TRaw, M>(a + b, evs).ok == (pass::<TRaw, M>(a, evs).ok && pass::<TRaw, M>(
            b,
            pass::<TRaw, M>(a, evs).out,
        ).ok),
    decreases a.len(),
{
    if a.len() == 0 {
        assert(a + b =~= b);
        assert(pass::<TRaw, M>(a, evs).kept + pass::<TRaw, M>(b, evs).kept =~= pass::<TRaw, M>(b, evs).kept);
    } else {
        let t = tree::<TRaw, M>(a[0].0, a[0].1, evs);
        assert((a + b)[0] == a[0]);
        assert((a + b).drop_first() =~= a.drop_first() + b);
        lemma_pass_in_sequence::<TRaw, M>(a.drop_first(), b, t.out);
        assert(pass::<TRaw, M>(a + b, evs).kept =~= pass::<TRaw, M>(a, evs).kept + pass::<TRaw, M>(
            b,
            pass::<TRaw, M>(a, evs).out,
        ).kept);
    }
}

/// A machine that asks to die is not kept: of its tree, only the machines
/// it spawned can stay.
pub proof fn lemma_dead_machine_dropped<TRaw, M: Runnable<TRaw, CoreEv, MachineOut>>(
    tag: &'static str,
    s: M::V,
    evs: Seq<(Option<TRaw>, CoreEv)>,
)
    requires
        feed::<TRaw, M>(s, evs).died,
    ensures
        tree::<TRaw, M>(tag, s, evs).kept == forest::<TRaw, M>(
            tag,
            feed::<TRaw, M>(s, evs).kids,
            feed::<TRaw, M>(s, evs).out,
            M::rank(s),
        ).kept,
{
    let f = feed::<TRaw, M>(s, evs);
    let r = forest::<TRaw, M>(tag, f.kids, f.out, M::rank(s));
    assert(Seq::<(&'static str, M::V)>::empty() + r.kept =~= r.kept);
}

/// A machine that neither spawns nor dies, running alone, passes on exactly
/// the events it emits and stays, in its new state, under its tag.
pub proof fn lemma_lone_machine<TRaw, M: Runnable<TRaw, CoreEv, MachineOut>>(
    tag: &'static str,
    s: M::V,
    evs: Seq<(Option<TRaw>, CoreEv)>,
)
    requires
        feed::<TRaw, M>(s, evs).kids.len() == 0,
        !feed::<TRaw, M>(s, evs).died,
    ensures
        pass::<TRaw, M>(seq![(tag, s)], evs).out == feed::<TRaw, M>(s, evs).out,
        pass::<TRaw, M>(seq![(tag, s)], evs).kept == seq![(tag, feed::<TRaw, M>(s, evs).state)],
{
    let f = feed::<TRaw, M>(s, evs);
    let r = forest::<TRaw, M>(tag, f.kids, f.out, M::rank(s));
    assert(r.kept == Seq::<(&'static str, M::V)>::empty() && r.out == f.out);
    let t = tree::<TRaw, M>(tag, s, evs);
    assert(t.kept =~= seq![(tag, f.state)]);
    assert(t.out == f.out);
    assert(seq![(tag, s)][0] == (tag, s));
    assert(seq![(tag, s)].drop_first() =~= Seq::<(&'static str, M::V)>::empty());
    let rest = pass::<TRaw, M>(seq![(tag, s)].drop_first(), t.out);
    assert(rest.kept == Seq::<(&'static str, M::V)>::empty() && rest.out == t.out);
    assert(t.kept + rest.kept =~= seq![(tag, f.state)]);
}

/// A machine that spawned one machine hands what it passed on to it: the
/// child runs on its parent's output before anything else does, and is kept
/// under its parent's tag.
pub proof fn lemma_spawned_runs_on_parent_output<TRaw, M: Runnable<TRaw, CoreEv, MachineOut>>(
    tag: &'static str,
    s: M::V,
    evs: Seq<(Option<TRaw>, CoreEv)>,
    kid: M::V,
)
    requires
        feed::<TRaw, M>(s, evs).kids == seq![kid],
        M::rank(kid) < M::rank(s),
    ensures
        tree::<TRaw, M>(tag, s, evs).out == tree::<TRaw, M>(tag, kid, feed::<TRaw, M>(s, evs).out).out,
        forest::<TRaw, M>(tag, seq![kid], feed::<TRaw, M>(s, evs).out, M::rank(s)).kept == tree::<TRaw, M>(
            tag,
            kid,
            feed::<TRaw, M>(s, evs).out,
        ).kept,
{
    let f = feed::<TRaw, M>(s, evs);
    assert(f.kids.last() == kid);
    assert(f.kids.drop_last() =~= Seq::<M::V>::empty());
    let t = tree::<TRaw, M>(tag, kid, f.out);
    let r = forest::<TRaw, M>(tag, f.kids.drop_last(), t.out, M::rank(s));
    assert(r.out == t.out && r.kept == Seq::<(&'static str, M::V)>::empty());
    assert(t.kept + r.kept =~= t.kept);
    assert(forest::<TRaw, M>(tag, f.kids, f.out, M::rank(s)).out == t.out);
}

} // verus!

verus! {

/// The key or mode event an emitted item carries, with its raw origin.
pub open spec fn core_item<TRaw>(o: (Option<TRaw>, OutView)) -> Option<(Option<TRaw>, CoreEv)> {
    match o.1 {
        OutView::Core(ev) => Some((o.0, ev)),
        _ => None,
    }
}

/// The key and mode events among `outs`, in order, each with its raw origin.
pub open spec fn core_events<TRaw>(outs: Seq<(Option<TRaw>, OutView)>) -> Seq<(Option<TRaw>, CoreEv)> {
    outs.filter_map(|o: (Option<TRaw>, OutView)| core_item(o))
}

proof fn lemma_core_events_prepend<TRaw>(x: (Option<TRaw>, OutView), s: Seq<(Option<TRaw>, OutView)>)
    ensures
        core_events(seq![x] + s) == match core_item(x) {
            Some(e) => seq![e] + core_events(s),
            None => core_events(s),
        },
    decreases s.len(),
{
    let t = seq![x] + s;
    if s.len() == 0 {
        assert(t =~= seq![x]);
        assert(t.drop_last() =~= Seq::<(Option<TRaw>, OutView)>::empty());
        assert(core_events(t.drop_last()) =~= Seq::<(Option<TRaw>, CoreEv)>::empty());
        assert(core_events(s) =~= Seq::<(Option<TRaw>, CoreEv)>::empty());
        assert(core_events(t) =~= match core_item(x) {
            Some(e) => seq![e] + core_events(s),
            None => core_events(s),
        });
    } else {
        assert(t.drop_last() =~= seq![x] + s.drop_last());
        assert(t.last() == s.last());
        lemma_core_events_prepend(x, s.drop_last());
        assert(core_events(t) == match core_item(t.last()) {
            Some(e) => core_events(t.drop_last()) + seq![e],
            None => core_events(t.drop_last()),
        });
        assert(core_events(s) == match core_item(s.last()) {
            Some(e) => core_events(s.drop_last()) + seq![e],
            None => core_events(s.drop_last()),
        });
        assert(core_events(t) =~= match core_item(x) {
            Some(e) => seq![e] + core_events(s),
            None => core_events(s),
        });
    }
}

/// A machine's key and mode events all pass on: what the runner hands on
/// from what a machine emitted is exactly its key and mode events, in order,
/// each with its raw origin; requests to the runner and the machine are all
/// that is taken out.
pub proof fn lemma_sort_outs_passes_core<TRaw, M: Runnable<TRaw, CoreEv, MachineOut>>(
    s: M::V,
    outs: Seq<(Option<TRaw>, OutView)>,
)
    ensures
        sort_outs::<TRaw, M>(s, outs).0 == core_events(outs),
    decreases outs.len(),
{
    if outs.len() > 0 {
        lemma_sort_outs_passes_core::<TRaw, M>(s, outs.drop_first());
        assert(outs =~= seq![outs[0]] + outs.drop_first());
        lemma_core_events_prepend(outs[0], outs.drop_first());
    } else {
        assert(core_events(outs) =~= Seq::<(Option<TRaw>, CoreEv)>::empty());
    }
}

proof fn lemma_sort_outs_without_requests<TRaw, M: Runnable<TRaw, CoreEv, MachineOut>>(
    s: M::V,
    outs: Seq<(Option<TRaw>, OutView)>,
)
    requires
        forall|i: int| 0 <= i < outs.len() ==> !(#[trigger] outs[i].1 is Runner),
    ensures
        sort_outs::<TRaw, M>(s, outs).1.len() == 0,
        !sort_outs::<TRaw, M>(s, outs).2,
    decreases outs.len(),
{
    if outs.len() > 0 {
        assert(!(outs[0].1 is Runner));
        assert forall|i: int| 0 <= i < outs.drop_first().len() implies !(#[trigger] outs.drop_first()[i].1 is Runner) by {
            assert(outs.drop_first()[i] == outs[i + 1]);
        }
        lemma_sort_outs_without_requests::<TRaw, M>(s, outs.drop_first());
    }
}

/// A machine running alone on an event, asking the runner for nothing,
/// hands the runner's output exactly the key and mode events it emitted, in
/// order, each with its raw origin.
pub proof fn lemma_lone_machine_passes_core<TRaw, M: Runnable<TRaw, CoreEv, MachineOut>>(
    tag: &'static str,
    s: M::V,
    ev: (Option<TRaw>, CoreEv),
)
    requires
        forall|i: int| 0 <= i < M::emitted(s, ev).len() ==> !(#[trigger] M::emitted(s, ev)[i].1 is Runner),
    ensures
        <Runner<TRaw, M> as Runnable<TRaw, CoreEv, RunnerOut>>::emitted(seq![(tag, s)], ev) == runner_items(
            core_events(M::emitted(s, ev)),
        ),
{
    let evs = seq![ev];
    let s1 = M::next(s, ev);
    lemma_sort_outs_passes_core::<TRaw, M>(s1, M::emitted(s, ev));
    lemma_sort_outs_without_requests::<TRaw, M>(s1, M::emitted(s, ev));
    assert(evs[0] == ev);
    assert(evs.drop_first() =~= Seq::<(Option<TRaw>, CoreEv)>::empty());
    let f = feed::<TRaw, M>(s, evs);
    let o = sort_outs::<TRaw, M>(s1, M::emitted(s, ev)).0;
    let r = feed::<TRaw, M>(s1, evs.drop_first());
    assert(r.out == Seq::<(Option<TRaw>, CoreEv)>::empty() && r.kids == Seq::<M::V>::empty() && !r.died);
    assert(f.out == o + r.out);
    assert(f.out =~= o);
    assert(f.kids =~= Seq::<M::V>::empty());
    lemma_lone_machine::<TRaw, M>(tag, s, evs);
}

} // verus!
