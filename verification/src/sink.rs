//! Somewhere to put events.

use vstd::prelude::*;
use std::collections::VecDeque;

verus! {

/// A place that events can be emitted into; `sunk` is what it holds, in
/// order.
pub trait Sink<TEv>: Sized {
    spec fn sunk(&self) -> Seq<TEv>;

    fn emit(&mut self, ev: TEv)
        ensures
            final(self).sunk() == old(self).sunk().push(ev),
    ;

    fn emit_many(&mut self, evs: Vec<TEv>)
        ensures
            final(self).sunk() == old(self).sunk() + evs@,
    ;
}

impl<TEv> Sink<TEv> for VecDeque<TEv> {
    open spec fn sunk(&self) -> Seq<TEv> {
        self@
    }

    fn emit(&mut self, ev: TEv) {
        self.push_back(ev);
    }

    fn emit_many(&mut self, evs: Vec<TEv>) {
        let mut evs = evs;
        let ghost all = evs@;
        while evs.len() > 0
            invariant
                self@ + evs@ == old(self)@ + all,
            decreases evs.len(),
        {
            let ghost before = evs@;
            let item = evs.remove(0);
            self.emit(item);
            assert(self@ + evs@ =~= old(self)@ + all) by {
                assert(before =~= seq![item] + evs@);
            }
        }
        assert(self@ =~= old(self)@ + all);
    }
}

} // verus!
