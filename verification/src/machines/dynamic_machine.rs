//! A machine that passes every event on unchanged.

use vstd::prelude::*;

use crate::common::{CoreEv, Out, OutView};
use super::{Ctx, Runnable};

verus! {

pub struct DynamicMachine {}

impl View for DynamicMachine {
    type V = ();

    open spec fn view(&self) -> () {
        ()
    }
}

impl<TRaw> Runnable<TRaw, CoreEv, Out> for DynamicMachine {
    open spec fn emitted(s: (), ev: (Option<TRaw>, CoreEv)) -> Seq<(Option<TRaw>, OutView)> {
        seq![(ev.0, OutView::Core(ev.1))]
    }

    fn run(&mut self, x: &mut Ctx<TRaw, Out>, ev: (Option<TRaw>, CoreEv)) {
        let (raw, e) = ev;
        let ghost e_v = e;
        x.emit((raw, Out::Core(e)));
        assert(x.buff_view() =~= old(x).buff_view().push((raw, OutView::Core(e_v))));
    }

    fn spawn(&self, name: &String) -> (child: Option<Self>) {
        None
    }
}

} // verus!
