//! A machine that passes every event on and, for key events, shows which
//! keys are down on the way in, the one just pressed or released picked out.

use vstd::prelude::*;

use crate::common::{CoreEv, Out, OutView};
use super::key_maps::{KEY_CAPACITY, KeyMaps};
use super::{Ctx, Runnable};

verus! {

pub struct PrintKeys {
    tabs: u8,
    colour: u8,
}

impl View for PrintKeys {
    type V = (u8, u8);

    closed spec fn view(&self) -> (u8, u8) {
        (self.tabs, self.colour)
    }
}

/// The code of a key event, 0 for any other event.
pub open spec fn new_code(ev: CoreEv) -> u16 {
    match ev {
        CoreEv::Key(code, _) => code,
        _ => 0,
    }
}

/// `line` lists the codes in `down`, each once and in increasing order, each
/// marked when it is `highlight`.
pub open spec fn lists_keys(line: Seq<(u16, bool)>, down: Set<int>, highlight: u16) -> bool {
    &&& forall|i: int, j: int| 0 <= i < j < line.len() ==> line[i].0 < line[j].0
    &&& forall|i: int| 0 <= i < line.len() ==> down.contains(#[trigger] line[i].0 as int)
    &&& forall|c: int|
        0 <= c < KEY_CAPACITY && #[trigger] down.contains(c) ==> exists|i: int|
            0 <= i < line.len() && line[i].0 == c
    &&& forall|i: int| 0 <= i < line.len() ==> (#[trigger] line[i].1 <==> line[i].0 == highlight)
}

impl PrintKeys {
    pub fn new(tabs: u8, colour: u8) -> (p: PrintKeys)
        ensures
            p@ == (tabs, colour),
    {
        PrintKeys { tabs, colour }
    }

    /// How many tabs the line is indented by.
    pub fn tabs(&self) -> (t: u8)
        ensures
            t == self@.0,
    {
        self.tabs
    }

    /// The terminal colour that picks out the key of the event.
    pub fn colour(&self) -> (c: u8)
        ensures
            c == self@.1,
    {
        self.colour
    }

    /// The line to show for `ev`: the keys down on the way in, the key of
    /// `ev` marked.
    pub fn line(&self, maps: &KeyMaps, ev: &CoreEv) -> (line: Vec<(u16, bool)>)
        ensures
            lists_keys(line@, maps@.pre, new_code(*ev)),
    {
        let highlight: u16 = match ev {
            CoreEv::Key(c, _) => *c,
            _ => 0,
        };
        let mut line: Vec<(u16, bool)> = Vec::new();
        let mut c: u16 = 0;
        while c < 1024
            invariant
                c <= 1024,
                forall|i: int, j: int| 0 <= i < j < line@.len() ==> line@[i].0 < line@[j].0,
                forall|i: int| 0 <= i < line@.len() ==> line@[i].0 < c,
                forall|i: int| 0 <= i < line@.len() ==> maps@.pre.contains(#[trigger] line@[i].0 as int),
                forall|k: int|
                    0 <= k < c && #[trigger] maps@.pre.contains(k) ==> exists|i: int|
                        0 <= i < line@.len() && line@[i].0 == k,
                forall|i: int| 0 <= i < line@.len() ==> (#[trigger] line@[i].1 <==> line@[i].0 == highlight),
            decreases 1024 - c,
        {
            if maps.pre.get(c as usize) {
                let ghost before = line@;
                line.push((c, c == highlight));
                proof {
                    assert forall|k: int|
                        0 <= k < c + 1 && #[trigger] maps@.pre.contains(k) implies exists|i: int|
                        0 <= i < line@.len() && line@[i].0 == k by {
                        if k < c {
                            let i = choose|i: int| 0 <= i < before.len() && before[i].0 == k;
                            assert(line@[i] == before[i]);
                        } else {
                            assert(line@[before.len() as int].0 == k);
                        }
                    }
                }
            }
            c = c + 1;
        }
        line
    }
}

impl<TRaw> Runnable<TRaw, CoreEv, Out> for PrintKeys {
    open spec fn emitted(s: (u8, u8), ev: (Option<TRaw>, CoreEv)) -> Seq<(Option<TRaw>, OutView)> {
        seq![(ev.0, OutView::Core(ev.1))]
    }

    fn run(&mut self, x: &mut Ctx<TRaw, Out>, ev: (Option<TRaw>, CoreEv)) {
        let (raw, e) = ev;
        let ghost e_v = e;
        x.emit((raw, Out::Core(e)));
        assert(x.buff_view() =~= old(x).buff_view().push((raw, OutView::Core(e_v))));
    }

    fn spawn(&self, name: &String) -> (child: Option<Self>) {
        None
    }
}

} // verus!
