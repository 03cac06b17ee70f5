//! Which keys are down on the way in, which are down on the way out, and
//! which are masked.

use vstd::prelude::*;
use bitmaps::Bitmap;
use typenum::U1024;

use crate::common::{CoreEv, Movement};

verus! {

/// The number of key codes that a key map can track.
pub const KEY_CAPACITY: usize = 1024;

/// A set of key codes below `KEY_CAPACITY`, held in a `bitmaps::Bitmap`.
#[verifier::external_body]
pub struct KeyBitmap {
    bits: Bitmap<U1024>,
}

/// The codes whose bits are set in a bitmap.
pub uninterp spec fn key_bitmap_contents(b: KeyBitmap) -> Set<int>;

impl View for KeyBitmap {
    type V = Set<int>;

    open spec fn view(&self) -> Set<int> {
        key_bitmap_contents(*self)
    }
}

/// `Bitmap::new`: a bitmap with every bit false.
#[verifier::external_body]
fn bitmap_new() -> (b: KeyBitmap)
    ensures
        key_bitmap_contents(b) == Set::<int>::empty(),
{
    KeyBitmap { bits: Bitmap::new() }
}

/// `Bitmap::get`: the bit at `index`; the index must lie below the size,
/// past which the backing array is indexed out of bounds.
#[verifier::external_body]
fn bitmap_get(b: &KeyBitmap, index: usize) -> (r: bool)
    requires
        index < KEY_CAPACITY,
    ensures
        r == key_bitmap_contents(*b).contains(index as int),
{
    b.bits.get(index)
}

/// `Bitmap::set`: sets the bit at `index` to `value` and returns its
/// previous value.
#[verifier::external_body]
fn bitmap_set(b: &mut KeyBitmap, index: usize, value: bool) -> (prev: bool)
    requires
        index < KEY_CAPACITY,
    ensures
        prev == key_bitmap_contents(*old(b)).contains(index as int),
        key_bitmap_contents(*final(b)) == (if value {
            key_bitmap_contents(*old(b)).insert(index as int)
        } else {
            key_bitmap_contents(*old(b)).remove(index as int)
        }),
{
    b.bits.set(index, value)
}

impl KeyBitmap {
    /// An empty set of codes.
    pub fn new() -> (b: KeyBitmap)
        ensures
            b@ == Set::<int>::empty(),
    {
        bitmap_new()
    }

    /// Whether `code` is in the set.
    pub fn get(&self, code: usize) -> (r: bool)
        requires
            code < KEY_CAPACITY,
        ensures
            r == self@.contains(code as int),
    {
        bitmap_get(self, code)
    }

    /// Puts `code` in the set or takes it out; returns whether it was in.
    pub fn set(&mut self, code: usize, value: bool) -> (prev: bool)
        requires
            code < KEY_CAPACITY,
        ensures
            prev == old(self)@.contains(code as int),
            final(self)@ == (if value {
                old(self)@.insert(code as int)
            } else {
                old(self)@.remove(code as int)
            }),
    {
        bitmap_set(self, code, value)
    }
}

/// A key event with a code that a key map can track; other events always are.
pub open spec fn trackable(ev: CoreEv) -> bool {
    match ev {
        CoreEv::Key(code, _) => code < KEY_CAPACITY,
        _ => true,
    }
}

/// The keys that are down after `ev`, given those down before it.
pub open spec fn track(down: Set<int>, ev: CoreEv) -> Set<int> {
    match ev {
        CoreEv::Key(code, Movement::Down) => down.insert(code as int),
        CoreEv::Key(code, Movement::Up) => down.remove(code as int),
        _ => down,
    }
}

/// The three key sets of a `KeyMaps`.
pub struct KeyMapsView {
    pub pre: Set<int>,
    pub post: Set<int>,
    pub mask: Set<int>,
}

pub struct KeyMaps {
    pub pre: KeyBitmap,
    pub post: KeyBitmap,
    pub mask: KeyBitmap,
}

impl View for KeyMaps {
    type V = KeyMapsView;

    open spec fn view(&self) -> KeyMapsView {
        KeyMapsView { pre: self.pre@, post: self.post@, mask: self.mask@ }
    }
}

impl KeyMaps {
    pub fn new() -> (maps: KeyMaps)
        ensures
            maps@ == (KeyMapsView {
                pre: Set::empty(),
                post: Set::empty(),
                mask: Set::empty(),
            }),
    {
        KeyMaps { pre: KeyBitmap::new(), post: KeyBitmap::new(), mask: KeyBitmap::new() }
    }

    /// Records an event on the way in.
    pub fn track_in(&mut self, ev: &CoreEv)
        requires
            trackable(*ev),
        ensures
            final(self)@ == (KeyMapsView { pre: track(old(self)@.pre, *ev), ..old(self)@ }),
    {
        Self::gather_map(ev, &mut self.pre);
    }

    /// Records an event on the way out.
    pub fn track_out(&mut self, ev: &CoreEv)
        requires
            trackable(*ev),
        ensures
            final(self)@ == (KeyMapsView { post: track(old(self)@.post, *ev), ..old(self)@ }),
    {
        Self::gather_map(ev, &mut self.post);
    }

    fn gather_map(event: &CoreEv, map: &mut KeyBitmap)
        requires
            trackable(*event),
        ensures
            final(map)@ == track(old(map)@, *event),
    {
        if let CoreEv::Key(code, movement) = event {
            match movement {
                Movement::Up => map.set(*code as usize, false),
                Movement::Down => map.set(*code as usize, true),
            };
        }
    }
}

} // verus!

verus! {

/// Recording an event twice records it once.
pub proof fn lemma_track_idempotent(down: Set<int>, ev: CoreEv)
    ensures
        track(track(down, ev), ev) == track(down, ev),
{
    match ev {
        CoreEv::Key(code, Movement::Down) => {
            assert(down.insert(code as int).insert(code as int) =~= down.insert(code as int));
        },
        CoreEv::Key(code, Movement::Up) => {
            assert(down.remove(code as int).remove(code as int) =~= down.remove(code as int));
        },
        _ => {},
    }
}

/// Pressing and then releasing a key that was up leaves the keys as they were.
pub proof fn lemma_press_release_restores(down: Set<int>, code: u16)
    requires
        !down.contains(code as int),
    ensures
        track(track(down, CoreEv::Key(code, Movement::Down)), CoreEv::Key(code, Movement::Up)) == down,
{
    assert(down.insert(code as int).remove(code as int) =~= down);
}

/// Only the key of the event can change.
pub proof fn lemma_track_touches_one_key(down: Set<int>, ev: CoreEv, other: int)
    requires
        !(ev matches CoreEv::Key(code, _) && code as int == other),
    ensures
        track(down, ev).contains(other) == down.contains(other),
{
}

} // verus!

verus! {

/// The keys down after the events of `evs`, in order, given those down
/// before them.
pub open spec fn track_inputs<TRaw>(down: Set<int>, evs: Seq<(Option<TRaw>, CoreEv)>) -> Set<int>
    decreases evs.len(),
{
    if evs.len() == 0 {
        down
    } else {
        track_inputs(track(down, evs[0].1), evs.drop_first())
    }
}

} // verus!

verus! {

/// The movement of the last key event for `code` among `evs`, if any.
pub open spec fn last_input_key<TRaw>(evs: Seq<(Option<TRaw>, CoreEv)>, code: int) -> Option<Movement>
    decreases evs.len(),
{
    if evs.len() == 0 {
        None
    } else {
        match last_input_key(evs.drop_first(), code) {
            Some(m) => Some(m),
            None => match evs[0].1 {
                CoreEv::Key(c, m) => if c as int == code {
                    Some(m)
                } else {
                    None
                },
                _ => None,
            },
        }
    }
}

/// After a run of events, a key is down exactly when its last event was a
/// press, or, if it had none, when it was down before.
pub proof fn lemma_track_inputs_last<TRaw>(down: Set<int>, evs: Seq<(Option<TRaw>, CoreEv)>, code: int)
    ensures
        track_inputs(down, evs).contains(code) == match last_input_key(evs, code) {
            Some(m) => m == Movement::Down,
            None => down.contains(code),
        },
    decreases evs.len(),
{
    if evs.len() > 0 {
        lemma_track_inputs_last(track(down, evs[0].1), evs.drop_first(), code);
    }
}

} // verus!
