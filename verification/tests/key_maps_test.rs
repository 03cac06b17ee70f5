use keymachines::common::{CoreEv, Movement};
use keymachines::machines::key_maps::{KeyBitmap, KeyMaps};

#[test]
fn bitmap_set_reports_previous_bit() {
    let mut b = KeyBitmap::new();
    assert!(!b.get(5));
    assert_eq!(b.set(5, true), false);
    assert!(b.get(5));
    assert_eq!(b.set(5, true), true);
    assert_eq!(b.set(5, false), true);
    assert!(!b.get(5));
    assert!(!b.get(4));
}

#[test]
fn bitmap_holds_highest_code() {
    let mut b = KeyBitmap::new();
    assert_eq!(b.set(1023, true), false);
    assert!(b.get(1023));
    assert!(!b.get(1022));
    assert!(!b.get(0));
}

#[test]
fn track_in_records_presses_and_releases() {
    let mut maps = KeyMaps::new();
    maps.track_in(&CoreEv::Key(30, Movement::Down));
    maps.track_in(&CoreEv::Key(31, Movement::Down));
    assert!(maps.pre.get(30));
    assert!(maps.pre.get(31));
    assert!(!maps.post.get(30));
    maps.track_in(&CoreEv::Key(30, Movement::Up));
    assert!(!maps.pre.get(30));
    assert!(maps.pre.get(31));
    maps.track_in(&CoreEv::Tick);
    assert!(maps.pre.get(31));
}

#[test]
fn track_out_records_only_output() {
    let mut maps = KeyMaps::new();
    maps.track_out(&CoreEv::Key(7, Movement::Down));
    assert!(maps.post.get(7));
    assert!(!maps.pre.get(7));
    assert!(!maps.mask.get(7));
    // recording twice is recording once
    maps.track_out(&CoreEv::Key(7, Movement::Down));
    maps.track_out(&CoreEv::Key(7, Movement::Up));
    assert!(!maps.post.get(7));
}
