use quire::app::state::{NavHistory, NAV_MAX};

/// Pages 1..=9 are alive; anything else was deleted.
fn live(id: i32) -> bool {
    (1..=9).contains(&id)
}

#[test]
fn back_retraces_and_forward_rewinds() {
    let mut nav = NavHistory::default();
    nav.record(1, 2);
    nav.record(2, 3);
    assert_eq!(nav.step(false, 3, live), Some(2));
    assert_eq!(nav.step(false, 2, live), Some(1));
    // nothing left behind the first page
    assert_eq!(nav.step(false, 1, live), None);
    assert_eq!(nav.step(true, 1, live), Some(2));
}

#[test]
fn a_new_navigation_drops_the_forward_branch() {
    let mut nav = NavHistory::default();
    nav.record(1, 2);
    assert_eq!(nav.step(false, 2, live), Some(1));
    nav.record(1, 9);
    assert_eq!(nav.step(true, 9, live), None);
}

#[test]
fn deleted_pages_are_skipped_not_opened() {
    let mut nav = NavHistory::default();
    nav.record(1, 2);
    // 99 sat in the history and has since been deleted
    nav.record(99, 3);
    assert_eq!(nav.step(false, 3, live), Some(1));
    // the page that was left stays reachable in the direction it came from
    assert_eq!(nav.step(true, 1, live), Some(3));
}

#[test]
fn the_first_open_records_nothing_and_the_stack_stays_bounded() {
    let mut nav = NavHistory::default();
    nav.record(0, 1);
    assert_eq!(nav.step(false, 1, live), None);

    for i in 0..(NAV_MAX + 20) {
        nav.record((i % 9 + 1) as i32, (i % 9 + 2) as i32);
    }
    assert_eq!(nav.back.len(), NAV_MAX);
    for _ in 0..NAV_MAX {
        assert!(nav.step(false, 0, live).is_some());
    }
    assert_eq!(nav.step(false, 0, live), None);
}

#[test]
fn a_move_to_the_same_page_records_nothing() {
    let mut nav = NavHistory::new();
    nav.record(4, 4);
    assert!(nav.back.is_empty());
    assert!(nav.forward.is_empty());
}

#[test]
fn stepping_back_pushes_the_page_left_onto_the_forward_stack() {
    let mut nav = NavHistory::new();
    nav.record(1, 2);
    assert_eq!(nav.step(false, 2, live), Some(1));
    assert_eq!(nav.forward, vec![2]);
    assert!(nav.back.is_empty());
    // a deleted current page is not pushed
    let mut nav = NavHistory::new();
    nav.record(1, 2);
    assert_eq!(nav.step(false, 50, live), Some(1));
    assert!(nav.forward.is_empty());
}

#[test]
fn the_oldest_entry_falls_off_past_the_cap() {
    let mut nav = NavHistory::new();
    for i in 0..(NAV_MAX as i32 + 1) {
        nav.record(i + 1, i + 2);
    }
    assert_eq!(nav.back.len(), NAV_MAX);
    assert_eq!(nav.back[0], 2);
    assert_eq!(*nav.back.last().unwrap(), NAV_MAX as i32 + 1);
}
