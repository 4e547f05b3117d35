use machi::selector::{InputEvent, Selector, Status};

#[test]
fn down_wraps_over_three() {
    // Pressing Down three times over three lists returns to the first.
    let mut sel = Selector::new(3);
    assert_eq!(sel.index, 0);
    sel.handle(&InputEvent::Down);
    assert_eq!(sel.index, 1);
    sel.handle(&InputEvent::Down);
    assert_eq!(sel.index, 2);
    sel.handle(&InputEvent::Down);
    assert_eq!(sel.index, 0);
}

#[test]
fn down_counts_modulo() {
    // Six presses over four lists land on six mod four.
    let mut sel = Selector::new(4);
    for _ in 0..6 {
        sel.handle(&InputEvent::Down);
    }
    assert_eq!(sel.index, 2);
}

#[test]
fn up_from_zero_wraps_to_last() {
    let mut sel = Selector::new(5);
    sel.handle(&InputEvent::Up);
    assert_eq!(sel.index, 4);
    sel.handle(&InputEvent::Up);
    assert_eq!(sel.index, 3);
}

#[test]
fn single_entry_stays_at_zero() {
    let mut sel = Selector::new(1);
    sel.handle(&InputEvent::Up);
    assert_eq!(sel.index, 0);
    sel.handle(&InputEvent::Down);
    assert_eq!(sel.index, 0);
}

#[test]
fn quit_terminates_from_any_state() {
    let mut sel = Selector::new(3);
    sel.handle(&InputEvent::Down);
    let st = sel.handle(&InputEvent::Quit);
    assert!(matches!(st, Status::Terminated));

    let mut empty = Selector::new(0);
    let st = empty.handle(&InputEvent::Quit);
    assert!(matches!(st, Status::Terminated));
}

#[test]
fn other_keys_change_nothing() {
    let mut sel = Selector::new(3);
    sel.handle(&InputEvent::Down);
    let st = sel.handle(&InputEvent::Other);
    assert!(matches!(st, Status::Running));
    assert_eq!(sel.index, 1);
}

#[test]
fn down_and_up_cancel_out() {
    let mut sel = Selector::new(3);
    sel.handle(&InputEvent::Down);
    sel.handle(&InputEvent::Down);
    sel.handle(&InputEvent::Up);
    assert_eq!(sel.index, 1);
}

#[test]
fn empty_collection_pins_index() {
    let mut sel = Selector::new(0);
    sel.handle(&InputEvent::Down);
    assert_eq!(sel.index, 0);
    sel.handle(&InputEvent::Up);
    assert_eq!(sel.index, 0);
}
