use iff_editor::undo::{UndoHistory, UndoManager};

#[test]
fn new_history_has_nothing_to_undo_or_redo() {
    let mut h: UndoHistory<u32> = UndoHistory::new(10);
    assert!(!h.is_at_top());
    assert!(!h.can_undo());
    assert!(!h.can_redo());
    assert_eq!(h.undo(), None);
    assert_eq!(h.redo(), None);
}

#[test]
fn undo_and_redo_walk_the_states() {
    let mut h = UndoHistory::new(10);
    h.push(1);
    h.push(2);
    h.push(3);
    assert!(h.is_at_top());
    assert_eq!(h.undo(), Some(&2));
    assert_eq!(h.undo(), Some(&1));
    assert_eq!(h.undo(), None);
    assert_eq!(h.redo(), Some(&2));
    assert_eq!(h.redo(), Some(&3));
    assert_eq!(h.redo(), None);
    assert!(h.is_at_top());
}

#[test]
fn push_after_undo_drops_the_redo_states() {
    let mut h = UndoHistory::new(10);
    h.push(1);
    h.push(2);
    h.push(3);
    assert_eq!(h.undo(), Some(&2));
    h.push(4);
    assert!(!h.can_redo());
    assert!(h.is_at_top());
    assert_eq!(h.undo(), Some(&2));
    assert_eq!(h.undo(), Some(&1));
    assert_eq!(h.undo(), None);
}

#[test]
fn oldest_state_goes_past_capacity() {
    let mut h = UndoHistory::new(3);
    for s in 1..=5 {
        h.push(s);
    }
    assert_eq!(h.undo(), Some(&4));
    assert_eq!(h.undo(), Some(&3));
    assert_eq!(h.undo(), None);
}

#[test]
fn zero_capacity_keeps_nothing() {
    let mut h = UndoHistory::new(0);
    h.push(7);
    assert!(!h.is_at_top());
    assert!(!h.can_undo());
    assert!(!h.can_redo());
}

#[test]
fn single_state_is_at_top_without_undo() {
    let mut h = UndoHistory::new(5);
    h.push("a");
    assert!(h.is_at_top());
    assert!(!h.can_undo());
    assert_eq!(h.undo(), None);
}

#[test]
fn manager_capture_if_at_top_only_at_top() {
    let mut m = UndoManager::new(10);
    m.capture_if_at_top(1);
    assert!(!m.is_at_top());
    m.capture(1);
    m.capture(2);
    m.capture_if_at_top(3);
    assert!(m.is_at_top());
    assert_eq!(m.undo(), Some(&2));
    m.capture_if_at_top(9);
    assert!(!m.is_at_top());
    assert_eq!(m.redo(), Some(&3));
}

#[test]
fn edit_undo_redo_restores_states() {
    let mut m = UndoManager::new(50);
    m.push(String::from("before"));
    m.push(String::from("after"));
    assert_eq!(m.undo_snapshot(), Some(String::from("before")));
    assert_eq!(m.redo_snapshot(), Some(String::from("after")));
    assert_eq!(m.redo_snapshot(), None);
    assert_eq!(m.undo_snapshot(), Some(String::from("before")));
    assert_eq!(m.undo_snapshot(), None);
}
