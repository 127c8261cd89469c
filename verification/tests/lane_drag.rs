use iff_editor::paste::{allocate_ids, paste_block, PasteBlock};
use iff_editor::lane_drag::{
    dragged_ground_lane, multi_drag_lane_shift, paste_lane_shift, LaneDragBinding, PasteLaneNote,
};

fn b(note_id: u64, original_lane: usize, rounded_width: usize, is_ground: bool) -> LaneDragBinding {
    LaneDragBinding { note_id, original_lane, rounded_width, is_ground }
}

#[test]
fn narrow_note_drags_across_all_lanes() {
    assert_eq!(dragged_ground_lane(3, 0, 0, 1), 3);
    assert_eq!(dragged_ground_lane(0, 2, 0, 1), 0);
    assert_eq!(dragged_ground_lane(9, 0, 5, 1), 5);
    assert_eq!(dragged_ground_lane(4, 1, 2, 1), 3);
}

#[test]
fn wide_note_stays_in_central_lanes() {
    assert_eq!(dragged_ground_lane(5, 0, 1, 3), 2);
    assert_eq!(dragged_ground_lane(0, 0, 1, 3), 1);
    assert_eq!(dragged_ground_lane(2, 0, 2, 9), 2);
    assert_eq!(dragged_ground_lane(4, 0, 1, 4), 1);
}

#[test]
fn multi_drag_shift_respects_every_ground_note() {
    let bindings = vec![b(1, 0, 1, true), b(2, 1, 3, true), b(3, 4, 1, false)];
    assert_eq!(multi_drag_lane_shift(&bindings, 1, 4, 0), 1);
    assert_eq!(multi_drag_lane_shift(&bindings, 3, 2, 0), 0);
    assert_eq!(multi_drag_lane_shift(&bindings, 9, 1, 0), 1);
    assert_eq!(multi_drag_lane_shift(&bindings, 1, 0, 0), 0);
    for shift_target in -3..9 {
        let shift = multi_drag_lane_shift(&bindings, 1, shift_target, 0);
        assert!((0..=1).contains(&shift));
    }
}

#[test]
fn multi_drag_without_ground_notes_is_unclamped() {
    let bindings = vec![b(7, 4, 1, false)];
    assert_eq!(multi_drag_lane_shift(&bindings, 7, 3, -2), 1);
    assert_eq!(multi_drag_lane_shift(&bindings, 7, 0, 10), -14);
}

fn p(lane: usize, rounded_width: usize, is_ground: bool) -> PasteLaneNote {
    PasteLaneNote { lane, rounded_width, is_ground }
}

#[test]
fn paste_shift_follows_pointer_within_limits() {
    let notes = vec![p(1, 1, true), p(3, 1, true)];
    assert_eq!(paste_lane_shift(&notes, 1, 2), 1);
    assert_eq!(paste_lane_shift(&notes, 1, 5), 2);
    assert_eq!(paste_lane_shift(&notes, 1, 0), -1);
}

#[test]
fn paste_shift_uses_intended_width() {
    let notes = vec![p(2, 3, true)];
    assert_eq!(paste_lane_shift(&notes, 2, 5), 0);
    assert_eq!(paste_lane_shift(&notes, 2, 0), -1);
    let wide = vec![p(1, 0, true)];
    assert_eq!(paste_lane_shift(&wide, 1, 0), -1);
}

#[test]
fn paste_shift_is_zero_when_nothing_fits() {
    let notes = vec![p(0, 2, true), p(5, 1, true)];
    assert_eq!(paste_lane_shift(&notes, 0, 3), 0);
}

#[test]
fn paste_shift_ignores_air_notes() {
    let notes = vec![p(4, 1, false), p(0, 1, true)];
    assert_eq!(paste_lane_shift(&notes, 0, 5), 5);
    assert_eq!(paste_lane_shift(&vec![], 2, -7), -9);
}

#[test]
fn paste_refusals() {
    assert_eq!(paste_block(&vec![p(0, 1, true), p(3, 2, true), p(4, 1, true)]), None);
    assert_eq!(paste_block(&vec![p(1, 1, true), p(0, 2, true)]), Some(PasteBlock::WideOnSideLane));
    assert_eq!(paste_block(&vec![p(5, 3, true)]), Some(PasteBlock::WideOnSideLane));
    assert_eq!(paste_block(&vec![p(3, 3, true), p(0, 2, true)]), Some(PasteBlock::PastLastLane));
    assert_eq!(paste_block(&vec![p(0, 9, false), p(4, usize::MAX, true)]), Some(PasteBlock::PastLastLane));
    assert_eq!(paste_block(&vec![p(0, 0, true), p(5, 1, true)]), None);
    assert_eq!(paste_block(&vec![]), None);
}

#[test]
fn pasted_notes_get_fresh_ids() {
    assert_eq!(allocate_ids(7, 3), (vec![7, 8, 9], 10));
    assert_eq!(allocate_ids(7, 0), (vec![], 7));
    assert_eq!(allocate_ids(u64::MAX - 1, 3), (vec![u64::MAX - 1, u64::MAX, u64::MAX], u64::MAX));
}
