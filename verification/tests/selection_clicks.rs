use iff_editor::hit::{canonical_hit_signature, AirDragTarget, HitPart, HitScope, HitSignatureItem};
use iff_editor::selection::{
    box_select_start, box_select_update, hover_hint_index, resolve_event_overlap_click, resolve_overlap_click, EventSelection,
    NoteSelection, OverlapCycleState,
};
use std::collections::HashSet;

fn ground(note_id: u64, part: HitPart) -> HitSignatureItem {
    HitSignatureItem { note_id, scope: HitScope::Ground, air_target: AirDragTarget::Body, part }
}

fn three() -> Vec<HitSignatureItem> {
    vec![ground(30, HitPart::Body), ground(10, HitPart::Head), ground(20, HitPart::Body)]
}

fn click(
    items: &Vec<HitSignatureItem>,
    selected: Option<u64>,
    prev: &Option<OverlapCycleState>,
    quick: bool,
) -> (usize, bool, Option<OverlapCycleState>) {
    let sig = canonical_hit_signature(items);
    let r = resolve_overlap_click(items, sig, HitScope::Ground, 4, 7, selected, prev, quick);
    (r.index, r.did_cycle, r.cycle)
}

#[test]
fn single_candidate_is_selected_without_memory() {
    let items = vec![ground(1, HitPart::Body)];
    let (index, cycled, memo) = click(&items, None, &None, true);
    assert_eq!(index, 0);
    assert!(!cycled);
    assert!(memo.is_none());
}

#[test]
fn first_click_takes_the_first_candidate_unarmed() {
    let items = three();
    let (index, cycled, memo) = click(&items, None, &None, false);
    assert_eq!(index, 0);
    assert!(!cycled);
    let memo = memo.unwrap();
    assert!(!memo.double_click_armed);
    assert_eq!(memo.current_index, 0);
    assert_eq!(memo.selected_item, items[0]);
    assert_eq!(memo.signature, canonical_hit_signature(&items));
}

#[test]
fn first_click_keeps_the_selected_note() {
    let items = three();
    let (index, cycled, memo) = click(&items, Some(20), &None, false);
    assert_eq!(index, 2);
    assert!(!cycled);
    assert!(memo.unwrap().double_click_armed);
}

#[test]
fn quick_clicks_cycle_through_overlaps() {
    let items = three();
    let (i1, _, m1) = click(&items, None, &None, false);
    assert_eq!(i1, 0);
    let sel = Some(items[i1].note_id);
    let (i2, c2, m2) = click(&items, sel, &m1, true);
    assert_eq!(i2, 0);
    assert!(!c2);
    assert!(m2.as_ref().unwrap().double_click_armed);
    let (i3, c3, m3) = click(&items, Some(items[i2].note_id), &m2, true);
    assert_eq!(i3, 1);
    assert!(c3);
    assert!(!m3.as_ref().unwrap().double_click_armed);
    let (i4, c4, m4) = click(&items, Some(items[i3].note_id), &m3, true);
    assert_eq!(i4, 1);
    assert!(!c4);
    let (i5, c5, _) = click(&items, Some(items[i4].note_id), &m4, true);
    assert_eq!(i5, 2);
    assert!(c5);
}

#[test]
fn slow_click_does_not_cycle() {
    let items = three();
    let (_, _, m1) = click(&items, Some(10), &None, false);
    let (index, cycled, memo) = click(&items, Some(10), &m1, false);
    assert_eq!(index, 1);
    assert!(!cycled);
    assert!(memo.unwrap().double_click_armed);
}

#[test]
fn click_elsewhere_starts_over() {
    let items = three();
    let (_, _, m1) = click(&items, Some(10), &None, false);
    let sig = canonical_hit_signature(&items);
    let r = resolve_overlap_click(&items, sig, HitScope::Ground, 5, 7, Some(10), &m1, true);
    assert_eq!(r.index, 1);
    assert!(!r.did_cycle);
}

#[test]
fn cycling_wraps_around() {
    let items = three();
    let prev = Some(OverlapCycleState {
        signature: canonical_hit_signature(&items),
        current_index: 2,
        selected_item: items[2],
        anchor_x: 4,
        anchor_y: 7,
        scope: HitScope::Ground,
        double_click_armed: true,
    });
    let (index, cycled, _) = click(&items, Some(20), &prev, true);
    assert_eq!(index, 0);
    assert!(cycled);
}

#[test]
fn missing_remembered_item_uses_clamped_position() {
    let items = three();
    let prev = Some(OverlapCycleState {
        signature: canonical_hit_signature(&items),
        current_index: 9,
        selected_item: ground(99, HitPart::Tail),
        anchor_x: 4,
        anchor_y: 7,
        scope: HitScope::Ground,
        double_click_armed: true,
    });
    let (index, cycled, _) = click(&items, None, &prev, true);
    assert_eq!(index, 0);
    assert!(cycled);
    let sig = canonical_hit_signature(&items);
    assert_eq!(hover_hint_index(&items, &sig, HitScope::Ground, 4, 7, &prev), 2);
}

#[test]
fn hover_hint_follows_remembered_click() {
    let items = three();
    let sig = canonical_hit_signature(&items);
    assert_eq!(hover_hint_index(&items, &sig, HitScope::Ground, 4, 7, &None), 0);
    let (_, _, m) = click(&items, Some(20), &None, false);
    assert_eq!(hover_hint_index(&items, &sig, HitScope::Ground, 4, 7, &m), 2);
    assert_eq!(hover_hint_index(&items, &sig, HitScope::Air, 4, 7, &m), 0);
}

fn note_selection(primary: Option<u64>, ids: &[u64]) -> NoteSelection {
    NoteSelection { selected_note_id: primary, selected_note_ids: ids.iter().copied().collect() }
}

fn set(ids: &[u64]) -> HashSet<u64> {
    ids.iter().copied().collect()
}

#[test]
fn shift_click_adds_next_unselected_overlap() {
    let mut s = note_selection(Some(10), &[10]);
    let candidates = vec![10, 20, 30];
    s.shift_click(&candidates, 0);
    assert_eq!(s.selected_note_id, Some(20));
    assert_eq!(s.selected_note_ids, set(&[10, 20]));
    s.shift_click(&candidates, 0);
    assert_eq!(s.selected_note_id, Some(30));
    assert_eq!(s.selected_note_ids, set(&[10, 20, 30]));
    s.shift_click(&candidates, 1);
    assert_eq!(s.selected_note_ids, set(&[10, 30]));
    let primary = s.selected_note_id.unwrap();
    assert!(primary == 10 || primary == 30);
}

#[test]
fn shift_click_keeps_single_primary_selected() {
    let mut s = note_selection(Some(5), &[]);
    s.shift_click(&vec![8], 0);
    assert_eq!(s.selected_note_id, Some(8));
    assert_eq!(s.selected_note_ids, set(&[5, 8]));
}

#[test]
fn shift_click_last_note_out_leaves_nothing() {
    let mut s = note_selection(Some(8), &[8]);
    s.shift_click(&vec![8], 0);
    assert_eq!(s.selected_note_id, None);
    assert!(s.selected_note_ids.is_empty());
}

#[test]
fn plain_click_on_multi_selection_keeps_it() {
    let mut s = note_selection(Some(1), &[1, 2, 3]);
    assert!(s.plain_click(2));
    assert_eq!(s.selected_note_id, Some(2));
    assert_eq!(s.selected_note_ids, set(&[1, 2, 3]));
    assert!(!s.plain_click(9));
    assert_eq!(s.selected_note_id, Some(9));
    assert_eq!(s.selected_note_ids, set(&[9]));
}

#[test]
fn blank_click_and_clear() {
    let mut s = note_selection(Some(1), &[1, 2]);
    s.blank_click(true);
    assert_eq!(s.selected_note_ids, set(&[1, 2]));
    s.blank_click(false);
    assert_eq!(s.selected_note_id, Some(1));
    assert!(s.selected_note_ids.is_empty());
    s.clear();
    assert_eq!(s.selected_note_id, None);
}

#[test]
fn event_overlap_cycles_in_same_column() {
    let ids = vec![4u64, 6, 8];
    let r1 = resolve_event_overlap_click(ids.clone(), 2, 11, None, &None, false);
    assert_eq!(r1.index, 0);
    assert!(!r1.cycle.double_click_armed);
    let r2 = resolve_event_overlap_click(ids.clone(), 2, 11, Some(4), &Some(r1.cycle), true);
    assert_eq!(r2.index, 0);
    assert!(r2.cycle.double_click_armed);
    let r3 = resolve_event_overlap_click(ids.clone(), 2, 11, Some(4), &Some(r2.cycle), true);
    assert_eq!(r3.index, 1);
    assert!(r3.did_cycle);
    let r4 = resolve_event_overlap_click(ids.clone(), 3, 11, Some(6), &Some(r3.cycle), true);
    assert_eq!(r4.index, 1);
    assert!(!r4.did_cycle);
}

#[test]
fn event_shift_click_toggles() {
    let mut e = EventSelection { selected_event_id: Some(1), selected_event_ids: set(&[]) };
    e.shift_click(2);
    assert_eq!(e.selected_event_id, Some(2));
    assert_eq!(e.selected_event_ids, set(&[1, 2]));
    e.shift_click(1);
    assert_eq!(e.selected_event_id, Some(2));
    assert_eq!(e.selected_event_ids, set(&[2]));
    e.shift_click(2);
    assert_eq!(e.selected_event_id, None);
    assert!(e.selected_event_ids.is_empty());
    e.shift_click(3);
    e.clear();
    assert_eq!(e.selected_event_id, None);
    assert!(e.selected_event_ids.is_empty());
}

#[test]
fn box_selection_prefers_notes_and_accumulates() {
    let mut n = note_selection(Some(1), &[1]);
    let mut e = EventSelection { selected_event_id: Some(4), selected_event_ids: set(&[4]) };
    box_select_start(&mut n, &mut e);
    assert_eq!(n.selected_note_id, None);
    assert!(n.selected_note_ids.is_empty());
    assert_eq!(e.selected_event_id, None);
    box_select_update(&mut n, &mut e, &vec![], &vec![7, 8]);
    assert_eq!(e.selected_event_ids, set(&[7, 8]));
    assert!(matches!(e.selected_event_id, Some(7) | Some(8)));
    box_select_update(&mut n, &mut e, &vec![], &vec![]);
    assert_eq!(e.selected_event_ids, set(&[7, 8]));
    box_select_update(&mut n, &mut e, &vec![2, 3], &vec![9]);
    assert_eq!(n.selected_note_ids, set(&[2, 3]));
    assert!(matches!(n.selected_note_id, Some(2) | Some(3)));
    assert!(e.selected_event_ids.is_empty());
    assert_eq!(e.selected_event_id, None);
    box_select_update(&mut n, &mut e, &vec![], &vec![9]);
    assert!(e.selected_event_ids.is_empty());
    box_select_update(&mut n, &mut e, &vec![5], &vec![]);
    assert_eq!(n.selected_note_ids, set(&[2, 3, 5]));
}
