use iff_editor::chart_notes::{number_chart, sort_notes, ChartItem, NoteOrderKey};
use iff_editor::spc::EventKind;

fn it(kind: EventKind, lane: i32) -> ChartItem {
    ChartItem { kind, lane }
}

#[test]
fn notes_and_events_are_numbered_in_file_order() {
    let items = vec![
        it(EventKind::Chart, 0),
        it(EventKind::Tap, 2),
        it(EventKind::Tap, 6),
        it(EventKind::Hold, -1),
        it(EventKind::Bpm, 0),
        it(EventKind::Flick, 99),
        it(EventKind::Beam, 0),
        it(EventKind::SkyArea, 0),
        it(EventKind::Hold, 5),
        it(EventKind::Lane, 3),
        it(EventKind::Track, 0),
        it(EventKind::Unknown, 0),
    ];
    let r = number_chart(&items);
    assert_eq!(
        r.note_ids,
        vec![None, Some(1), None, None, None, Some(2), None, Some(3), Some(4), None, None, None]
    );
    assert_eq!(
        r.event_ids,
        vec![Some(1), None, None, None, Some(2), None, None, None, None, Some(3), Some(4), None]
    );
    assert_eq!(r.next_note_id, 5);
    assert_eq!(r.next_event_id, 5);
}

#[test]
fn empty_chart_starts_ids_at_one() {
    let r = number_chart(&vec![]);
    assert!(r.note_ids.is_empty());
    assert_eq!((r.next_note_id, r.next_event_id), (1, 1));
}

fn k(time: i32, lane: usize, id: u64) -> NoteOrderKey {
    NoteOrderKey { time, lane, id }
}

#[test]
fn notes_sort_by_time_lane_then_id() {
    let notes = vec![
        (k(500, 2, 1), "a"),
        (k(100, 4, 2), "b"),
        (k(500, 1, 3), "c"),
        (k(100, 4, 0), "d"),
        (k(-20, 0, 9), "e"),
    ];
    let out: Vec<&str> = sort_notes(notes).into_iter().map(|(_, n)| n).collect();
    assert_eq!(out, vec!["e", "d", "b", "c", "a"]);
}
