use iff_editor::note_style::{flick_direction_shape_colors, lane_note_palette, Rgba};
use iff_editor::note_types::{
    ground_lane_of, ground_note_effective_width, is_air_kind, is_air_tool, is_ground_kind,
    is_ground_tool, is_snap_division_option, mirror_ground_lane, BarLineKind, GroundNoteKind,
    PlaceEventType, PlaceNoteType, PendingHold, PlacementTools, RenderScope, LANE_COUNT, SNAP_DIVISION_OPTIONS,
};

#[test]
fn tool_labels() {
    assert_eq!(PlaceNoteType::Tap.label(), "Tap");
    assert_eq!(PlaceNoteType::Hold.label(), "Hold");
    assert_eq!(PlaceNoteType::Flick.label(), "Flick");
    assert_eq!(PlaceNoteType::SkyArea.label(), "SkyArea");
    assert_eq!(PlaceEventType::Bpm.label(), "Bpm");
    assert_eq!(PlaceEventType::Track.label(), "Track");
    assert_eq!(PlaceEventType::Lane.label(), "Lane");
    assert_eq!(RenderScope::Split.label(), "Split");
    assert_eq!(RenderScope::Both.label(), "Both");
}

#[test]
fn note_kinds_split_into_ground_and_air() {
    for k in [GroundNoteKind::Tap, GroundNoteKind::Hold, GroundNoteKind::Flick, GroundNoteKind::SkyArea] {
        assert_ne!(is_ground_kind(k), is_air_kind(k));
    }
    assert!(is_ground_kind(GroundNoteKind::Tap));
    assert!(is_ground_kind(GroundNoteKind::Hold));
    assert!(is_air_kind(GroundNoteKind::Flick));
    assert!(is_air_kind(GroundNoteKind::SkyArea));
    assert!(is_ground_tool(PlaceNoteType::Hold));
    assert!(!is_ground_tool(PlaceNoteType::Flick));
    assert!(is_air_tool(PlaceNoteType::SkyArea));
    assert!(!is_air_tool(PlaceNoteType::Tap));
}

#[test]
fn barline_priorities() {
    assert_eq!(BarLineKind::Measure.priority(), 3);
    assert_eq!(BarLineKind::Beat.priority(), 2);
    assert_eq!(BarLineKind::Subdivision.priority(), 1);
}

#[test]
fn effective_width_of_ground_notes() {
    assert_eq!(ground_note_effective_width(0, 4), 1);
    assert_eq!(ground_note_effective_width(5, 3), 1);
    assert_eq!(ground_note_effective_width(7, 3), 1);
    assert_eq!(ground_note_effective_width(1, 0), 1);
    assert_eq!(ground_note_effective_width(1, 3), 3);
    assert_eq!(ground_note_effective_width(1, 9), 4);
    assert_eq!(ground_note_effective_width(4, 2), 1);
    assert_eq!(ground_note_effective_width(2, 3), 3);
}

#[test]
fn mirrored_lanes() {
    let pairs = [(0, 5), (1, 4), (2, 3), (3, 2), (4, 1), (5, 0), (9, 0)];
    for (lane, m) in pairs {
        assert_eq!(mirror_ground_lane(lane), m);
    }
    for lane in 0..=5 {
        assert_eq!(mirror_ground_lane(mirror_ground_lane(lane)), lane);
    }
}

#[test]
fn ground_lanes_of_chart_lanes() {
    assert_eq!(LANE_COUNT, 6);
    assert_eq!(ground_lane_of(0), Some(0));
    assert_eq!(ground_lane_of(5), Some(5));
    assert_eq!(ground_lane_of(6), None);
    assert_eq!(ground_lane_of(-1), None);
}

#[test]
fn snap_divisions() {
    for d in SNAP_DIVISION_OPTIONS {
        assert!(is_snap_division_option(d));
    }
    for d in [0, 5, 7, 10, 20, 33, 65, 128] {
        assert!(!is_snap_division_option(d));
    }
}

fn c(r: u8, g: u8, b: u8, a: u8) -> Rgba {
    Rgba { r, g, b, a }
}

#[test]
fn lane_palettes() {
    assert_eq!(lane_note_palette(0).tap, c(174, 118, 255, 255));
    assert_eq!(lane_note_palette(1).hold_body, c(73, 145, 186, 212));
    assert_eq!(lane_note_palette(3).flick_arrow, c(226, 248, 255, 255));
    assert_eq!(lane_note_palette(4).skyarea_head, c(106, 181, 232, 255));
    assert_eq!(lane_note_palette(5).tap, c(255, 112, 108, 255));
    assert_eq!(lane_note_palette(8), lane_note_palette(5));
}

#[test]
fn flick_colors_by_direction() {
    assert_eq!(flick_direction_shape_colors(true), (c(74, 216, 136, 136), c(154, 255, 190, 242)));
    assert_eq!(flick_direction_shape_colors(false), (c(238, 214, 84, 128), c(255, 246, 154, 242)));
}

#[test]
fn placement_tools_are_exclusive() {
    let mut t: PlacementTools<u32> = PlacementTools::new();
    assert_eq!(t.note_tool, None);
    assert_eq!(t.event_tool, None);
    assert!(t.flick_right);
    t.set_note_tool(Some(PlaceNoteType::Hold));
    assert_eq!(t.note_tool, Some(PlaceNoteType::Hold));
    t.set_event_tool(Some(PlaceEventType::Bpm));
    assert_eq!(t.note_tool, None);
    assert_eq!(t.event_tool, Some(PlaceEventType::Bpm));
    t.set_note_tool(Some(PlaceNoteType::Tap));
    assert_eq!(t.event_tool, None);
    assert!(!t.toggle_flick_right());
    assert!(!t.flick_right);
    t.clear_for_paste();
    assert_eq!(t.note_tool, None);
    assert_eq!(t.event_tool, None);
    assert!(!t.flick_right);
}

#[test]
fn hold_is_placed_with_two_clicks() {
    let mut t: PlacementTools<f32> = PlacementTools::new();
    t.set_note_tool(Some(PlaceNoteType::Hold));
    assert_eq!(t.hold_click(2, 500.0), None);
    assert!(matches!(t.pending_hold, Some(PendingHold { lane: 2, start }) if start == 500.0));
    assert_eq!(t.hold_click(4, 100.0), Some((2, 500.0, 100.0)));
    assert!(t.pending_hold.is_none());
    assert_eq!(t.hold_click(1, 10.0), None);
    t.set_event_tool(Some(PlaceEventType::Track));
    assert!(t.pending_hold.is_none());
    t.set_note_tool(Some(PlaceNoteType::Hold));
    assert_eq!(t.hold_click(1, 10.0), None);
    t.clear_for_paste();
    assert!(t.pending_hold.is_none());
}
