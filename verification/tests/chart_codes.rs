use iff_editor::chart::{bpm_line_fields, BpmLineFields, ChartOutline, Ease, FlickType};
use iff_editor::spc::EventKind;

#[test]
fn ease_codes_decode() {
    assert_eq!(Ease::from_value(0), Ease::Linear);
    assert_eq!(Ease::from_value(1), Ease::SineOut);
    assert_eq!(Ease::from_value(2), Ease::SineIn);
    assert_eq!(Ease::from_value(3), Ease::Linear);
    assert_eq!(Ease::from_value(-7), Ease::Linear);
}

#[test]
fn ease_codes_encode() {
    assert_eq!(Ease::Linear.to_value(), 0);
    assert_eq!(Ease::SineOut.to_value(), 1);
    assert_eq!(Ease::SineIn.to_value(), 2);
}

#[test]
fn ease_round_trip_on_every_variant() {
    for e in [Ease::Linear, Ease::SineOut, Ease::SineIn] {
        assert_eq!(Ease::from_value(e.to_value()), e);
    }
}

#[test]
fn flick_codes_decode() {
    assert_eq!(FlickType::from_value(4), FlickType::Right);
    assert_eq!(FlickType::from_value(16), FlickType::Left);
    assert_eq!(FlickType::from_value(5), FlickType::Other(5));
    assert_eq!(FlickType::from_value(0), FlickType::Other(0));
}

#[test]
fn flick_codes_encode_and_round_trip() {
    assert_eq!(FlickType::Right.to_value(), 4);
    assert_eq!(FlickType::Left.to_value(), 16);
    assert_eq!(FlickType::Other(9).to_value(), 9);
    for v in [-3, 0, 4, 8, 16, 32] {
        assert_eq!(FlickType::from_value(v).to_value(), v);
    }
    for f in [FlickType::Right, FlickType::Left, FlickType::Other(7)] {
        assert_eq!(FlickType::from_value(f.to_value()), f);
    }
}

fn outline(kinds: Vec<EventKind>) -> ChartOutline {
    ChartOutline { kinds }
}

#[test]
fn outline_counts_each_kind() {
    let o = outline(vec![
        EventKind::Chart,
        EventKind::Tap,
        EventKind::Tap,
        EventKind::Hold,
        EventKind::Flick,
        EventKind::SkyArea,
        EventKind::SkyArea,
        EventKind::Bpm,
        EventKind::Tap,
        EventKind::Unknown,
    ]);
    assert_eq!(o.tap_count(), 3);
    assert_eq!(o.hold_count(), 1);
    assert_eq!(o.flick_count(), 1);
    assert_eq!(o.skyarea_count(), 2);
    assert_eq!(o.total_notes(), 5);
}

#[test]
fn outline_of_empty_chart() {
    let o = outline(vec![]);
    assert_eq!(o.tap_count(), 0);
    assert_eq!(o.total_notes(), 0);
    assert_eq!(o.chart_info_index(), None);
}

#[test]
fn chart_info_is_first_header() {
    let o = outline(vec![EventKind::Bpm, EventKind::Chart, EventKind::Tap, EventKind::Chart]);
    assert_eq!(o.chart_info_index(), Some(1));
    let none = outline(vec![EventKind::Tap, EventKind::Beam]);
    assert_eq!(none.chart_info_index(), None);
}

#[test]
fn total_notes_leaves_out_sky_areas() {
    let o = outline(vec![EventKind::SkyArea, EventKind::SkyArea, EventKind::Lane]);
    assert_eq!(o.total_notes(), 0);
    assert!(o.total_notes() <= o.kinds.len());
}

#[test]
fn bpm_line_field_choices() {
    assert_eq!(bpm_line_fields(true, true), BpmLineFields::TimeBpm);
    assert_eq!(bpm_line_fields(false, true), BpmLineFields::TimeBpmBeats);
    assert_eq!(bpm_line_fields(true, false), BpmLineFields::TimeBpmChartBeatsUnknown);
    assert_eq!(bpm_line_fields(false, false), BpmLineFields::TimeBpmBeatsUnknown);
}
