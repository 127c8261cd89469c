use iff_editor::clipboard::{stable_sort_by_key, ClipboardManager, PasteMode};
use iff_editor::playback::{
    after_backend_restart, check_playing, update_step, PlaybackState, PlayingCheck, UpdateStep,
};
use iff_editor::view_mode::{AppViewMode, ViewModeState};

#[test]
fn playback_state_predicates() {
    let states = [
        PlaybackState::Empty,
        PlaybackState::Ready,
        PlaybackState::Playing,
        PlaybackState::Paused,
        PlaybackState::Stopped,
        PlaybackState::Error,
    ];
    let can_play = [false, true, false, true, true, false];
    let active = [false, false, true, true, false, false];
    for (i, s) in states.iter().enumerate() {
        assert_eq!(s.can_play(), can_play[i]);
        assert_eq!(s.is_active(), active[i]);
        assert_eq!(s.play_starts_over(), *s == PlaybackState::Stopped);
        assert_eq!(s.toggle_pauses(), *s == PlaybackState::Playing);
    }
    assert_eq!(PlaybackState::Ready.after_seek(), PlaybackState::Paused);
    assert_eq!(PlaybackState::Stopped.after_seek(), PlaybackState::Paused);
    assert_eq!(PlaybackState::Playing.after_seek(), PlaybackState::Playing);
    assert_eq!(PlaybackState::Empty.after_seek(), PlaybackState::Empty);
}

#[test]
fn check_leaves_other_states_alone() {
    let r = check_playing(PlaybackState::Paused, true, true, true, true);
    assert_eq!(r.state, PlaybackState::Paused);
    assert!(r.skip_pause_check);
    assert_eq!(r.found, PlayingCheck::Nothing);
    assert!(!r.pause_backend);
}

#[test]
fn playing_without_track_is_an_error() {
    let r = check_playing(PlaybackState::Playing, false, false, false, false);
    assert_eq!(r.state, PlaybackState::Error);
    assert_eq!(r.found, PlayingCheck::NoTrack);
}

#[test]
fn first_paused_frame_after_play_is_skipped() {
    let r = check_playing(PlaybackState::Playing, true, true, true, false);
    assert_eq!(r.state, PlaybackState::Playing);
    assert!(!r.skip_pause_check);
    assert_eq!(r.found, PlayingCheck::Nothing);
}

#[test]
fn backend_pause_is_followed() {
    let r = check_playing(PlaybackState::Playing, true, true, false, false);
    assert_eq!(r.state, PlaybackState::Paused);
    assert_eq!(r.found, PlayingCheck::Paused);
    assert!(!r.pause_backend);
    let end = check_playing(PlaybackState::Playing, true, true, false, true);
    assert_eq!(end.state, PlaybackState::Stopped);
    assert_eq!(end.found, PlayingCheck::Ended);
}

#[test]
fn end_of_track_stops_and_pauses_backend() {
    let r = check_playing(PlaybackState::Playing, true, false, true, true);
    assert_eq!(r.state, PlaybackState::Stopped);
    assert_eq!(r.found, PlayingCheck::Ended);
    assert!(r.pause_backend);
    assert!(!r.skip_pause_check);
    let go_on = check_playing(PlaybackState::Playing, true, false, true, false);
    assert_eq!(go_on.state, PlaybackState::Playing);
    assert!(!go_on.skip_pause_check);
    assert!(!go_on.pause_backend);
}

#[test]
fn view_mode_toggles() {
    let mut v = ViewModeState::new();
    assert!(!v.is_render_3d());
    assert_eq!(v.toggle_mode(), AppViewMode::Render3D);
    assert!(v.is_render_3d());
    assert_eq!(v.toggle_mode(), AppViewMode::Editor2D);
    assert!(!v.is_render_3d());
    assert_eq!(AppViewMode::Editor2D.label(), "2D editor");
    assert_eq!(AppViewMode::Render3D.label(), "3D render");
}

#[test]
fn clipboard_versions_and_modes() {
    let mut c: ClipboardManager<char> = ClipboardManager::new();
    assert!(c.is_empty());
    assert_eq!(c.version(), 0);
    assert_eq!(c.paste_mode(), None);
    c.set_notes(vec![(2, 'a'), (1, 'b'), (2, 'c'), (-5, 'd')]);
    assert!(!c.is_empty());
    assert_eq!(c.version(), 1);
    assert_eq!(c.notes(), &['d', 'b', 'a', 'c']);
    assert_eq!(c.notes_cloned(), vec!['d', 'b', 'a', 'c']);
    c.set_paste_mode(PasteMode::Mirrored);
    assert_eq!(c.paste_mode(), Some(PasteMode::Mirrored));
    c.set_notes(vec![]);
    assert_eq!(c.version(), 2);
    assert!(c.is_empty());
    assert_eq!(c.paste_mode(), Some(PasteMode::Mirrored));
    c.clear_paste_mode();
    assert_eq!(c.paste_mode(), None);
}

#[test]
fn stable_sort_keeps_equal_keys_in_order() {
    let out = stable_sort_by_key(vec![(3, "x"), (1, "y"), (3, "z"), (1, "w"), (i32::MIN, "m")]);
    assert_eq!(out, vec![(i32::MIN, "m"), (1, "y"), (1, "w"), (3, "x"), (3, "z")]);
    assert!(stable_sort_by_key(Vec::<(i32, u8)>::new()).is_empty());
}

#[test]
fn update_steps_in_order() {
    assert_eq!(update_step(true, true), UpdateStep::ReportPending);
    assert_eq!(update_step(true, false), UpdateStep::ReportPending);
    assert_eq!(update_step(false, true), UpdateStep::RestartBackend);
    assert_eq!(update_step(false, false), UpdateStep::CheckPlaying);
    assert_eq!(after_backend_restart(PlaybackState::Playing, true), PlaybackState::Playing);
    assert_eq!(after_backend_restart(PlaybackState::Paused, false), PlaybackState::Error);
}
