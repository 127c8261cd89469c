use vstd::prelude::*;

verus! {

/// State of the song player.
#[derive(Debug, Clone, Copy, PartialEq, Eq, Structural)]
pub enum PlaybackState {
    Empty,
    Ready,
    Playing,
    Paused,
    Stopped,
    Error,
}

/// Why playback stopped.
#[derive(Debug, Clone, Copy, PartialEq, Eq, Structural)]
pub enum StopReason {
    User,
    EndOfTrack,
}

impl PlaybackState {
    /// Whether the player can start playing from this state: a track is
    /// loaded and not already playing.
    pub fn can_play(self) -> (b: bool)
        ensures
            b == (self == PlaybackState::Ready || self == PlaybackState::Paused || self
                == PlaybackState::Stopped),
    {
        match self {
            PlaybackState::Ready | PlaybackState::Paused | PlaybackState::Stopped => true,
            _ => false,
        }
    }

    /// Whether a track is in play: playing or paused part-way.
    pub fn is_active(self) -> (b: bool)
        ensures
            b == (self == PlaybackState::Playing || self == PlaybackState::Paused),
    {
        match self {
            PlaybackState::Playing | PlaybackState::Paused => true,
            _ => false,
        }
    }
}


/// What the player's per-frame check of a playing track found.
#[derive(Debug, Clone, Copy, PartialEq, Eq, Structural)]
pub enum PlayingCheck {
    /// Nothing to report.
    Nothing,
    /// The player thinks it plays but holds no track: an error.
    NoTrack,
    /// The backend paused on its own part-way: the player follows, keeping
    /// the backend's position.
    Paused,
    /// The track reached its end: the player stops at the track's length.
    Ended,
}

/// The player's state after a per-frame check.
pub struct PlayingCheckResult {
    pub state: PlaybackState,
    pub skip_pause_check: bool,
    pub found: PlayingCheck,
    /// Whether the backend must be told to pause.
    pub pause_backend: bool,
}

/// The per-frame check of the song player. Only a `Playing` player is
/// checked. Right after `play` the backend may still report itself paused
/// for one frame, which `skip_pause_check` lets pass once. `near_end` says
/// whether the backend position is within the end margin of the track.
pub fn check_playing(
    state: PlaybackState,
    has_music: bool,
    backend_paused: bool,
    skip_pause_check: bool,
    near_end: bool,
) -> (r: PlayingCheckResult)
    ensures
        state != PlaybackState::Playing ==> r.state == state && r.skip_pause_check
            == skip_pause_check && r.found == PlayingCheck::Nothing && !r.pause_backend,
        state == PlaybackState::Playing && !has_music ==> r.state == PlaybackState::Error
            && r.skip_pause_check == skip_pause_check && r.found == PlayingCheck::NoTrack
            && !r.pause_backend,
        state == PlaybackState::Playing && has_music && backend_paused && skip_pause_check ==> r.state
            == PlaybackState::Playing && !r.skip_pause_check && r.found == PlayingCheck::Nothing
            && !r.pause_backend,
        state == PlaybackState::Playing && has_music && backend_paused && !skip_pause_check ==> {
            &&& r.skip_pause_check == skip_pause_check
            &&& !r.pause_backend
            &&& near_end ==> r.state == PlaybackState::Stopped && r.found == PlayingCheck::Ended
            &&& !near_end ==> r.state == PlaybackState::Paused && r.found == PlayingCheck::Paused
        },
        state == PlaybackState::Playing && has_music && !backend_paused ==> {
            &&& !r.skip_pause_check
            &&& near_end ==> r.state == PlaybackState::Stopped && r.found == PlayingCheck::Ended
                && r.pause_backend
            &&& !near_end ==> r.state == PlaybackState::Playing && r.found == PlayingCheck::Nothing
                && !r.pause_backend
        },
{
    if state != PlaybackState::Playing {
        return PlayingCheckResult {
            state,
            skip_pause_check,
            found: PlayingCheck::Nothing,
            pause_backend: false,
        };
    }
    if !has_music {
        return PlayingCheckResult {
            state: PlaybackState::Error,
            skip_pause_check,
            found: PlayingCheck::NoTrack,
            pause_backend: false,
        };
    }
    if backend_paused {
        if skip_pause_check {
            PlayingCheckResult {
                state,
                skip_pause_check: false,
                found: PlayingCheck::Nothing,
                pause_backend: false,
            }
        } else if near_end {
            PlayingCheckResult {
                state: PlaybackState::Stopped,
                skip_pause_check,
                found: PlayingCheck::Ended,
                pause_backend: false,
            }
        } else {
            PlayingCheckResult {
                state: PlaybackState::Paused,
                skip_pause_check,
                found: PlayingCheck::Paused,
                pause_backend: false,
            }
        }
    } else if near_end {
        PlayingCheckResult {
            state: PlaybackState::Stopped,
            skip_pause_check: false,
            found: PlayingCheck::Ended,
            pause_backend: true,
        }
    } else {
        PlayingCheckResult {
            state,
            skip_pause_check: false,
            found: PlayingCheck::Nothing,
            pause_backend: false,
        }
    }
}

impl PlaybackState {
    /// Whether `play` starts the track over: after a stop (by the user or
    /// at the end of the track) it plays from the start, otherwise from the
    /// remembered position.
    pub fn play_starts_over(self) -> (b: bool)
        ensures
            b == (self == PlaybackState::Stopped),
    {
        self == PlaybackState::Stopped
    }

    /// The state after a seek that the backend accepted: a ready or stopped
    /// track becomes paused at the new position; other states stay.
    pub fn after_seek(self) -> (s: PlaybackState)
        ensures
            s == (if self == PlaybackState::Ready || self == PlaybackState::Stopped {
                PlaybackState::Paused
            } else {
                self
            }),
    {
        match self {
            PlaybackState::Ready | PlaybackState::Stopped => PlaybackState::Paused,
            _ => self,
        }
    }

    /// Whether toggling play/pause pauses (it does when playing; otherwise
    /// it plays).
    pub fn toggle_pauses(self) -> (b: bool)
        ensures
            b == (self == PlaybackState::Playing),
    {
        self == PlaybackState::Playing
    }
}

/// What the player's per-frame update does first.
#[derive(Debug, Clone, Copy, PartialEq, Eq, Structural)]
pub enum UpdateStep {
    /// Hand out the event left by the last command.
    ReportPending,
    /// The audio backend broke: start it again.
    RestartBackend,
    /// Check the playing track (see [`check_playing`]).
    CheckPlaying,
}

/// The first step of the player's per-frame update: a pending event goes
/// out first; otherwise a broken backend is restarted; otherwise the
/// playing track is checked.
pub fn update_step(has_pending_event: bool, backend_broken: bool) -> (s: UpdateStep)
    ensures
        s == (if has_pending_event {
            UpdateStep::ReportPending
        } else if backend_broken {
            UpdateStep::RestartBackend
        } else {
            UpdateStep::CheckPlaying
        }),
{
    if has_pending_event {
        UpdateStep::ReportPending
    } else if backend_broken {
        UpdateStep::RestartBackend
    } else {
        UpdateStep::CheckPlaying
    }
}

/// The player's state after restarting a broken backend: unchanged when the
/// backend started again, `Error` when it did not.
pub fn after_backend_restart(state: PlaybackState, restarted: bool) -> (s: PlaybackState)
    ensures
        s == (if restarted {
            state
        } else {
            PlaybackState::Error
        }),
{
    if restarted {
        state
    } else {
        PlaybackState::Error
    }
}

} // verus!
