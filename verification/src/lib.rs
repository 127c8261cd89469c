use vstd::prelude::*;

pub mod chart;
pub mod chart_notes;
pub mod spc;
pub mod undo;
pub mod hit;
pub mod selection;
pub mod note_types;
pub mod playback;
pub mod note_style;
pub mod view_mode;
pub mod clipboard;
pub mod lane_drag;
pub mod paste;
pub mod project;

verus! {

} // verus!
