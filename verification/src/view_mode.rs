use vstd::prelude::*;

verus! {

/// What the window shows: the 2D editor or the 3D render of the chart.
#[derive(Debug, Clone, Copy, PartialEq, Eq, Structural)]
pub enum AppViewMode {
    Editor2D,
    Render3D,
}

pub open spec fn view_mode_label(m: AppViewMode) -> Seq<char> {
    match m {
        AppViewMode::Editor2D => "2D editor"@,
        AppViewMode::Render3D => "3D render"@,
    }
}

/// The other view mode.
pub open spec fn toggled(m: AppViewMode) -> AppViewMode {
    match m {
        AppViewMode::Editor2D => AppViewMode::Render3D,
        AppViewMode::Render3D => AppViewMode::Editor2D,
    }
}

impl AppViewMode {
    /// The mode's name as shown to the user.
    pub fn label(self) -> (s: &'static str)
        ensures
            s@ == view_mode_label(self),
    {
        match self {
            AppViewMode::Editor2D => "2D editor",
            AppViewMode::Render3D => "3D render",
        }
    }
}

/// The view mode state of the window presenter.
pub struct ViewModeState {
    mode: AppViewMode,
}

impl View for ViewModeState {
    type V = AppViewMode;

    closed spec fn view(&self) -> AppViewMode {
        self.mode
    }
}

impl ViewModeState {
    /// The presenter starts in the 2D editor.
    pub fn new() -> (s: Self)
        ensures
            s@ == AppViewMode::Editor2D,
    {
        ViewModeState { mode: AppViewMode::Editor2D }
    }

    /// Whether the 3D render is shown.
    pub fn is_render_3d(&self) -> (b: bool)
        ensures
            b == (self@ == AppViewMode::Render3D),
    {
        self.mode == AppViewMode::Render3D
    }

    /// Switches to the other mode and gives the new one.
    pub fn toggle_mode(&mut self) -> (m: AppViewMode)
        ensures
            m == toggled(old(self)@),
            final(self)@ == m,
    {
        self.mode = match self.mode {
            AppViewMode::Editor2D => AppViewMode::Render3D,
            AppViewMode::Render3D => AppViewMode::Editor2D,
        };
        self.mode
    }
}

/// Toggling twice brings the view mode back.
pub proof fn lemma_toggle_twice(m: AppViewMode)
    ensures
        toggled(toggled(m)) == m,
        toggled(m) != m,
{
}

} // verus!
