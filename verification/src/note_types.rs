use vstd::prelude::*;

verus! {

/// Number of lanes of the playfield: two side lanes around four central ones.
pub const LANE_COUNT: usize = 6;

/// Note placement tools.
#[derive(Debug, Clone, Copy, PartialEq, Eq, Structural)]
pub enum PlaceNoteType {
    Tap,
    Hold,
    Flick,
    SkyArea,
}

pub open spec fn place_note_label(t: PlaceNoteType) -> Seq<char> {
    match t {
        PlaceNoteType::Tap => "Tap"@,
        PlaceNoteType::Hold => "Hold"@,
        PlaceNoteType::Flick => "Flick"@,
        PlaceNoteType::SkyArea => "SkyArea"@,
    }
}

impl PlaceNoteType {
    /// The tool's name as shown in the status line.
    pub fn label(self) -> (s: &'static str)
        ensures
            s@ == place_note_label(self),
    {
        match self {
            PlaceNoteType::Tap => "Tap",
            PlaceNoteType::Hold => "Hold",
            PlaceNoteType::Flick => "Flick",
            PlaceNoteType::SkyArea => "SkyArea",
        }
    }
}

/// Timeline event placement tools.
#[derive(Debug, Clone, Copy, PartialEq, Eq, Structural)]
pub enum PlaceEventType {
    Bpm,
    Track,
    Lane,
}

pub open spec fn place_event_label(t: PlaceEventType) -> Seq<char> {
    match t {
        PlaceEventType::Bpm => "Bpm"@,
        PlaceEventType::Track => "Track"@,
        PlaceEventType::Lane => "Lane"@,
    }
}

impl PlaceEventType {
    /// The tool's name as shown in the status line.
    pub fn label(self) -> (s: &'static str)
        ensures
            s@ == place_event_label(self),
    {
        match self {
            PlaceEventType::Bpm => "Bpm",
            PlaceEventType::Track => "Track",
            PlaceEventType::Lane => "Lane",
        }
    }
}

/// Which views the editor draws: ground and air split apart, or both at once.
#[derive(Debug, Clone, Copy, PartialEq, Eq, Structural)]
pub enum RenderScope {
    Split,
    Both,
}

pub open spec fn render_scope_label(s: RenderScope) -> Seq<char> {
    match s {
        RenderScope::Split => "Split"@,
        RenderScope::Both => "Both"@,
    }
}

impl RenderScope {
    /// The scope's name as shown in the status line.
    pub fn label(self) -> (s: &'static str)
        ensures
            s@ == render_scope_label(self),
    {
        match self {
            RenderScope::Split => "Split",
            RenderScope::Both => "Both",
        }
    }
}

/// The head of a hold whose tail is still to be placed: its lane and time.
pub struct PendingHold<T> {
    pub lane: usize,
    pub start: T,
}

/// The placement tools in force: at most one of a note tool and an event
/// tool, the direction new flicks point to, and the head of a hold being
/// placed (with time type `T`).
pub struct PlacementTools<T> {
    pub note_tool: Option<PlaceNoteType>,
    pub event_tool: Option<PlaceEventType>,
    pub flick_right: bool,
    pub pending_hold: Option<PendingHold<T>>,
}

impl<T> PlacementTools<T> {
    /// A note tool and an event tool are never both in force.
    pub open spec fn wf(&self) -> bool {
        !(self.note_tool is Some && self.event_tool is Some)
    }

    /// No tool; new flicks point right; no hold being placed.
    pub fn new() -> (t: Self)
        ensures
            t.wf(),
            t.note_tool is None,
            t.event_tool is None,
            t.flick_right,
            t.pending_hold is None,
    {
        PlacementTools { note_tool: None, event_tool: None, flick_right: true, pending_hold: None }
    }

    /// Picks a note tool (or none); the event tool is put away and a hold
    /// being placed is dropped.
    pub fn set_note_tool(&mut self, tool: Option<PlaceNoteType>)
        ensures
            final(self).wf(),
            final(self).note_tool == tool,
            final(self).event_tool is None,
            final(self).flick_right == old(self).flick_right,
            final(self).pending_hold is None,
    {
        self.note_tool = tool;
        self.event_tool = None;
        self.pending_hold = None;
    }

    /// Picks an event tool (or none); the note tool is put away and a hold
    /// being placed is dropped.
    pub fn set_event_tool(&mut self, tool: Option<PlaceEventType>)
        ensures
            final(self).wf(),
            final(self).event_tool == tool,
            final(self).note_tool is None,
            final(self).flick_right == old(self).flick_right,
            final(self).pending_hold is None,
    {
        self.event_tool = tool;
        self.note_tool = None;
        self.pending_hold = None;
    }

    /// Entering paste mode puts both tools away and drops a hold being placed.
    pub fn clear_for_paste(&mut self)
        ensures
            final(self).wf(),
            final(self).note_tool is None,
            final(self).event_tool is None,
            final(self).flick_right == old(self).flick_right,
            final(self).pending_hold is None,
    {
        self.note_tool = None;
        self.event_tool = None;
        self.pending_hold = None;
    }

    /// Turns the direction of new flicks around; gives the new direction.
    pub fn toggle_flick_right(&mut self) -> (right: bool)
        ensures
            right == !old(self).flick_right,
            final(self).flick_right == right,
            final(self).note_tool == old(self).note_tool,
            final(self).event_tool == old(self).event_tool,
            final(self).pending_hold == old(self).pending_hold,
    {
        self.flick_right = !self.flick_right;
        self.flick_right
    }

    /// A click of the hold tool at `lane` and `time`. The first click sets
    /// the head and gives nothing; the second gives the lane of the head and
    /// the two clicked times (head's first), and the hold is no longer
    /// pending.
    pub fn hold_click(&mut self, lane: usize, time: T) -> (r: Option<(usize, T, T)>)
        ensures
            final(self).note_tool == old(self).note_tool,
            final(self).event_tool == old(self).event_tool,
            final(self).flick_right == old(self).flick_right,
            match old(self).pending_hold {
                Some(p) => r == Some((p.lane, p.start, time)) && final(self).pending_hold is None,
                None => r is None && final(self).pending_hold == Some(PendingHold { lane, start: time }),
            },
    {
        match self.pending_hold.take() {
            Some(p) => Some((p.lane, p.start, time)),
            None => {
                self.pending_hold = Some(PendingHold { lane, start: time });
                None
            },
        }
    }
}

/// The kind of a note in the editor.
#[derive(Debug, Clone, Copy, PartialEq, Eq, Structural)]
pub enum GroundNoteKind {
    Tap,
    Hold,
    Flick,
    SkyArea,
}

/// Taps and holds lie on the ground.
pub fn is_ground_kind(kind: GroundNoteKind) -> (b: bool)
    ensures
        b == (kind == GroundNoteKind::Tap || kind == GroundNoteKind::Hold),
{
    match kind {
        GroundNoteKind::Tap | GroundNoteKind::Hold => true,
        _ => false,
    }
}

/// Flicks and sky areas are in the air.
pub fn is_air_kind(kind: GroundNoteKind) -> (b: bool)
    ensures
        b == (kind == GroundNoteKind::Flick || kind == GroundNoteKind::SkyArea),
{
    match kind {
        GroundNoteKind::Flick | GroundNoteKind::SkyArea => true,
        _ => false,
    }
}

/// The tap and hold tools place ground notes.
pub fn is_ground_tool(tool: PlaceNoteType) -> (b: bool)
    ensures
        b == (tool == PlaceNoteType::Tap || tool == PlaceNoteType::Hold),
{
    match tool {
        PlaceNoteType::Tap | PlaceNoteType::Hold => true,
        _ => false,
    }
}

/// The flick and sky area tools place air notes.
pub fn is_air_tool(tool: PlaceNoteType) -> (b: bool)
    ensures
        b == (tool == PlaceNoteType::Flick || tool == PlaceNoteType::SkyArea),
{
    match tool {
        PlaceNoteType::Flick | PlaceNoteType::SkyArea => true,
        _ => false,
    }
}

/// Every note kind is either on the ground or in the air, never both.
pub proof fn lemma_kind_partition(kind: GroundNoteKind)
    ensures
        (kind == GroundNoteKind::Tap || kind == GroundNoteKind::Hold) != (kind
            == GroundNoteKind::Flick || kind == GroundNoteKind::SkyArea),
{
}

/// Kind of a line on the timeline grid.
#[derive(Debug, Clone, Copy, PartialEq, Eq, Structural)]
pub enum BarLineKind {
    Measure,
    Beat,
    Subdivision,
}

impl BarLineKind {
    /// Which line wins where two fall together: measure over beat over
    /// subdivision.
    pub fn priority(self) -> (p: u8)
        ensures
            p == (match self {
                BarLineKind::Measure => 3u8,
                BarLineKind::Beat => 2u8,
                BarLineKind::Subdivision => 1u8,
            }),
    {
        match self {
            BarLineKind::Measure => 3,
            BarLineKind::Beat => 2,
            BarLineKind::Subdivision => 1,
        }
    }
}

/// Ground lanes a tap or hold covers, from its width rounded to a whole
/// number: the side lanes (0 and 5 and beyond) always cover one lane, a
/// central lane covers at least one and at most the lanes up to lane 4.
pub open spec fn effective_width(lane: int, rounded_width: int) -> int {
    if lane == 0 || lane >= 5 {
        1
    } else if rounded_width < 1 {
        1
    } else if rounded_width > 5 - lane {
        5 - lane
    } else {
        rounded_width
    }
}

/// The number of ground lanes a note covers (see [`effective_width`]).
pub fn ground_note_effective_width(lane: usize, rounded_width: usize) -> (w: usize)
    ensures
        w == effective_width(lane as int, rounded_width as int),
        1 <= w <= 4,
        1 <= lane < 5 ==> lane + w <= 5,
{
    if lane == 0 || lane >= 5 {
        return 1;
    }
    let max_w = 5 - lane;
    if rounded_width < 1 {
        1
    } else if rounded_width > max_w {
        max_w
    } else {
        rounded_width
    }
}

/// The lane a ground note mirrors to: lane 0 with 5, 1 with 4, 2 with 3
/// (lanes past 5 count as 5).
pub open spec fn mirrored_lane(lane: int) -> int {
    5 - (if lane < 5 {
        lane
    } else {
        5
    })
}

/// Mirrors a ground note's lane (see [`mirrored_lane`]).
pub fn mirror_ground_lane(lane: usize) -> (m: usize)
    ensures
        m == mirrored_lane(lane as int),
{
    5 - if lane < 5 {
        lane
    } else {
        5
    }
}

/// Mirroring a ground lane of the playfield twice gives the lane back, and
/// a mirrored lane is always one of the playfield's ground lanes.
pub proof fn lemma_mirror_ground_lane_involution(lane: int)
    requires
        0 <= lane <= 5,
    ensures
        mirrored_lane(mirrored_lane(lane)) == lane,
        0 <= mirrored_lane(lane) <= 5,
{
}

/// The ground lane a chart's tap or hold lane names, when it is one of the
/// playfield's lanes.
pub fn ground_lane_of(lane: i32) -> (r: Option<usize>)
    ensures
        r == (if 0 <= lane < LANE_COUNT {
            Some(lane as usize)
        } else {
            None::<usize>
        }),
{
    if lane >= 0 && (lane as usize) < LANE_COUNT {
        Some(lane as usize)
    } else {
        None
    }
}

/// The snap divisions the editor offers.
pub const SNAP_DIVISION_OPTIONS: [u32; 12] = [1, 2, 3, 4, 6, 8, 12, 16, 24, 32, 48, 64];

/// Whether a snap division is one the editor offers.
pub fn is_snap_division_option(division: u32) -> (b: bool)
    ensures
        b == (division == 1 || division == 2 || division == 3 || division == 4 || division == 6
            || division == 8 || division == 12 || division == 16 || division == 24 || division
            == 32 || division == 48 || division == 64),
{
    let options = SNAP_DIVISION_OPTIONS;
    assert(options@ =~= seq![1u32, 2, 3, 4, 6, 8, 12, 16, 24, 32, 48, 64]);
    let mut i: usize = 0;
    while i < 12
        invariant
            0 <= i <= 12,
            options@ == seq![1u32, 2, 3, 4, 6, 8, 12, 16, 24, 32, 48, 64],
            forall|j: int| 0 <= j < i ==> options@[j] != division,
        decreases 12 - i,
    {
        if options[i] == division {
            return true;
        }
        i = i + 1;
    }
    false
}

} // verus!
