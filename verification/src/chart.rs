use vstd::prelude::*;
use crate::spc::EventKind;

verus! {

/// Code of `Ease::Linear` in the SPC format.
pub const EASE_LINEAR_CODE: i32 = 0;
/// Code of `Ease::SineOut` in the SPC format.
pub const EASE_SINE_OUT_CODE: i32 = 1;
/// Code of `Ease::SineIn` in the SPC format.
pub const EASE_SINE_IN_CODE: i32 = 2;
/// Code of `FlickType::Right` in the SPC format.
pub const FLICK_RIGHT_CODE: i32 = 4;
/// Code of `FlickType::Left` in the SPC format.
pub const FLICK_LEFT_CODE: i32 = 16;

/// Easing applied to the left/right edges of a SkyArea.
#[derive(Debug, Clone, Copy, PartialEq, Eq, Structural)]
pub enum Ease {
    Linear,
    SineOut,
    SineIn,
}

/// The ease that an SPC code stands for; unknown codes mean `Linear`.
pub open spec fn ease_of_code(v: i32) -> Ease {
    if v == EASE_SINE_OUT_CODE {
        Ease::SineOut
    } else if v == EASE_SINE_IN_CODE {
        Ease::SineIn
    } else {
        Ease::Linear
    }
}

/// The SPC code written for an ease.
pub open spec fn ease_code(e: Ease) -> i32 {
    match e {
        Ease::Linear => EASE_LINEAR_CODE,
        Ease::SineOut => EASE_SINE_OUT_CODE,
        Ease::SineIn => EASE_SINE_IN_CODE,
    }
}

impl Ease {
    /// Decodes an SPC ease code; unknown codes fall back to `Linear`.
    pub fn from_value(v: i32) -> (e: Self)
        ensures
            e == ease_of_code(v),
    {
        if v == EASE_SINE_OUT_CODE {
            Ease::SineOut
        } else if v == EASE_SINE_IN_CODE {
            Ease::SineIn
        } else {
            Ease::Linear
        }
    }

    /// Encodes an ease as its SPC code.
    pub fn to_value(self) -> (v: i32)
        ensures
            v == ease_code(self),
    {
        match self {
            Ease::Linear => EASE_LINEAR_CODE,
            Ease::SineOut => EASE_SINE_OUT_CODE,
            Ease::SineIn => EASE_SINE_IN_CODE,
        }
    }
}

/// Direction of a flick note.
#[derive(Debug, Clone, Copy, PartialEq, Eq, Structural)]
pub enum FlickType {
    Right,
    Left,
    Other(i32),
}

/// The flick type that an SPC code stands for; codes other than the two
/// directions are kept as they are.
pub open spec fn flick_of_code(v: i32) -> FlickType {
    if v == FLICK_RIGHT_CODE {
        FlickType::Right
    } else if v == FLICK_LEFT_CODE {
        FlickType::Left
    } else {
        FlickType::Other(v)
    }
}

/// The SPC code written for a flick type.
pub open spec fn flick_code(f: FlickType) -> i32 {
    match f {
        FlickType::Right => FLICK_RIGHT_CODE,
        FlickType::Left => FLICK_LEFT_CODE,
        FlickType::Other(v) => v,
    }
}

/// A flick type as decoding produces it: `Other` never holds a direction code.
pub open spec fn flick_is_canonical(f: FlickType) -> bool {
    match f {
        FlickType::Other(v) => v != FLICK_RIGHT_CODE && v != FLICK_LEFT_CODE,
        _ => true,
    }
}

impl FlickType {
    /// Decodes an SPC flick code.
    pub fn from_value(v: i32) -> (f: Self)
        ensures
            f == flick_of_code(v),
    {
        if v == FLICK_RIGHT_CODE {
            FlickType::Right
        } else if v == FLICK_LEFT_CODE {
            FlickType::Left
        } else {
            FlickType::Other(v)
        }
    }

    /// Encodes a flick type as its SPC code.
    pub fn to_value(self) -> (v: i32)
        ensures
            v == flick_code(self),
    {
        match self {
            FlickType::Right => FLICK_RIGHT_CODE,
            FlickType::Left => FLICK_LEFT_CODE,
            FlickType::Other(v) => v,
        }
    }
}

/// Writing an ease and reading it back gives the same ease.
pub proof fn lemma_ease_code_round_trip(e: Ease)
    ensures
        ease_of_code(ease_code(e)) == e,
{
}

/// Reading an ease code and writing it back gives the code exactly when the
/// code is one of the three known ones.
pub proof fn lemma_ease_decode_encode(v: i32)
    ensures
        (ease_code(ease_of_code(v)) == v) <==> (v == EASE_LINEAR_CODE || v == EASE_SINE_OUT_CODE
            || v == EASE_SINE_IN_CODE),
{
}

/// Every flick code survives reading and writing back.
pub proof fn lemma_flick_decode_encode(v: i32)
    ensures
        flick_code(flick_of_code(v)) == v,
        flick_is_canonical(flick_of_code(v)),
{
}

/// A canonical flick type survives writing and reading back.
pub proof fn lemma_flick_code_round_trip(f: FlickType)
    requires
        flick_is_canonical(f),
    ensures
        flick_of_code(flick_code(f)) == f,
{
}


/// The predicate "is of kind `k`".
pub open spec fn kind_is(k: EventKind) -> spec_fn(EventKind) -> bool {
    |x: EventKind| x == k
}

/// The number of events of kind `k`.
pub open spec fn count_kind(kinds: Seq<EventKind>, k: EventKind) -> nat {
    kinds.filter(kind_is(k)).len()
}

/// Whether `i` is the position of the first chart header.
pub open spec fn is_first_chart(kinds: Seq<EventKind>, i: int) -> bool {
    &&& 0 <= i < kinds.len()
    &&& kinds[i] == EventKind::Chart
    &&& forall|j: int| 0 <= j < i ==> kinds[j] != EventKind::Chart
}

/// The event kinds of a chart, in file order: what the chart's counts and
/// header lookup read.
pub struct ChartOutline {
    pub kinds: Vec<EventKind>,
}

proof fn lemma_count_push(s: Seq<EventKind>, x: EventKind, k: EventKind)
    ensures
        count_kind(s.push(x), k) == count_kind(s, k) + (if x == k {
            1nat
        } else {
            0nat
        }),
{
    s.lemma_filter_push(x, kind_is(k));
}

/// Events of three different kinds together are no more than all events.
pub proof fn lemma_three_counts_bounded(s: Seq<EventKind>, a: EventKind, b: EventKind, c: EventKind)
    requires
        a != b,
        b != c,
        a != c,
    ensures
        count_kind(s, a) + count_kind(s, b) + count_kind(s, c) <= s.len(),
    decreases s.len(),
{
    if s.len() > 0 {
        lemma_three_counts_bounded(s.drop_last(), a, b, c);
        assert(s =~= s.drop_last().push(s.last()));
        lemma_count_push(s.drop_last(), s.last(), a);
        lemma_count_push(s.drop_last(), s.last(), b);
        lemma_count_push(s.drop_last(), s.last(), c);
    } else {
        reveal(Seq::filter);
    }
}

impl ChartOutline {
    fn count_of(&self, k: EventKind) -> (n: usize)
        ensures
            n == count_kind(self.kinds@, k),
    {
        let mut n: usize = 0;
        for i in 0..self.kinds.len()
            invariant
                n == count_kind(self.kinds@.take(i as int), k),
                n <= i,
        {
            proof {
                assert(self.kinds@.take(i + 1) =~= self.kinds@.take(i as int).push(
                    self.kinds@[i as int],
                ));
                lemma_count_push(self.kinds@.take(i as int), self.kinds@[i as int], k);
            }
            if self.kinds[i] == k {
                n = n + 1;
            }
        }
        assert(self.kinds@.take(self.kinds.len() as int) =~= self.kinds@);
        n
    }

    /// Position of the first chart header, which holds the base BPM and
    /// beats per measure.
    pub fn chart_info_index(&self) -> (r: Option<usize>)
        ensures
            match r {
                Some(i) => is_first_chart(self.kinds@, i as int),
                None => forall|j: int| 0 <= j < self.kinds.len() ==> self.kinds@[j] != EventKind::Chart,
            },
    {
        for i in 0..self.kinds.len()
            invariant
                forall|j: int| 0 <= j < i ==> self.kinds@[j] != EventKind::Chart,
        {
            if self.kinds[i] == EventKind::Chart {
                return Some(i);
            }
        }
        None
    }

    /// Number of tap notes.
    pub fn tap_count(&self) -> (n: usize)
        ensures
            n == count_kind(self.kinds@, EventKind::Tap),
    {
        self.count_of(EventKind::Tap)
    }

    /// Number of hold notes.
    pub fn hold_count(&self) -> (n: usize)
        ensures
            n == count_kind(self.kinds@, EventKind::Hold),
    {
        self.count_of(EventKind::Hold)
    }

    /// Number of flick notes.
    pub fn flick_count(&self) -> (n: usize)
        ensures
            n == count_kind(self.kinds@, EventKind::Flick),
    {
        self.count_of(EventKind::Flick)
    }

    /// Number of sky areas.
    pub fn skyarea_count(&self) -> (n: usize)
        ensures
            n == count_kind(self.kinds@, EventKind::SkyArea),
    {
        self.count_of(EventKind::SkyArea)
    }

    /// Number of notes: taps, holds and flicks (sky areas are not counted).
    pub fn total_notes(&self) -> (n: usize)
        ensures
            n == count_kind(self.kinds@, EventKind::Tap) + count_kind(self.kinds@, EventKind::Hold)
                + count_kind(self.kinds@, EventKind::Flick),
            n <= self.kinds.len(),
    {
        proof {
            lemma_three_counts_bounded(
                self.kinds@,
                EventKind::Tap,
                EventKind::Hold,
                EventKind::Flick,
            );
        }
        let total = self.kinds.len();
        let taps = self.tap_count();
        let holds = self.hold_count();
        let flicks = self.flick_count();
        assert(taps + holds + flicks <= total);
        taps + holds + flicks
    }
}

/// Which optional fields a BPM line writes.
#[derive(Debug, Clone, Copy, PartialEq, Eq, Structural)]
pub enum BpmLineFields {
    /// `bpm(time,bpm)`
    TimeBpm,
    /// `bpm(time,bpm,beats)`
    TimeBpmBeats,
    /// `bpm(time,bpm,chart_beats,unknown)`: the beats of the chart header
    /// stand in for the missing beats.
    TimeBpmChartBeatsUnknown,
    /// `bpm(time,bpm,beats,unknown)`
    TimeBpmBeatsUnknown,
}

/// The fields a BPM line writes, from which of its optional fields hold
/// their "missing" default.
pub fn bpm_line_fields(beats_missing: bool, unknown_missing: bool) -> (f: BpmLineFields)
    ensures
        f == (if beats_missing && unknown_missing {
            BpmLineFields::TimeBpm
        } else if !beats_missing && unknown_missing {
            BpmLineFields::TimeBpmBeats
        } else if beats_missing {
            BpmLineFields::TimeBpmChartBeatsUnknown
        } else {
            BpmLineFields::TimeBpmBeatsUnknown
        }),
{
    if beats_missing && unknown_missing {
        BpmLineFields::TimeBpm
    } else if !beats_missing && unknown_missing {
        BpmLineFields::TimeBpmBeats
    } else if beats_missing && !unknown_missing {
        BpmLineFields::TimeBpmChartBeatsUnknown
    } else {
        BpmLineFields::TimeBpmBeatsUnknown
    }
}

} // verus!
