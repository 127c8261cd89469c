use vstd::prelude::*;
use crate::note_types::{effective_width, ground_note_effective_width, LANE_COUNT};
use crate::paste::{first_block, lemma_no_block, note_block};

verus! {

/// `v` brought into `lo..=hi` (as `Ord::clamp` does, for `lo <= hi`).
pub open spec fn clamp_int(v: int, lo: int, hi: int) -> int {
    if v < lo {
        lo
    } else if v > hi {
        hi
    } else {
        v
    }
}

pub open spec fn max_int(a: int, b: int) -> int {
    if a >= b {
        a
    } else {
        b
    }
}

pub open spec fn min_int(a: int, b: int) -> int {
    if a <= b {
        a
    } else {
        b
    }
}

/// The lanes a ground note of the given lane and rounded width may be
/// dragged to: a wide note (covering two lanes or more) stays within lane 1
/// and lane `5 - width` (at least lane 1), a narrow one within the six lanes.
pub open spec fn lane_bounds(lane: int, rounded_width: int) -> (int, int) {
    let w = effective_width(lane, rounded_width);
    if w > 1 {
        (1, max_int(5 - w, 1))
    } else {
        (0, 5)
    }
}

fn lane_bounds_exec(lane: usize, rounded_width: usize) -> (r: (i32, i32))
    ensures
        r.0 == lane_bounds(lane as int, rounded_width as int).0,
        r.1 == lane_bounds(lane as int, rounded_width as int).1,
        0 <= r.0 <= r.1 <= 5,
{
    let w = ground_note_effective_width(lane, rounded_width);
    if w > 1 {
        let top: i32 = 5 - w as i32;
        (1, if top >= 1 {
            top
        } else {
            1
        })
    } else {
        (0, 5)
    }
}

/// A ground note covering two or more lanes may be dragged to lanes 1 up to
/// `5 - width` (so it never covers a side lane); a one-lane note to any of
/// the six lanes.
pub proof fn lemma_drag_lane_bounds(lane: int, rounded_width: int)
    requires
        0 <= lane,
    ensures
        effective_width(lane, rounded_width) >= 2 ==> lane_bounds(lane, rounded_width) == (
        1int, 5 - effective_width(lane, rounded_width)),
        effective_width(lane, rounded_width) >= 2 ==> 5 - effective_width(lane, rounded_width) >= 1,
        effective_width(lane, rounded_width) == 1 ==> lane_bounds(lane, rounded_width) == (
        0int, 5int),
{
}

/// The lane a dragged ground note goes to: the lane under the pointer less
/// the offset at which it was grabbed, kept within the note's lane bounds
/// (see [`lane_bounds`], taken at the note's current lane and width).
pub fn dragged_ground_lane(
    mouse_lane: i32,
    lane_offset: i32,
    note_lane: usize,
    rounded_width: usize,
) -> (lane: usize)
    requires
        i32::MIN <= mouse_lane - lane_offset <= i32::MAX,
    ensures
        lane == clamp_int(
            mouse_lane - lane_offset,
            lane_bounds(note_lane as int, rounded_width as int).0,
            lane_bounds(note_lane as int, rounded_width as int).1,
        ),
        lane < LANE_COUNT,
        effective_width(note_lane as int, rounded_width as int) >= 2 ==> lane == clamp_int(
            mouse_lane - lane_offset,
            1,
            5 - effective_width(note_lane as int, rounded_width as int),
        ),
        effective_width(note_lane as int, rounded_width as int) >= 2 ==> 1 <= lane && lane
            + effective_width(note_lane as int, rounded_width as int) <= 5,
        effective_width(note_lane as int, rounded_width as int) == 1 ==> lane == clamp_int(
            mouse_lane - lane_offset,
            0,
            5,
        ),
{
    proof {
        lemma_drag_lane_bounds(note_lane as int, rounded_width as int);
    }
    let target = mouse_lane - lane_offset;
    let (lo, hi) = lane_bounds_exec(note_lane, rounded_width);
    let lane = if target < lo {
        lo
    } else if target > hi {
        hi
    } else {
        target
    };
    lane as usize
}

/// A note taking part in a multi-note drag: its id, its lane and rounded
/// width when the drag started, and whether it is a ground note (one that
/// moves across lanes).
#[derive(Debug, Clone, Copy, PartialEq, Eq, Structural)]
pub struct LaneDragBinding {
    pub note_id: u64,
    pub original_lane: usize,
    pub rounded_width: usize,
    pub is_ground: bool,
}

/// Every note is on one of the playfield's lanes.
pub open spec fn lanes_in_field(bs: Seq<LaneDragBinding>) -> bool {
    forall|i: int| 0 <= i < bs.len() ==> (#[trigger] bs[i]).original_lane < LANE_COUNT
}

/// The smallest lane shift that keeps every ground note within its bounds
/// (`i32::MIN` when there is no ground note).
pub open spec fn shift_lo(bs: Seq<LaneDragBinding>) -> int
    decreases bs.len(),
{
    if bs.len() == 0 {
        i32::MIN as int
    } else {
        let b = bs.last();
        let r = shift_lo(bs.drop_last());
        if b.is_ground {
            max_int(r, lane_bounds(b.original_lane as int, b.rounded_width as int).0 - b.original_lane)
        } else {
            r
        }
    }
}

/// The largest lane shift that keeps every ground note within its bounds
/// (`i32::MAX` when there is no ground note).
pub open spec fn shift_hi(bs: Seq<LaneDragBinding>) -> int
    decreases bs.len(),
{
    if bs.len() == 0 {
        i32::MAX as int
    } else {
        let b = bs.last();
        let r = shift_hi(bs.drop_last());
        if b.is_ground {
            min_int(r, lane_bounds(b.original_lane as int, b.rounded_width as int).1 - b.original_lane)
        } else {
            r
        }
    }
}

/// The lane the drag's anchor note started on: the first binding with the
/// anchor's id, else lane 0.
pub open spec fn anchor_lane(bs: Seq<LaneDragBinding>, anchor_note_id: u64) -> int {
    match bs.map_values(|b: LaneDragBinding| b.note_id).index_of_first(anchor_note_id) {
        Some(k) => bs[k].original_lane as int,
        None => 0,
    }
}

proof fn lemma_shift_bounds(bs: Seq<LaneDragBinding>)
    requires
        lanes_in_field(bs),
    ensures
        i32::MIN <= shift_lo(bs) <= 0 <= shift_hi(bs) <= i32::MAX,
        forall|i: int|
            0 <= i < bs.len() && (#[trigger] bs[i]).is_ground ==> {
                &&& shift_lo(bs) >= lane_bounds(bs[i].original_lane as int, bs[i].rounded_width as int).0
                    - bs[i].original_lane
                &&& shift_hi(bs) <= lane_bounds(bs[i].original_lane as int, bs[i].rounded_width as int).1
                    - bs[i].original_lane
            },
    decreases bs.len(),
{
    if bs.len() > 0 {
        let init = bs.drop_last();
        assert forall|i: int| 0 <= i < init.len() implies (#[trigger] init[i]).original_lane < LANE_COUNT by {
            assert(init[i] == bs[i]);
        }
        lemma_shift_bounds(init);
        assert(bs.last() == bs[bs.len() - 1]);
        assert forall|i: int|
            0 <= i < bs.len() && (#[trigger] bs[i]).is_ground implies {
                &&& shift_lo(bs) >= lane_bounds(bs[i].original_lane as int, bs[i].rounded_width as int).0
                    - bs[i].original_lane
                &&& shift_hi(bs) <= lane_bounds(bs[i].original_lane as int, bs[i].rounded_width as int).1
                    - bs[i].original_lane
            } by {
            if i < bs.len() - 1 {
                assert(init[i] == bs[i]);
            }
        }
    }
}

/// The lane shift of a multi-note drag: the pointer's lane less the grab
/// offset gives the lane wanted for the anchor note; the shift from the
/// anchor's lane is then kept within what every ground note allows, so
/// each ground note stays within its lane bounds.
pub fn multi_drag_lane_shift(
    bindings: &Vec<LaneDragBinding>,
    anchor_note_id: u64,
    mouse_lane: i32,
    lane_offset: i32,
) -> (shift: i32)
    requires
        lanes_in_field(bindings@),
        i32::MIN <= mouse_lane - lane_offset <= i32::MAX,
        i32::MIN <= mouse_lane - lane_offset - anchor_lane(bindings@, anchor_note_id) <= i32::MAX,
    ensures
        shift == clamp_int(
            mouse_lane - lane_offset - anchor_lane(bindings@, anchor_note_id),
            shift_lo(bindings@),
            shift_hi(bindings@),
        ),
        forall|i: int|
            0 <= i < bindings@.len() && (#[trigger] bindings@[i]).is_ground ==> {
                let b = lane_bounds(bindings@[i].original_lane as int, bindings@[i].rounded_width as int);
                b.0 <= bindings@[i].original_lane + shift <= b.1
            },
        forall|i: int|
            0 <= i < bindings@.len() && (#[trigger] bindings@[i]).is_ground ==> {
                let w = effective_width(bindings@[i].original_lane as int, bindings@[i].rounded_width as int);
                let l = bindings@[i].original_lane + shift;
                &&& w >= 2 ==> 1 <= l && l + w <= 5
                &&& w == 1 ==> 0 <= l <= 5
            },
{
    proof {
        assert forall|i: int| 0 <= i < bindings@.len() implies #[trigger] lane_bounds(
            bindings@[i].original_lane as int,
            bindings@[i].rounded_width as int,
        ) == lane_bounds(bindings@[i].original_lane as int, bindings@[i].rounded_width as int) by {
            lemma_drag_lane_bounds(bindings@[i].original_lane as int, bindings@[i].rounded_width as int);
        }
    }
    let ghost ids = bindings@.map_values(|b: LaneDragBinding| b.note_id);
    proof {
        ids.index_of_first_ensures(anchor_note_id);
        lemma_shift_bounds(bindings@);
    }
    let mut anchor: i32 = 0;
    let mut k: usize = 0;
    while k < bindings.len()
        invariant_except_break
            0 <= k <= bindings.len(),
            anchor == 0,
            forall|j: int| 0 <= j < k ==> ids[j] != anchor_note_id,
        invariant
            ids == bindings@.map_values(|b: LaneDragBinding| b.note_id),
            lanes_in_field(bindings@),
            match ids.index_of_first(anchor_note_id) {
                Some(index) => {
                    &&& ids.contains(anchor_note_id)
                    &&& 0 <= index < ids.len()
                    &&& ids[index] == anchor_note_id
                    &&& forall|j: int| 0 <= j < index < ids.len() ==> ids[j] != anchor_note_id
                },
                None => !ids.contains(anchor_note_id),
            },
        ensures
            anchor == anchor_lane(bindings@, anchor_note_id),
        decreases bindings.len() - k,
    {
        if bindings[k].note_id == anchor_note_id {
            assert(ids[k as int] == anchor_note_id);
            anchor = bindings[k].original_lane as i32;
            break;
        }
        k = k + 1;
    }
    let desired = mouse_lane - lane_offset - anchor;
    let mut lo: i32 = i32::MIN;
    let mut hi: i32 = i32::MAX;
    for i in 0..bindings.len()
        invariant
            lanes_in_field(bindings@),
            lo == shift_lo(bindings@.take(i as int)),
            hi == shift_hi(bindings@.take(i as int)),
    {
        proof {
            let t = bindings@.take(i + 1);
            assert(t.drop_last() =~= bindings@.take(i as int));
            assert(t.last() == bindings@[i as int]);
        }
        let b = bindings[i];
        if b.is_ground {
            let (blo, bhi) = lane_bounds_exec(b.original_lane, b.rounded_width);
            let orig = b.original_lane as i32;
            let l = blo - orig;
            let h = bhi - orig;
            if l > lo {
                lo = l;
            }
            if h < hi {
                hi = h;
            }
        }
    }
    assert(bindings@.take(bindings.len() as int) =~= bindings@);
    if desired < lo {
        lo
    } else if desired > hi {
        hi
    } else {
        desired
    }
}

/// A copied note, as pasting reads it for the lane shift: its lane, its
/// width rounded to a whole number, and whether it is a ground note.
#[derive(Debug, Clone, Copy, PartialEq, Eq, Structural)]
pub struct PasteLaneNote {
    pub lane: usize,
    pub rounded_width: usize,
    pub is_ground: bool,
}

/// `v` saturated into the range of `i32`.
pub open spec fn saturate_i32(v: int) -> int {
    clamp_int(v, i32::MIN as int, i32::MAX as int)
}

/// The lanes a pasted ground note may land on, from its intended width (the
/// rounded width, at least 1): a wide note within lane 1 and lane
/// `5 - width` (at least lane 1), a narrow one within the six lanes.
pub open spec fn paste_lane_bounds(rounded_width: usize) -> (int, int) {
    let w: usize = if rounded_width < 1 {
        1
    } else {
        rounded_width
    };
    if w > 1 {
        (1, max_int(saturate_i32(5 - (w as i32) as int), 1))
    } else {
        (0, 5)
    }
}

/// The pasted notes after the lane shift: ground notes moved across lanes
/// by `shift`, air notes as they are.
pub open spec fn shifted_notes(ns: Seq<PasteLaneNote>, shift: int) -> Seq<PasteLaneNote> {
    ns.map_values(
        |n: PasteLaneNote|
            if n.is_ground {
                PasteLaneNote { lane: (n.lane + shift) as usize, ..n }
            } else {
                n
            },
    )
}

/// The intended width of a pasted note: its rounded width, at least 1.
pub open spec fn intended_width(rounded_width: usize) -> int {
    if rounded_width < 1 {
        1
    } else {
        rounded_width as int
    }
}

/// A pasted ground note of intended width 2 or more may land on lanes 1 up
/// to `5 - width` (lane 1 alone when it is wider than 4); a one-lane note on
/// any of the six lanes.
pub proof fn lemma_paste_lane_bounds(rounded_width: usize)
    ensures
        intended_width(rounded_width) >= 2 ==> paste_lane_bounds(rounded_width).0 == 1,
        2 <= intended_width(rounded_width) <= 4 ==> paste_lane_bounds(rounded_width).1 == 5
            - intended_width(rounded_width),
        5 <= intended_width(rounded_width) <= i32::MAX ==> paste_lane_bounds(rounded_width).1 == 1,
        intended_width(rounded_width) == 1 ==> paste_lane_bounds(rounded_width) == (0int, 5int),
{
}

/// Smallest lane shift that every pasted ground note allows.
pub open spec fn paste_shift_lo(ns: Seq<PasteLaneNote>) -> int
    decreases ns.len(),
{
    if ns.len() == 0 {
        i32::MIN as int
    } else {
        let n = ns.last();
        let r = paste_shift_lo(ns.drop_last());
        if n.is_ground {
            max_int(r, paste_lane_bounds(n.rounded_width).0 - n.lane)
        } else {
            r
        }
    }
}

/// Largest lane shift that every pasted ground note allows.
pub open spec fn paste_shift_hi(ns: Seq<PasteLaneNote>) -> int
    decreases ns.len(),
{
    if ns.len() == 0 {
        i32::MAX as int
    } else {
        let n = ns.last();
        let r = paste_shift_hi(ns.drop_last());
        if n.is_ground {
            min_int(r, paste_lane_bounds(n.rounded_width).1 - n.lane)
        } else {
            r
        }
    }
}

fn paste_lane_bounds_exec(rounded_width: usize) -> (r: (i32, i32))
    ensures
        r.0 == paste_lane_bounds(rounded_width).0,
        r.1 == paste_lane_bounds(rounded_width).1,
        0 <= r.0 <= 1,
        1 <= r.1,
{
    let w: usize = if rounded_width < 1 {
        1
    } else {
        rounded_width
    };
    if w > 1 {
        let wide: i64 = 5i64 - (w as i32) as i64;
        let top: i32 = if wide > i32::MAX as i64 {
            i32::MAX
        } else if wide < i32::MIN as i64 {
            i32::MIN
        } else {
            wide as i32
        };
        (1, if top >= 1 {
            top
        } else {
            1
        })
    } else {
        (0, 5)
    }
}

/// The lane shift when pasting ground notes: from the anchor note's lane to
/// the lane under the pointer, kept within what every pasted ground note
/// allows; when no shift fits them all, the notes are not moved across lanes.
pub fn paste_lane_shift(notes: &Vec<PasteLaneNote>, anchor_lane: usize, mouse_lane: i32) -> (shift: i32)
    requires
        anchor_lane < LANE_COUNT,
        forall|i: int| 0 <= i < notes@.len() ==> (#[trigger] notes@[i]).lane < LANE_COUNT,
        i32::MIN <= mouse_lane - anchor_lane,
    ensures
        shift == (if paste_shift_lo(notes@) > paste_shift_hi(notes@) {
            0
        } else {
            clamp_int(mouse_lane - anchor_lane, paste_shift_lo(notes@), paste_shift_hi(notes@))
        }),
        paste_shift_lo(notes@) <= paste_shift_hi(notes@) ==> forall|i: int|
            0 <= i < notes@.len() && (#[trigger] notes@[i]).is_ground ==> {
                let b = paste_lane_bounds(notes@[i].rounded_width);
                b.0 <= notes@[i].lane + shift <= b.1
            },
        paste_shift_lo(notes@) <= paste_shift_hi(notes@) ==> forall|i: int|
            0 <= i < notes@.len() && (#[trigger] notes@[i]).is_ground ==> {
                let w = intended_width(notes@[i].rounded_width);
                let l = notes@[i].lane + shift;
                &&& w >= 2 ==> l >= 1
                &&& 2 <= w <= 4 ==> l + w <= 5
                &&& 5 <= w <= i32::MAX ==> l == 1
                &&& w == 1 ==> 0 <= l <= 5
            },
        paste_shift_lo(notes@) <= paste_shift_hi(notes@) && (forall|i: int|
            0 <= i < notes@.len() ==> (#[trigger] notes@[i]).rounded_width <= 4) ==> first_block(
            shifted_notes(notes@, shift as int),
        ) is None,
{
    proof {
        assert forall|i: int| 0 <= i < notes@.len() implies #[trigger] paste_lane_bounds(
            notes@[i].rounded_width,
        ) == paste_lane_bounds(notes@[i].rounded_width) by {
            lemma_paste_lane_bounds(notes@[i].rounded_width);
        }
    }
    let desired = mouse_lane - anchor_lane as i32;
    let mut lo: i32 = i32::MIN;
    let mut hi: i32 = i32::MAX;
    for i in 0..notes.len()
        invariant
            forall|j: int| 0 <= j < notes@.len() ==> (#[trigger] notes@[j]).lane < LANE_COUNT,
            lo == paste_shift_lo(notes@.take(i as int)),
            hi == paste_shift_hi(notes@.take(i as int)),
            forall|j: int|
                0 <= j < i && (#[trigger] notes@[j]).is_ground ==> {
                    &&& lo >= paste_lane_bounds(notes@[j].rounded_width).0 - notes@[j].lane
                    &&& hi <= paste_lane_bounds(notes@[j].rounded_width).1 - notes@[j].lane
                },
    {
        proof {
            let t = notes@.take(i + 1);
            assert(t.drop_last() =~= notes@.take(i as int));
            assert(t.last() == notes@[i as int]);
        }
        let n = notes[i];
        if n.is_ground {
            let (blo, bhi) = paste_lane_bounds_exec(n.rounded_width);
            let lane = n.lane as i32;
            let l = blo - lane;
            let h = bhi - lane;
            if l > lo {
                lo = l;
            }
            if h < hi {
                hi = h;
            }
        }
    }
    assert(notes@.take(notes.len() as int) =~= notes@);
    let shift = if lo > hi {
        0
    } else if desired < lo {
        lo
    } else if desired > hi {
        hi
    } else {
        desired
    };
    proof {
        if lo <= hi && (forall|i: int| 0 <= i < notes@.len() ==> (#[trigger] notes@[i]).rounded_width <= 4) {
            let sh = shifted_notes(notes@, shift as int);
            assert forall|i: int| 0 <= i < sh.len() implies note_block(#[trigger] sh[i]) is None by {
                let n = notes@[i];
                lemma_paste_lane_bounds(n.rounded_width);
                assert(n.rounded_width <= 4);
            }
            lemma_no_block(sh);
        }
    }
    shift
}

} // verus!
