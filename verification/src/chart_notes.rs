use vstd::prelude::*;
use crate::note_types::LANE_COUNT;
use crate::spc::EventKind;

verus! {

/// What numbering reads of a chart event: its kind, and its lane for taps
/// and holds.
#[derive(Debug, Clone, Copy, PartialEq, Eq, Structural)]
pub struct ChartItem {
    pub kind: EventKind,
    pub lane: i32,
}

/// A chart event becomes an editor note: taps and holds on one of the
/// playfield's lanes, and every flick and sky area.
pub open spec fn becomes_note(item: ChartItem) -> bool {
    ||| (item.kind == EventKind::Tap || item.kind == EventKind::Hold) && 0 <= item.lane
        < LANE_COUNT
    ||| item.kind == EventKind::Flick
    ||| item.kind == EventKind::SkyArea
}

/// A chart event becomes a timeline event: chart headers, BPM, track and
/// lane events.
pub open spec fn becomes_event(item: ChartItem) -> bool {
    ||| item.kind == EventKind::Chart
    ||| item.kind == EventKind::Bpm
    ||| item.kind == EventKind::Track
    ||| item.kind == EventKind::Lane
}

/// Which chart events become notes: a tap or hold exactly when its lane is
/// one of the playfield's lanes `0..LANE_COUNT`, every flick and sky area,
/// and nothing else.
pub proof fn lemma_which_events_become_notes(item: ChartItem)
    ensures
        item.kind == EventKind::Tap || item.kind == EventKind::Hold ==> (becomes_note(item) <==> (0
            <= item.lane && item.lane < LANE_COUNT)),
        item.kind == EventKind::Flick || item.kind == EventKind::SkyArea ==> becomes_note(item),
        !(item.kind == EventKind::Tap || item.kind == EventKind::Hold || item.kind
            == EventKind::Flick || item.kind == EventKind::SkyArea) ==> !becomes_note(item),
{
}

/// How many of `s` become notes.
pub open spec fn notes_in(s: Seq<ChartItem>) -> nat
    decreases s.len(),
{
    if s.len() == 0 {
        0
    } else {
        notes_in(s.drop_last()) + if becomes_note(s.last()) {
            1nat
        } else {
            0nat
        }
    }
}

/// How many of `s` become timeline events.
pub open spec fn events_in(s: Seq<ChartItem>) -> nat
    decreases s.len(),
{
    if s.len() == 0 {
        0
    } else {
        events_in(s.drop_last()) + if becomes_event(s.last()) {
            1nat
        } else {
            0nat
        }
    }
}

proof fn lemma_counts_bounded(s: Seq<ChartItem>)
    ensures
        notes_in(s) <= s.len(),
        events_in(s) <= s.len(),
    decreases s.len(),
{
    if s.len() > 0 {
        lemma_counts_bounded(s.drop_last());
    }
}

/// Which chart events become timeline events: chart headers, BPM changes,
/// track speeds and lane switches, and nothing else.
pub proof fn lemma_which_events_become_timeline_events(item: ChartItem)
    ensures
        becomes_event(item) <==> (item.kind == EventKind::Chart || item.kind == EventKind::Bpm
            || item.kind == EventKind::Track || item.kind == EventKind::Lane),
{
}

proof fn lemma_counts_between(s: Seq<ChartItem>, i: int, j: int)
    requires
        0 <= i <= j <= s.len(),
    ensures
        (forall|k: int| i <= k < j ==> !becomes_note(#[trigger] s[k])) ==> notes_in(s.take(j))
            == notes_in(s.take(i)),
        (forall|k: int| i <= k < j ==> !becomes_event(#[trigger] s[k])) ==> events_in(s.take(j))
            == events_in(s.take(i)),
        i < j ==> notes_in(s.take(i + 1)) == notes_in(s.take(i)) + (if becomes_note(s[i]) {
            1nat
        } else {
            0nat
        }),
        i < j ==> events_in(s.take(i + 1)) == events_in(s.take(i)) + (if becomes_event(s[i]) {
            1nat
        } else {
            0nat
        }),
    decreases j - i,
{
    if i < j {
        assert(s.take(i + 1).drop_last() =~= s.take(i));
        assert(s.take(i + 1).last() == s[i]);
        lemma_counts_between(s, i + 1, j);
    }
}

/// Numbering gives consecutive ids in file order, starting from 1: the
/// first event that becomes a note gets id 1, and each later one the id
/// after the previous note's (the same for timeline events).
pub proof fn lemma_ids_consecutive(s: Seq<ChartItem>, i: int, j: int)
    requires
        0 <= i < j < s.len(),
    ensures
        becomes_note(s[i]) && becomes_note(s[j]) && (forall|k: int|
            i < k < j ==> !becomes_note(#[trigger] s[k])) ==> notes_in(s.take(j)) == notes_in(
            s.take(i),
        ) + 1,
        becomes_event(s[i]) && becomes_event(s[j]) && (forall|k: int|
            i < k < j ==> !becomes_event(#[trigger] s[k])) ==> events_in(s.take(j)) == events_in(
            s.take(i),
        ) + 1,
        (forall|k: int| 0 <= k < i ==> !becomes_note(#[trigger] s[k])) ==> notes_in(s.take(i))
            == 0,
        (forall|k: int| 0 <= k < i ==> !becomes_event(#[trigger] s[k])) ==> events_in(s.take(i))
            == 0,
{
    lemma_counts_between(s, i, j);
    lemma_counts_between(s, i + 1, j);
    lemma_counts_between(s, 0, i);
    assert(s.take(0) =~= Seq::<ChartItem>::empty());
}

/// The ids a loaded chart gives out: notes and timeline events are each
/// numbered from 1 in file order.
pub struct ChartIds {
    /// The id of the note each event becomes, if it becomes one.
    pub note_ids: Vec<Option<u64>>,
    /// The id of the timeline event each event becomes, if it becomes one.
    pub event_ids: Vec<Option<u64>>,
    /// The id the next new note gets.
    pub next_note_id: u64,
    /// The id the next new timeline event gets.
    pub next_event_id: u64,
}

/// Numbers the notes and timeline events of a chart in file order, each
/// from 1; taps and holds off the playfield's lanes, beams and unknown lines
/// get no id.
pub fn number_chart(items: &Vec<ChartItem>) -> (r: ChartIds)
    requires
        items.len() < u64::MAX,
    ensures
        r.note_ids@.len() == items.len(),
        r.event_ids@.len() == items.len(),
        forall|i: int|
            0 <= i < items.len() ==> #[trigger] r.note_ids@[i] == (if becomes_note(items@[i]) {
                Some((1 + notes_in(items@.take(i))) as u64)
            } else {
                None
            }),
        forall|i: int|
            0 <= i < items.len() ==> #[trigger] r.event_ids@[i] == (if becomes_event(items@[i]) {
                Some((1 + events_in(items@.take(i))) as u64)
            } else {
                None
            }),
        r.next_note_id == 1 + notes_in(items@),
        r.next_event_id == 1 + events_in(items@),
        forall|i: int|
            0 <= i < items.len() && (items@[i].kind == EventKind::Tap || items@[i].kind
                == EventKind::Hold) ==> (#[trigger] r.note_ids@[i] is Some <==> (0 <= items@[i].lane
                && items@[i].lane < LANE_COUNT)),
        forall|i: int|
            0 <= i < items.len() && (items@[i].kind == EventKind::Flick || items@[i].kind
                == EventKind::SkyArea) ==> #[trigger] r.note_ids@[i] is Some,
        forall|i: int|
            0 <= i < items.len() && !(items@[i].kind == EventKind::Tap || items@[i].kind
                == EventKind::Hold || items@[i].kind == EventKind::Flick || items@[i].kind
                == EventKind::SkyArea) ==> #[trigger] r.note_ids@[i] is None,
        forall|i: int|
            0 <= i < items.len() ==> (#[trigger] r.event_ids@[i] is Some <==> (items@[i].kind
                == EventKind::Chart || items@[i].kind == EventKind::Bpm || items@[i].kind
                == EventKind::Track || items@[i].kind == EventKind::Lane)),
        forall|i: int|
            0 <= i < items.len() && #[trigger] r.note_ids@[i] is Some && (forall|k: int|
                0 <= k < i ==> r.note_ids@[k] is None) ==> r.note_ids@[i] == Some(1u64),
        forall|i: int, j: int|
            0 <= i < j < items.len() && #[trigger] r.note_ids@[i] is Some && #[trigger] r.note_ids@[j] is Some
                && (forall|k: int| i < k < j ==> r.note_ids@[k] is None) ==> r.note_ids@[j]->0
                == r.note_ids@[i]->0 + 1,
        forall|i: int|
            0 <= i < items.len() && #[trigger] r.event_ids@[i] is Some && (forall|k: int|
                0 <= k < i ==> r.event_ids@[k] is None) ==> r.event_ids@[i] == Some(1u64),
        forall|i: int, j: int|
            0 <= i < j < items.len() && #[trigger] r.event_ids@[i] is Some && #[trigger] r.event_ids@[j] is Some
                && (forall|k: int| i < k < j ==> r.event_ids@[k] is None) ==> r.event_ids@[j]->0
                == r.event_ids@[i]->0 + 1,
{
    let mut note_ids: Vec<Option<u64>> = Vec::new();
    let mut event_ids: Vec<Option<u64>> = Vec::new();
    let mut next_note: u64 = 1;
    let mut next_event: u64 = 1;
    for i in 0..items.len()
        invariant
            items.len() < u64::MAX,
            note_ids@.len() == i,
            event_ids@.len() == i,
            next_note == 1 + notes_in(items@.take(i as int)),
            next_event == 1 + events_in(items@.take(i as int)),
            forall|j: int|
                0 <= j < i ==> #[trigger] note_ids@[j] == (if becomes_note(items@[j]) {
                    Some((1 + notes_in(items@.take(j))) as u64)
                } else {
                    None
                }),
            forall|j: int|
                0 <= j < i ==> #[trigger] event_ids@[j] == (if becomes_event(items@[j]) {
                    Some((1 + events_in(items@.take(j))) as u64)
                } else {
                    None
                }),
    {
        let item = items[i];
        proof {
            let t = items@.take(i + 1);
            assert(t.drop_last() =~= items@.take(i as int));
            assert(t.last() == items@[i as int]);
            lemma_counts_bounded(items@.take(i as int));
        }
        let is_note = match item.kind {
            EventKind::Tap | EventKind::Hold => 0 <= item.lane && (item.lane as usize) < LANE_COUNT,
            EventKind::Flick | EventKind::SkyArea => true,
            _ => false,
        };
        let is_event = match item.kind {
            EventKind::Chart | EventKind::Bpm | EventKind::Track | EventKind::Lane => true,
            _ => false,
        };
        if is_note {
            note_ids.push(Some(next_note));
            next_note = next_note + 1;
        } else {
            note_ids.push(None);
        }
        if is_event {
            event_ids.push(Some(next_event));
            next_event = next_event + 1;
        } else {
            event_ids.push(None);
        }
    }
    assert(items@.take(items.len() as int) =~= items@);
    proof {
        assert forall|i: int| 0 <= i < items.len() implies #[trigger] becomes_note(items@[i])
            == becomes_note(items@[i]) by {
            lemma_which_events_become_notes(items@[i]);
            lemma_which_events_become_timeline_events(items@[i]);
        }
        assert forall|i: int|
            0 <= i < items.len() && #[trigger] note_ids@[i] is Some && (forall|k: int|
                0 <= k < i ==> note_ids@[k] is None) implies note_ids@[i] == Some(1u64) by {
            assert forall|k: int| 0 <= k < i implies !becomes_note(#[trigger] items@[k]) by {
                assert(note_ids@[k] is None);
            }
            lemma_counts_between(items@, 0, i);
            assert(items@.take(0) =~= Seq::<ChartItem>::empty());
        }
        assert forall|i: int|
            0 <= i < items.len() && #[trigger] event_ids@[i] is Some && (forall|k: int|
                0 <= k < i ==> event_ids@[k] is None) implies event_ids@[i] == Some(1u64) by {
            assert forall|k: int| 0 <= k < i implies !becomes_event(#[trigger] items@[k]) by {
                assert(event_ids@[k] is None);
            }
            lemma_counts_between(items@, 0, i);
            assert(items@.take(0) =~= Seq::<ChartItem>::empty());
        }
        assert forall|i: int, j: int|
            0 <= i < j < items.len() && #[trigger] note_ids@[i] is Some && #[trigger] note_ids@[j] is Some
                && (forall|k: int| i < k < j ==> note_ids@[k] is None) implies note_ids@[j]->0
                == note_ids@[i]->0 + 1 by {
            assert forall|k: int| i < k < j implies !becomes_note(#[trigger] items@[k]) by {
                assert(note_ids@[k] is None);
            }
            lemma_ids_consecutive(items@, i, j);
            lemma_counts_bounded(items@.take(j));
        }
        assert forall|i: int, j: int|
            0 <= i < j < items.len() && #[trigger] event_ids@[i] is Some && #[trigger] event_ids@[j] is Some
                && (forall|k: int| i < k < j ==> event_ids@[k] is None) implies event_ids@[j]->0
                == event_ids@[i]->0 + 1 by {
            assert forall|k: int| i < k < j implies !becomes_event(#[trigger] items@[k]) by {
                assert(event_ids@[k] is None);
            }
            lemma_ids_consecutive(items@, i, j);
            lemma_counts_bounded(items@.take(j));
        }
    }
    ChartIds { note_ids, event_ids, next_note_id: next_note, next_event_id: next_event }
}

/// Where a note sorts: its time as an integer key (ordered as
/// `f32::total_cmp` orders times), then its lane, then its id.
#[derive(Debug, Clone, Copy, PartialEq, Eq, Structural)]
pub struct NoteOrderKey {
    pub time: i32,
    pub lane: usize,
    pub id: u64,
}

/// `a` sorts no later than `b`: by time, then lane, then id.
pub open spec fn note_key_le(a: NoteOrderKey, b: NoteOrderKey) -> bool {
    ||| a.time < b.time
    ||| a.time == b.time && a.lane < b.lane
    ||| a.time == b.time && a.lane == b.lane && a.id <= b.id
}

/// Ordered by note key.
pub open spec fn notes_sorted<T>(s: Seq<(NoteOrderKey, T)>) -> bool {
    forall|i: int, j: int| 0 <= i < j < s.len() ==> note_key_le((#[trigger] s[i]).0, (#[trigger] s[j]).0)
}

/// The predicate "has note key `k`".
pub open spec fn has_note_key<T>(k: NoteOrderKey) -> spec_fn((NoteOrderKey, T)) -> bool {
    |p: (NoteOrderKey, T)| p.0 == k
}

fn note_key_le_exec(a: &NoteOrderKey, b: &NoteOrderKey) -> (r: bool)
    ensures
        r == note_key_le(*a, *b),
{
    if a.time != b.time {
        a.time < b.time
    } else if a.lane != b.lane {
        a.lane < b.lane
    } else {
        a.id <= b.id
    }
}

proof fn lemma_no_note_key<T>(s: Seq<(NoteOrderKey, T)>, p: spec_fn((NoteOrderKey, T)) -> bool)
    requires
        forall|i: int| 0 <= i < s.len() ==> !p(#[trigger] s[i]),
    ensures
        s.filter(p) == Seq::<(NoteOrderKey, T)>::empty(),
    decreases s.len(),
{
    reveal(Seq::filter);
    if s.len() > 0 {
        lemma_no_note_key(s.drop_last(), p);
    }
}

/// The editor's note order: sorted by time, then lane, then id, notes with
/// equal keys kept in the order given (with unique ids no two keys tie).
pub fn sort_notes<T>(items: Vec<(NoteOrderKey, T)>) -> (out: Vec<(NoteOrderKey, T)>)
    ensures
        out@.len() == items@.len(),
        notes_sorted(out@),
        forall|k: NoteOrderKey| #[trigger] out@.filter(has_note_key::<T>(k)) == items@.filter(
            has_note_key::<T>(k),
        ),
{
    let ghost orig = items@;
    let mut rest = items;
    let mut out: Vec<(NoteOrderKey, T)> = Vec::new();
    let ghost mut i: int = 0;
    while rest.len() > 0
        invariant
            0 <= i <= orig.len(),
            rest@ == orig.subrange(i, orig.len() as int),
            out@.len() == i,
            notes_sorted(out@),
            forall|k: NoteOrderKey| #[trigger] out@.filter(has_note_key::<T>(k)) == orig.take(
                i,
            ).filter(has_note_key::<T>(k)),
        decreases rest@.len(),
    {
        let item = rest.remove(0);
        assert(item == orig[i]);
        assert(rest@ =~= orig.subrange(i + 1, orig.len() as int));
        let key = item.0;
        let mut pos: usize = 0;
        while pos < out.len() && note_key_le_exec(&out[pos].0, &key)
            invariant
                0 <= pos <= out.len(),
                forall|j: int| 0 <= j < pos ==> note_key_le((#[trigger] out@[j]).0, key),
            decreases out.len() - pos,
        {
            pos = pos + 1;
        }
        let ghost old_out = out@;
        proof {
            assert forall|j: int| pos <= j < old_out.len() implies !note_key_le(
                (#[trigger] old_out[j]).0,
                key,
            ) by {
                assert(!note_key_le(old_out[pos as int].0, key));
                if j > pos {
                    assert(note_key_le(old_out[pos as int].0, old_out[j].0));
                }
            }
        }
        out.insert(pos, item);
        proof {
            let a = old_out.subrange(0, pos as int);
            let b = old_out.subrange(pos as int, old_out.len() as int);
            assert(old_out =~= a + b);
            assert(out@ =~= a.push(item) + b);
            assert forall|j: int, k: int| 0 <= j < k < out@.len() implies note_key_le(
                (#[trigger] out@[j]).0,
                (#[trigger] out@[k]).0,
            ) by {
                if k < pos {
                    assert(out@[j] == old_out[j] && out@[k] == old_out[k]);
                } else if k == pos {
                    assert(out@[j] == old_out[j]);
                } else if j < pos {
                    assert(out@[j] == old_out[j] && out@[k] == old_out[k - 1]);
                } else if j == pos {
                    assert(out@[k] == old_out[k - 1]);
                } else {
                    assert(out@[j] == old_out[j - 1] && out@[k] == old_out[k - 1]);
                }
            }
            assert(orig.take(i + 1) =~= orig.take(i).push(item));
            assert forall|k: NoteOrderKey| #[trigger] out@.filter(has_note_key::<T>(k)) == orig.take(
                i + 1,
            ).filter(has_note_key::<T>(k)) by {
                let p = has_note_key::<T>(k);
                Seq::filter_distributes_over_add(a.push(item), b, p);
                Seq::filter_distributes_over_add(a, b, p);
                a.lemma_filter_push(item, p);
                orig.take(i).lemma_filter_push(item, p);
                assert(old_out.filter(p) == orig.take(i).filter(p));
                if p(item) {
                    assert forall|j: int| 0 <= j < b.len() implies !p(#[trigger] b[j]) by {
                        assert(b[j] == old_out[pos + j]);
                        assert(!note_key_le(old_out[pos + j].0, key));
                    }
                    lemma_no_note_key(b, p);
                    assert(a.filter(p) + b.filter(p) =~= a.filter(p));
                    assert(a.filter(p).push(item) + b.filter(p) =~= a.filter(p).push(item));
                }
            }
            i = i + 1;
        }
    }
    assert(orig.take(orig.len() as int) =~= orig);
    out
}

} // verus!
