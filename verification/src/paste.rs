use vstd::prelude::*;
use crate::lane_drag::PasteLaneNote;

verus! {

/// Why a paste is refused.
#[derive(Debug, Clone, Copy, PartialEq, Eq, Structural)]
pub enum PasteBlock {
    /// A wide ground note would land on a side lane (lane 0, or 5 and beyond).
    WideOnSideLane,
    /// A wide ground note would reach past lane 4.
    PastLastLane,
}

/// What blocks pasting one note, if anything: only ground notes of an
/// intended width (rounded width, at least 1) above 1 are checked.
pub open spec fn note_block(n: PasteLaneNote) -> Option<PasteBlock> {
    let w: int = if n.rounded_width < 1 {
        1
    } else {
        n.rounded_width as int
    };
    if !n.is_ground || w <= 1 {
        None
    } else if n.lane == 0 || n.lane >= 5 {
        Some(PasteBlock::WideOnSideLane)
    } else if n.lane + w > 5 {
        Some(PasteBlock::PastLastLane)
    } else {
        None
    }
}

/// What blocks a paste: the block of the first note that has one.
pub open spec fn first_block(ns: Seq<PasteLaneNote>) -> Option<PasteBlock>
    decreases ns.len(),
{
    if ns.len() == 0 {
        None
    } else {
        match note_block(ns[0]) {
            Some(b) => Some(b),
            None => first_block(ns.drop_first()),
        }
    }
}

proof fn lemma_first_block_step(ns: Seq<PasteLaneNote>, i: int)
    requires
        0 <= i < ns.len(),
    ensures
        first_block(ns.subrange(i, ns.len() as int)) == (match note_block(ns[i]) {
            Some(b) => Some(b),
            None => first_block(ns.subrange(i + 1, ns.len() as int)),
        }),
{
    assert(ns.subrange(i, ns.len() as int).drop_first() =~= ns.subrange(i + 1, ns.len() as int));
    assert(ns.subrange(i, ns.len() as int)[0] == ns[i]);
}

/// A paste with no note that blocks it is not refused.
pub proof fn lemma_no_block(ns: Seq<PasteLaneNote>)
    requires
        forall|i: int| 0 <= i < ns.len() ==> note_block(#[trigger] ns[i]) is None,
    ensures
        first_block(ns) is None,
    decreases ns.len(),
{
    if ns.len() > 0 {
        assert(note_block(ns[0]) is None);
        assert forall|i: int| 0 <= i < ns.drop_first().len() implies note_block(
            #[trigger] ns.drop_first()[i],
        ) is None by {
            assert(ns.drop_first()[i] == ns[i + 1]);
        }
        lemma_no_block(ns.drop_first());
    }
}

/// Checks the notes of a paste preview in order: the first wide ground note
/// on a side lane or reaching past lane 4 refuses the paste.
pub fn paste_block(notes: &Vec<PasteLaneNote>) -> (r: Option<PasteBlock>)
    ensures
        r == first_block(notes@),
{
    assert(notes@.subrange(0, notes@.len() as int) =~= notes@);
    for i in 0..notes.len()
        invariant
            first_block(notes@) == first_block(notes@.subrange(i as int, notes@.len() as int)),
    {
        proof {
            lemma_first_block_step(notes@.subrange(i as int, notes@.len() as int), 0);
            assert(notes@.subrange(i as int, notes@.len() as int).subrange(1, notes@.len() - i)
                =~= notes@.subrange(i + 1, notes@.len() as int));
        }
        let n = notes[i];
        if n.is_ground {
            let w: usize = if n.rounded_width < 1 {
                1
            } else {
                n.rounded_width
            };
            if w > 1 {
                if n.lane == 0 || n.lane >= 5 {
                    return Some(PasteBlock::WideOnSideLane);
                }
                if w > 5 - n.lane {
                    return Some(PasteBlock::PastLastLane);
                }
            }
        }
    }
    assert(notes@.subrange(notes@.len() as int, notes@.len() as int) =~= Seq::<PasteLaneNote>::empty());
    None
}

/// `a + b`, kept at `u64::MAX` when it would pass it.
pub open spec fn saturating_add_u64(a: int, b: int) -> int {
    if a + b > u64::MAX {
        u64::MAX as int
    } else {
        a + b
    }
}

/// Ids for `count` new notes, taken in turn from `next_id` (which stops at
/// `u64::MAX`), and the next id after them.
pub fn allocate_ids(next_id: u64, count: usize) -> (r: (Vec<u64>, u64))
    ensures
        r.0@.len() == count,
        forall|i: int| 0 <= i < count ==> #[trigger] r.0@[i] == saturating_add_u64(next_id as int, i),
        r.1 == saturating_add_u64(next_id as int, count as int),
{
    let mut ids: Vec<u64> = Vec::new();
    let mut next = next_id;
    for i in 0..count
        invariant
            ids@.len() == i,
            next == saturating_add_u64(next_id as int, i as int),
            forall|j: int| 0 <= j < i ==> #[trigger] ids@[j] == saturating_add_u64(next_id as int, j),
    {
        ids.push(next);
        next = if next == u64::MAX {
            u64::MAX
        } else {
            next + 1
        };
    }
    (ids, next)
}

} // verus!
