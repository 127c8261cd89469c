use vstd::prelude::*;
use crate::hit::{HitScope, HitSignatureItem};
use std::collections::HashSet;

verus! {

/// What is remembered of the last click on overlapping notes, so that a
/// quick second click at the same spot steps to the next candidate.
/// (The time of the click is kept by the caller, which decides whether the
/// next click comes within the double-click window.)
pub struct OverlapCycleState {
    pub signature: Vec<HitSignatureItem>,
    pub current_index: usize,
    pub selected_item: HitSignatureItem,
    pub anchor_x: i32,
    pub anchor_y: i32,
    pub scope: HitScope,
    pub double_click_armed: bool,
}

/// What a click on a set of overlapping candidates decides.
pub struct OverlapClick {
    /// Position, among the candidates, of the one the click selects.
    pub index: usize,
    /// Whether the click stepped to the next candidate.
    pub did_cycle: bool,
    /// What to remember for the next click (nothing when there is a single
    /// candidate).
    pub cycle: Option<OverlapCycleState>,
}

/// The note ids of the candidates.
pub open spec fn note_ids(items: Seq<HitSignatureItem>) -> Seq<u64> {
    items.map_values(|x: HitSignatureItem| x.note_id)
}

/// Position of the first candidate of the selected note, if any.
pub open spec fn selected_position(items: Seq<HitSignatureItem>, selected: Option<u64>) -> Option<int> {
    match selected {
        Some(id) => note_ids(items).index_of_first(id),
        None => None,
    }
}

/// The remembered click was at the same spot, in the same scope, over the
/// same candidates.
pub open spec fn cycle_matches(
    prev: Option<OverlapCycleState>,
    scope: HitScope,
    anchor_x: i32,
    anchor_y: i32,
    signature: Seq<HitSignatureItem>,
) -> bool {
    match prev {
        Some(p) => p.scope == scope && p.anchor_x == anchor_x && p.anchor_y == anchor_y
            && p.signature@ == signature,
        None => false,
    }
}

/// Where the remembered selection stands among the current candidates: the
/// position of the same item, else the remembered position (kept in range).
pub open spec fn previous_position(items: Seq<HitSignatureItem>, p: OverlapCycleState) -> int {
    match items.index_of_first(p.selected_item) {
        Some(k) => k,
        None => if p.current_index < items.len() - 1 {
            p.current_index as int
        } else {
            items.len() - 1
        },
    }
}

/// Whether the click steps on: it repeats an armed click in time.
pub open spec fn click_cycles(
    items: Seq<HitSignatureItem>,
    signature: Seq<HitSignatureItem>,
    scope: HitScope,
    anchor_x: i32,
    anchor_y: i32,
    prev: Option<OverlapCycleState>,
    within_double_click: bool,
) -> bool {
    cycle_matches(prev, scope, anchor_x, anchor_y, signature) && prev->Some_0.double_click_armed
        && within_double_click
}

/// The candidate a click on several overlapping candidates selects.
pub open spec fn click_index(
    items: Seq<HitSignatureItem>,
    signature: Seq<HitSignatureItem>,
    scope: HitScope,
    anchor_x: i32,
    anchor_y: i32,
    selected: Option<u64>,
    prev: Option<OverlapCycleState>,
    within_double_click: bool,
) -> int {
    let s = selected_position(items, selected);
    if cycle_matches(prev, scope, anchor_x, anchor_y, signature) {
        let q = previous_position(items, prev->Some_0);
        if prev->Some_0.double_click_armed && within_double_click {
            (q + 1) % (items.len() as int)
        } else {
            match s {
                Some(k) => k,
                None => q,
            }
        }
    } else {
        match s {
            Some(k) => k,
            None => 0,
        }
    }
}

/// Whether the next click at the same spot may step on.
pub open spec fn click_arms(
    items: Seq<HitSignatureItem>,
    signature: Seq<HitSignatureItem>,
    scope: HitScope,
    anchor_x: i32,
    anchor_y: i32,
    selected: Option<u64>,
    prev: Option<OverlapCycleState>,
    within_double_click: bool,
) -> bool {
    if cycle_matches(prev, scope, anchor_x, anchor_y, signature) {
        !(prev->Some_0.double_click_armed && within_double_click)
    } else {
        selected_position(items, selected) is Some
    }
}

fn position_of_note(items: &Vec<HitSignatureItem>, id: u64) -> (r: Option<usize>)
    ensures
        match r {
            Some(k) => note_ids(items@).index_of_first(id) == Some(k as int),
            None => note_ids(items@).index_of_first(id) is None,
        },
{
    let ghost ids = note_ids(items@);
    proof {
        ids.index_of_first_ensures(id);
    }
    for i in 0..items.len()
        invariant
            ids == note_ids(items@),
            ids.len() == items.len(),
            forall|j: int| 0 <= j < i ==> ids[j] != id,
            match ids.index_of_first(id) {
                Some(index) => {
                    &&& ids.contains(id)
                    &&& 0 <= index < ids.len()
                    &&& ids[index] == id
                    &&& forall|j: int| 0 <= j < index < ids.len() ==> ids[j] != id
                },
                None => !ids.contains(id),
            },
    {
        if items[i].note_id == id {
            assert(ids[i as int] == id);
            return Some(i);
        }
    }
    proof {
        if ids.contains(id) {
            let k = choose|k: int| 0 <= k < ids.len() && ids[k] == id;
            assert(ids[k] != id);
        }
    }
    None
}

fn position_of_item(items: &Vec<HitSignatureItem>, item: HitSignatureItem) -> (r: Option<usize>)
    ensures
        match r {
            Some(k) => items@.index_of_first(item) == Some(k as int),
            None => items@.index_of_first(item) is None,
        },
{
    proof {
        items@.index_of_first_ensures(item);
    }
    for i in 0..items.len()
        invariant
            forall|j: int| 0 <= j < i ==> items@[j] != item,
            match items@.index_of_first(item) {
                Some(index) => {
                    &&& items@.contains(item)
                    &&& 0 <= index < items@.len()
                    &&& items@[index] == item
                    &&& forall|j: int| 0 <= j < index < items@.len() ==> items@[j] != item
                },
                None => !items@.contains(item),
            },
    {
        if items[i] == item {
            return Some(i);
        }
    }
    proof {
        if items@.contains(item) {
            let k = choose|k: int| 0 <= k < items@.len() && items@[k] == item;
            assert(items@[k] != item);
        }
    }
    None
}

fn same_items(a: &Vec<HitSignatureItem>, b: &Vec<HitSignatureItem>) -> (r: bool)
    ensures
        r == (a@ == b@),
{
    if a.len() != b.len() {
        return false;
    }
    for i in 0..a.len()
        invariant
            a.len() == b.len(),
            forall|j: int| 0 <= j < i ==> a@[j] == b@[j],
    {
        if a[i] != b[i] {
            return false;
        }
    }
    assert(a@ =~= b@);
    true
}

/// Decides which of the overlapping candidates under a click is selected,
/// and what to remember for the next click at the same spot. `items` are
/// the candidates in the order they were found, `signature` their canonical
/// order, `anchor_x`/`anchor_y` the quantized click position, and
/// `within_double_click` whether this click follows the remembered one
/// within the double-click window.
pub fn resolve_overlap_click(
    items: &Vec<HitSignatureItem>,
    signature: Vec<HitSignatureItem>,
    scope: HitScope,
    anchor_x: i32,
    anchor_y: i32,
    selected_note_id: Option<u64>,
    prev: &Option<OverlapCycleState>,
    within_double_click: bool,
) -> (r: OverlapClick)
    requires
        items.len() > 0,
    ensures
        r.index < items.len(),
        items.len() == 1 ==> r.index == 0 && !r.did_cycle && r.cycle is None,
        items.len() > 1 ==> {
            &&& r.index == click_index(
                items@,
                signature@,
                scope,
                anchor_x,
                anchor_y,
                selected_note_id,
                *prev,
                within_double_click,
            )
            &&& r.did_cycle == click_cycles(
                items@,
                signature@,
                scope,
                anchor_x,
                anchor_y,
                *prev,
                within_double_click,
            )
            &&& r.cycle matches Some(c) && {
                &&& c.signature@ == signature@
                &&& c.current_index == r.index
                &&& c.selected_item == items@[r.index as int]
                &&& c.anchor_x == anchor_x
                &&& c.anchor_y == anchor_y
                &&& c.scope == scope
                &&& c.double_click_armed == click_arms(
                    items@,
                    signature@,
                    scope,
                    anchor_x,
                    anchor_y,
                    selected_note_id,
                    *prev,
                    within_double_click,
                )
            }
        },
{
    let n = items.len();
    if n == 1 {
        return OverlapClick { index: 0, did_cycle: false, cycle: None };
    }
    let selected_index = match selected_note_id {
        Some(id) => position_of_note(items, id),
        None => None,
    };
    let mut index = match selected_index {
        Some(k) => k,
        None => 0,
    };
    let mut armed = selected_index.is_some();
    let mut did_cycle = false;
    proof {
        note_ids(items@).index_of_first_ensures(selected_note_id->Some_0);
        items@.index_of_first_ensures(prev->Some_0.selected_item);
    }
    if let Some(p) = prev {
        if p.scope == scope && p.anchor_x == anchor_x && p.anchor_y == anchor_y && same_items(
            &p.signature,
            &signature,
        ) {
            let previous = match position_of_item(items, p.selected_item) {
                Some(k) => k,
                None => if p.current_index < n - 1 {
                    p.current_index
                } else {
                    n - 1
                },
            };
            if p.double_click_armed && within_double_click {
                index = (previous + 1) % n;
                did_cycle = true;
                armed = false;
            } else {
                index = match selected_index {
                    Some(k) => k,
                    None => previous,
                };
                armed = true;
            }
        }
    }
    let selected_item = items[index];
    OverlapClick {
        index,
        did_cycle,
        cycle: Some(
            OverlapCycleState {
                signature,
                current_index: index,
                selected_item,
                anchor_x,
                anchor_y,
                scope,
                double_click_armed: armed,
            },
        ),
    }
}


/// The selected notes: the primary one, shown in the property panel, and
/// the set of all selected note ids.
pub struct NoteSelection {
    pub selected_note_id: Option<u64>,
    pub selected_note_ids: HashSet<u64>,
}

/// The first offset `o`, from `o` on up to the number of candidates, of a
/// candidate (counted on from `start`, wrapping around) that is not selected.
pub open spec fn first_unselected_offset(ids: Seq<u64>, start: int, set: Set<u64>, o: int) -> Option<
    int,
>
    decreases ids.len() - o,
{
    if o < 1 || o >= ids.len() {
        None
    } else if !set.contains(ids[(start + o) % (ids.len() as int)]) {
        Some(o)
    } else {
        first_unselected_offset(ids, start, set, o + 1)
    }
}

/// The note a shift-click acts on: the clicked candidate, or, when that one
/// is already selected, the next candidate over the same spot that is not.
pub open spec fn shift_click_target(ids: Seq<u64>, start: int, set: Set<u64>) -> u64 {
    let clicked = ids[start];
    if set.contains(clicked) && ids.len() > 1 {
        match first_unselected_offset(ids, start, set, 1) {
            Some(o) => ids[(start + o) % (ids.len() as int)],
            None => clicked,
        }
    } else {
        clicked
    }
}

/// The selection after a shift-click on note `t`: a selected `t` is taken
/// out and some remaining note (none when no note remains) becomes primary;
/// otherwise the previous primary note and `t` are both selected and `t`
/// becomes primary.
pub open spec fn shift_click_outcome(
    old_primary: Option<u64>,
    old_ids: Set<u64>,
    t: u64,
    new_primary: Option<u64>,
    new_ids: Set<u64>,
) -> bool {
    if old_ids.contains(t) {
        &&& new_ids == old_ids.remove(t)
        &&& (new_primary is None) == new_ids.is_empty()
        &&& new_primary matches Some(x) ==> new_ids.contains(x)
    } else {
        &&& new_ids == (match old_primary {
            Some(p) => old_ids.insert(p),
            None => old_ids,
        }).insert(t)
        &&& new_primary == Some(t)
    }
}

impl NoteSelection {
    /// Shift-click on the candidate at `selected_index` of `candidate_ids`:
    /// toggles the target note (see [`shift_click_target`]) in or out of
    /// the selection. Taking a note out makes some remaining note primary
    /// (which one follows the set's iteration order); putting one in keeps
    /// the previous primary note selected and makes the new one primary.
    pub fn shift_click(&mut self, candidate_ids: &Vec<u64>, selected_index: usize)
        requires
            selected_index < candidate_ids.len(),
        ensures
            shift_click_outcome(
                old(self).selected_note_id,
                old(self).selected_note_ids@,
                shift_click_target(candidate_ids@, selected_index as int, old(self).selected_note_ids@),
                final(self).selected_note_id,
                final(self).selected_note_ids@,
            ),
            old(self).selected_note_ids@.contains(candidate_ids@[selected_index as int]) && (exists|
                j: int,
            |
                0 <= j < candidate_ids@.len() && !old(self).selected_note_ids@.contains(
                    #[trigger] candidate_ids@[j],
                )) ==> (final(self).selected_note_id matches Some(x) && candidate_ids@.contains(x)
                && !old(self).selected_note_ids@.contains(x) && final(self).selected_note_ids@ == (
            match old(self).selected_note_id {
                Some(p) => old(self).selected_note_ids@.insert(p),
                None => old(self).selected_note_ids@,
            }).insert(x)),
            (forall|j: int|
                0 <= j < candidate_ids@.len() ==> old(self).selected_note_ids@.contains(
                    #[trigger] candidate_ids@[j],
                )) ==> final(self).selected_note_ids@ == old(self).selected_note_ids@.remove(
                candidate_ids@[selected_index as int],
            ),
            !old(self).selected_note_ids@.contains(candidate_ids@[selected_index as int])
                ==> final(self).selected_note_id == Some(candidate_ids@[selected_index as int])
                && final(self).selected_note_ids@ == (match old(self).selected_note_id {
                Some(p) => old(self).selected_note_ids@.insert(p),
                None => old(self).selected_note_ids@,
            }).insert(candidate_ids@[selected_index as int]),
            final(self).selected_note_id matches Some(x) ==> final(self).selected_note_ids@.contains(x),
            (forall|j: int|
                0 <= j < candidate_ids@.len() ==> old(self).selected_note_ids@.contains(
                    #[trigger] candidate_ids@[j],
                )) ==> (final(self).selected_note_id is None <==> final(self).selected_note_ids@.is_empty()),
    {
        broadcast use vstd::std_specs::hash::group_hash_axioms;

        proof {
            lemma_shift_click_target(candidate_ids@, selected_index as int, self.selected_note_ids@);
        }
        let n = candidate_ids.len();
        let clicked = candidate_ids[selected_index];
        let mut final_id = clicked;
        if self.selected_note_ids.contains(&clicked) && n > 1 {
            let mut offset: usize = 1;
            while offset < n
                invariant_except_break
                    1 <= offset <= n,
                    final_id == clicked,
                    first_unselected_offset(
                        candidate_ids@,
                        selected_index as int,
                        self.selected_note_ids@,
                        1,
                    ) == first_unselected_offset(
                        candidate_ids@,
                        selected_index as int,
                        self.selected_note_ids@,
                        offset as int,
                    ),
                invariant
                    n == candidate_ids.len(),
                    selected_index < n,
                    n > 1,
                    clicked == candidate_ids@[selected_index as int],
                    self.selected_note_ids@.contains(clicked),
                ensures
                    final_id == shift_click_target(
                        candidate_ids@,
                        selected_index as int,
                        self.selected_note_ids@,
                    ),
                decreases n - offset,
            {
                let idx = if offset < n - selected_index {
                    selected_index + offset
                } else {
                    offset - (n - selected_index)
                };
                assert(idx as int == (selected_index + offset) % (n as int)) by (nonlinear_arith)
                    requires
                        selected_index < n,
                        1 <= offset < n,
                        idx as int == if offset < n - selected_index {
                            selected_index + offset
                        } else {
                            offset - (n - selected_index)
                        },
                ;
                let cid = candidate_ids[idx];
                if !self.selected_note_ids.contains(&cid) {
                    final_id = cid;
                    break;
                }
                offset = offset + 1;
            }
        }
        if self.selected_note_ids.contains(&final_id) {
            self.selected_note_ids.remove(&final_id);
            let mut first: Option<u64> = None;
            for x in it: self.selected_note_ids.iter()
                invariant_except_break
                    first is None,
                    it.index() == 0,
                invariant
                    it.seq().unref().to_set() == self.selected_note_ids@,
                ensures
                    first is None ==> self.selected_note_ids@.is_empty(),
                    first matches Some(v) ==> self.selected_note_ids@.contains(v),
            {
                first = Some(*x);
                break;
            }
            self.selected_note_id = first;
        } else {
            if let Some(prev_id) = self.selected_note_id {
                self.selected_note_ids.insert(prev_id);
            }
            self.selected_note_ids.insert(final_id);
            self.selected_note_id = Some(final_id);
        }
    }
}


proof fn lemma_first_unselected_found(ids: Seq<u64>, start: int, set: Set<u64>, o: int, k: int)
    requires
        0 <= start < ids.len(),
        1 <= o <= k < ids.len(),
        !set.contains(ids[(start + k) % (ids.len() as int)]),
    ensures
        first_unselected_offset(ids, start, set, o) matches Some(r) && o <= r <= k && !set.contains(
            ids[(start + r) % (ids.len() as int)],
        ),
    decreases ids.len() - o,
{
    if set.contains(ids[(start + o) % (ids.len() as int)]) {
        lemma_first_unselected_found(ids, start, set, o + 1, k);
    }
}

proof fn lemma_first_unselected_none(ids: Seq<u64>, start: int, set: Set<u64>, o: int)
    requires
        0 <= start < ids.len(),
        1 <= o,
        forall|j: int| 0 <= j < ids.len() ==> set.contains(#[trigger] ids[j]),
    ensures
        first_unselected_offset(ids, start, set, o) is None,
    decreases ids.len() - o,
{
    if o < ids.len() {
        let idx = (start + o) % (ids.len() as int);
        assert(0 <= idx < ids.len());
        assert(set.contains(ids[idx]));
        lemma_first_unselected_none(ids, start, set, o + 1);
    }
}

/// A shift-click on a selected candidate acts on a candidate that is not
/// selected whenever one overlaps it (wherever it stands among the
/// candidates), and on the clicked one itself when all are selected.
pub proof fn lemma_shift_click_target(ids: Seq<u64>, start: int, set: Set<u64>)
    requires
        0 <= start < ids.len(),
    ensures
        ids.contains(shift_click_target(ids, start, set)),
        !set.contains(ids[start]) ==> shift_click_target(ids, start, set) == ids[start],
        set.contains(ids[start]) && (exists|j: int| 0 <= j < ids.len() && !set.contains(
            #[trigger] ids[j],
        )) ==> !set.contains(shift_click_target(ids, start, set)),
        (forall|j: int| 0 <= j < ids.len() ==> set.contains(#[trigger] ids[j]))
            ==> shift_click_target(ids, start, set) == ids[start],
{
    let n = ids.len() as int;
    assert(ids.contains(ids[start]));
    if set.contains(ids[start]) && n > 1 {
        if exists|j: int| 0 <= j < n && !set.contains(#[trigger] ids[j]) {
            let j = choose|j: int| 0 <= j < n && !set.contains(#[trigger] ids[j]);
            let k = if j > start {
                j - start
            } else {
                j - start + n
            };
            assert(j != start);
            assert((start + k) % n == j) by (nonlinear_arith)
                requires
                    0 <= start < n,
                    0 <= j < n,
                    k == (if j > start {
                        j - start
                    } else {
                        j - start + n
                    }),
            ;
            lemma_first_unselected_found(ids, start, set, 1, k);
        }
        if forall|j: int| 0 <= j < n ==> set.contains(#[trigger] ids[j]) {
            lemma_first_unselected_none(ids, start, set, 1);
        }
        match first_unselected_offset(ids, start, set, 1) {
            Some(o) => {
                lemma_first_unselected_in_range(ids, start, set, 1);
                let idx = (start + o) % n;
                assert(0 <= idx < n);
                assert(ids[idx] == shift_click_target(ids, start, set));
            },
            None => {},
        }
    }
}

proof fn lemma_first_unselected_in_range(ids: Seq<u64>, start: int, set: Set<u64>, o: int)
    requires
        0 <= start < ids.len(),
        1 <= o,
    ensures
        first_unselected_offset(ids, start, set, o) matches Some(r) ==> o <= r < ids.len()
            && !set.contains(ids[(start + r) % (ids.len() as int)]),
    decreases ids.len() - o,
{
    if o < ids.len() {
        lemma_first_unselected_in_range(ids, start, set, o + 1);
    }
}

impl NoteSelection {
    /// Nothing selected.
    pub fn clear(&mut self)
        ensures
            final(self).selected_note_id is None,
            final(self).selected_note_ids@ == Set::<u64>::empty(),
    {
        broadcast use vstd::std_specs::hash::group_hash_axioms;

        self.selected_note_id = None;
        self.selected_note_ids.clear();
    }

    /// A click where no note is: without Shift the set of selected notes is
    /// emptied, but the primary note stays for the property panel; with
    /// Shift nothing changes.
    pub fn blank_click(&mut self, shift_held: bool)
        ensures
            final(self).selected_note_id == old(self).selected_note_id,
            shift_held ==> final(self).selected_note_ids@ == old(self).selected_note_ids@,
            !shift_held ==> final(self).selected_note_ids@ == Set::<u64>::empty(),
    {
        broadcast use vstd::std_specs::hash::group_hash_axioms;

        if !shift_held {
            self.selected_note_ids.clear();
        }
    }

    /// A plain click on note `clicked`. When it is part of a selection of
    /// two or more notes, the selection is kept (the caller drags them all)
    /// and `true` comes back; otherwise it becomes the only selected note.
    /// Either way it becomes the primary note.
    pub fn plain_click(&mut self, clicked: u64) -> (multi: bool)
        ensures
            multi == (old(self).selected_note_ids@.len() >= 2 && old(
                self,
            ).selected_note_ids@.contains(clicked)),
            multi ==> final(self).selected_note_ids@ == old(self).selected_note_ids@,
            !multi ==> final(self).selected_note_ids@ == Set::<u64>::empty().insert(clicked),
            final(self).selected_note_id == Some(clicked),
    {
        broadcast use vstd::std_specs::hash::group_hash_axioms;

        if self.selected_note_ids.len() >= 2 && self.selected_note_ids.contains(&clicked) {
            self.selected_note_id = Some(clicked);
            true
        } else {
            self.selected_note_ids.clear();
            self.selected_note_ids.insert(clicked);
            self.selected_note_id = Some(clicked);
            false
        }
    }
}

/// Position shown in the "n/m" hint over overlapping notes: where the
/// remembered selection stands when the remembered click matches, else the
/// first candidate.
pub fn hover_hint_index(
    items: &Vec<HitSignatureItem>,
    signature: &Vec<HitSignatureItem>,
    scope: HitScope,
    anchor_x: i32,
    anchor_y: i32,
    prev: &Option<OverlapCycleState>,
) -> (r: usize)
    requires
        items.len() > 0,
    ensures
        r == (if cycle_matches(*prev, scope, anchor_x, anchor_y, signature@) {
            previous_position(items@, prev->Some_0)
        } else {
            0
        }),
{
    proof {
        items@.index_of_first_ensures(prev->Some_0.selected_item);
    }
    if let Some(p) = prev {
        if p.scope == scope && p.anchor_x == anchor_x && p.anchor_y == anchor_y && same_items(
            &p.signature,
            signature,
        ) {
            return match position_of_item(items, p.selected_item) {
                Some(k) => k,
                None => if p.current_index < items.len() - 1 {
                    p.current_index
                } else {
                    items.len() - 1
                },
            };
        }
    }
    0
}

/// What is remembered of the last click on overlapping timeline events in
/// one column (the click time stays with the caller).
pub struct EventOverlapCycle {
    pub candidates: Vec<u64>,
    pub current_index: usize,
    pub col: usize,
    pub anchor_y: i32,
    pub double_click_armed: bool,
}

/// What a click on several overlapping timeline events decides.
pub struct EventOverlapClick {
    pub index: usize,
    pub did_cycle: bool,
    pub cycle: EventOverlapCycle,
}

/// The remembered event click was in the same column and row over the same
/// events.
pub open spec fn event_cycle_matches(
    prev: Option<EventOverlapCycle>,
    ids: Seq<u64>,
    col: usize,
    anchor_y: i32,
) -> bool {
    match prev {
        Some(p) => p.col == col && p.anchor_y == anchor_y && p.candidates@ == ids,
        None => false,
    }
}

/// Where the remembered event selection stands among the candidates: the
/// first position of the event at the remembered position (kept in range).
pub open spec fn previous_event_position(ids: Seq<u64>, p: EventOverlapCycle) -> int {
    let at = if p.current_index < ids.len() - 1 {
        p.current_index as int
    } else {
        ids.len() - 1
    };
    ids.index_of_first(ids[at])->Some_0
}

/// The event a click on several overlapping events selects.
pub open spec fn event_click_index(
    ids: Seq<u64>,
    col: usize,
    anchor_y: i32,
    selected: Option<u64>,
    prev: Option<EventOverlapCycle>,
    within_double_click: bool,
) -> int {
    let s = match selected {
        Some(id) => ids.index_of_first(id),
        None => None,
    };
    if event_cycle_matches(prev, ids, col, anchor_y) {
        let q = previous_event_position(ids, prev->Some_0);
        if prev->Some_0.double_click_armed && within_double_click {
            (q + 1) % (ids.len() as int)
        } else {
            match s {
                Some(k) => k,
                None => q,
            }
        }
    } else {
        match s {
            Some(k) => k,
            None => 0,
        }
    }
}

fn position_of_id(ids: &Vec<u64>, id: u64) -> (r: Option<usize>)
    ensures
        match r {
            Some(k) => ids@.index_of_first(id) == Some(k as int),
            None => ids@.index_of_first(id) is None,
        },
{
    proof {
        ids@.index_of_first_ensures(id);
    }
    for i in 0..ids.len()
        invariant
            forall|j: int| 0 <= j < i ==> ids@[j] != id,
            match ids@.index_of_first(id) {
                Some(index) => {
                    &&& ids@.contains(id)
                    &&& 0 <= index < ids@.len()
                    &&& ids@[index] == id
                    &&& forall|j: int| 0 <= j < index < ids@.len() ==> ids@[j] != id
                },
                None => !ids@.contains(id),
            },
    {
        if ids[i] == id {
            return Some(i);
        }
    }
    proof {
        if ids@.contains(id) {
            let k = choose|k: int| 0 <= k < ids@.len() && ids@[k] == id;
            assert(ids@[k] != id);
        }
    }
    None
}

fn same_ids(a: &Vec<u64>, b: &Vec<u64>) -> (r: bool)
    ensures
        r == (a@ == b@),
{
    if a.len() != b.len() {
        return false;
    }
    for i in 0..a.len()
        invariant
            a.len() == b.len(),
            forall|j: int| 0 <= j < i ==> a@[j] == b@[j],
    {
        if a[i] != b[i] {
            return false;
        }
    }
    assert(a@ =~= b@);
    true
}

/// Decides which of several overlapping timeline events in column `col` a
/// click selects, and what to remember for the next click. `anchor_y` is
/// the quantized click row and `within_double_click` whether the click
/// follows the remembered one within the double-click window.
pub fn resolve_event_overlap_click(
    ids: Vec<u64>,
    col: usize,
    anchor_y: i32,
    selected_event_id: Option<u64>,
    prev: &Option<EventOverlapCycle>,
    within_double_click: bool,
) -> (r: EventOverlapClick)
    requires
        ids.len() > 1,
    ensures
        r.index < ids.len(),
        r.index == event_click_index(
            ids@,
            col,
            anchor_y,
            selected_event_id,
            *prev,
            within_double_click,
        ),
        r.did_cycle == (event_cycle_matches(*prev, ids@, col, anchor_y)
            && prev->Some_0.double_click_armed && within_double_click),
        r.cycle.candidates@ == ids@,
        r.cycle.current_index == r.index,
        r.cycle.col == col,
        r.cycle.anchor_y == anchor_y,
        r.cycle.double_click_armed == (if event_cycle_matches(*prev, ids@, col, anchor_y) {
            !(prev->Some_0.double_click_armed && within_double_click)
        } else {
            selected_event_id matches Some(id) && ids@.index_of_first(id) is Some
        }),
{
    let n = ids.len();
    proof {
        ids@.index_of_first_ensures(selected_event_id->Some_0);
    }
    let selected_index = match selected_event_id {
        Some(id) => position_of_id(&ids, id),
        None => None,
    };
    let mut index = match selected_index {
        Some(k) => k,
        None => 0,
    };
    let mut armed = selected_index.is_some();
    let mut did_cycle = false;
    if let Some(p) = prev {
        if p.col == col && p.anchor_y == anchor_y && same_ids(&p.candidates, &ids) {
            let at = if p.current_index < n - 1 {
                p.current_index
            } else {
                n - 1
            };
            proof {
                ids@.index_of_first_ensures(ids@[at as int]);
            }
            let previous = match position_of_id(&ids, ids[at]) {
                Some(k) => k,
                None => 0,
            };
            if p.double_click_armed && within_double_click {
                index = (previous + 1) % n;
                did_cycle = true;
                armed = false;
            } else {
                index = match selected_index {
                    Some(k) => k,
                    None => previous,
                };
                armed = true;
            }
        }
    }
    EventOverlapClick {
        index,
        did_cycle,
        cycle: EventOverlapCycle {
            candidates: ids,
            current_index: index,
            col,
            anchor_y,
            double_click_armed: armed,
        },
    }
}

/// The timeline event selection: the primary event and the set of all
/// selected event ids.
pub struct EventSelection {
    pub selected_event_id: Option<u64>,
    pub selected_event_ids: HashSet<u64>,
}

impl EventSelection {
    /// Nothing selected.
    pub fn clear(&mut self)
        ensures
            final(self).selected_event_id is None,
            final(self).selected_event_ids@ == Set::<u64>::empty(),
    {
        broadcast use vstd::std_specs::hash::group_hash_axioms;

        self.selected_event_id = None;
        self.selected_event_ids.clear();
    }

    /// Shift-click on event `clicked`: a selected event is taken out (and
    /// when it was primary, some remaining event, or none, becomes primary);
    /// otherwise the previous primary event and `clicked` are both selected
    /// and `clicked` becomes primary.
    pub fn shift_click(&mut self, clicked: u64)
        ensures
            old(self).selected_event_ids@.contains(clicked) ==> {
                &&& final(self).selected_event_ids@ == old(self).selected_event_ids@.remove(clicked)
                &&& old(self).selected_event_id != Some(clicked) ==> final(self).selected_event_id
                    == old(self).selected_event_id
                &&& old(self).selected_event_id == Some(clicked) ==> {
                    &&& (final(self).selected_event_id is None) == final(self).selected_event_ids@.is_empty()
                    &&& final(self).selected_event_id matches Some(x) ==> final(self).selected_event_ids@.contains(x)
                }
            },
            !old(self).selected_event_ids@.contains(clicked) ==> {
                &&& final(self).selected_event_ids@ == (match old(self).selected_event_id {
                    Some(p) => old(self).selected_event_ids@.insert(p),
                    None => old(self).selected_event_ids@,
                }).insert(clicked)
                &&& final(self).selected_event_id == Some(clicked)
            },
    {
        broadcast use vstd::std_specs::hash::group_hash_axioms;

        if self.selected_event_ids.contains(&clicked) {
            self.selected_event_ids.remove(&clicked);
            if self.selected_event_id == Some(clicked) {
                let mut first: Option<u64> = None;
                for x in it: self.selected_event_ids.iter()
                    invariant_except_break
                        first is None,
                        it.index() == 0,
                    invariant
                        it.seq().unref().to_set() == self.selected_event_ids@,
                    ensures
                        first is None ==> self.selected_event_ids@.is_empty(),
                        first matches Some(v) ==> self.selected_event_ids@.contains(v),
                {
                    first = Some(*x);
                    break;
                }
                self.selected_event_id = first;
            }
        } else {
            if let Some(prev_id) = self.selected_event_id {
                self.selected_event_ids.insert(prev_id);
            }
            self.selected_event_ids.insert(clicked);
            self.selected_event_id = Some(clicked);
        }
    }
}

/// Some element of the set (the first that its iteration gives), or none
/// when it is empty.
fn any_of(set: &HashSet<u64>) -> (r: Option<u64>)
    ensures
        r is None <==> set@.is_empty(),
        r matches Some(x) ==> set@.contains(x),
{
    broadcast use vstd::std_specs::hash::group_hash_axioms;

    let mut first: Option<u64> = None;
    for x in it: set.iter()
        invariant_except_break
            first is None,
            it.index() == 0,
        invariant
            it.seq().unref().to_set() == set@,
        ensures
            first is None ==> set@.is_empty(),
            first matches Some(v) ==> set@.contains(v),
    {
        first = Some(*x);
        break;
    }
    proof {
        if first is None {
            assert(set@ =~= Set::<u64>::empty());
        }
    }
    first
}

/// Starting a box selection: nothing stays selected.
pub fn box_select_start(notes: &mut NoteSelection, events: &mut EventSelection)
    ensures
        final(notes).selected_note_id is None,
        final(notes).selected_note_ids@ == Set::<u64>::empty(),
        final(events).selected_event_id is None,
        final(events).selected_event_ids@ == Set::<u64>::empty(),
{
    notes.clear();
    events.clear();
}

/// One step of a box selection, with the notes and the events inside the
/// box. What was inside the box once stays selected. Notes win over events:
/// notes inside the box are added and the events are deselected; events are
/// added only when no note is inside the box and none has been selected.
/// The primary item is then some element of the grown set.
pub fn box_select_update(
    notes: &mut NoteSelection,
    events: &mut EventSelection,
    note_ids: &Vec<u64>,
    event_ids: &Vec<u64>,
)
    ensures
        note_ids.len() > 0 ==> {
            &&& final(notes).selected_note_ids@ == old(notes).selected_note_ids@ + note_ids@.to_set()
            &&& final(notes).selected_note_id matches Some(x) && final(notes).selected_note_ids@.contains(x)
            &&& final(events).selected_event_id is None
            &&& final(events).selected_event_ids@ == Set::<u64>::empty()
        },
        note_ids.len() == 0 && event_ids.len() > 0 && old(notes).selected_note_ids@.is_empty() ==> {
            &&& *final(notes) == *old(notes)
            &&& final(events).selected_event_ids@ == old(events).selected_event_ids@
                + event_ids@.to_set()
            &&& final(events).selected_event_id matches Some(x)
                && final(events).selected_event_ids@.contains(x)
        },
        note_ids.len() == 0 && (event_ids.len() == 0 || !old(notes).selected_note_ids@.is_empty())
            ==> *final(notes) == *old(notes) && *final(events) == *old(events),
{
    broadcast use vstd::std_specs::hash::group_hash_axioms;

    if note_ids.len() > 0 {
        let ghost start = notes.selected_note_ids@;
        for i in 0..note_ids.len()
            invariant
                notes.selected_note_ids@ == start + note_ids@.take(i as int).to_set(),
        {
            notes.selected_note_ids.insert(note_ids[i]);
            assert(note_ids@.take(i + 1) =~= note_ids@.take(i as int).push(note_ids@[i as int]));
            assert forall|x: u64| #[trigger] note_ids@.take(i + 1).to_set().contains(x) == note_ids@.take(
                i as int,
            ).to_set().insert(note_ids@[i as int]).contains(x) by {
                let t = note_ids@.take(i as int);
                if t.push(note_ids@[i as int]).contains(x) && x != note_ids@[i as int] {
                    let k = choose|k: int| 0 <= k < t.len() + 1 && t.push(note_ids@[i as int])[k] == x;
                    assert(t[k] == x);
                }
                if t.contains(x) {
                    let k = choose|k: int| 0 <= k < t.len() && t[k] == x;
                    assert(t.push(note_ids@[i as int])[k] == x);
                }
                assert(t.push(note_ids@[i as int])[t.len() as int] == note_ids@[i as int]);
            }
            assert(note_ids@.take(i + 1).to_set() =~= note_ids@.take(i as int).to_set().insert(
                note_ids@[i as int],
            ));
            assert(notes.selected_note_ids@ =~= start + note_ids@.take(i + 1).to_set());
        }
        assert(note_ids@.take(note_ids.len() as int) =~= note_ids@);
        assert(notes.selected_note_ids@.contains(note_ids@[0]));
        notes.selected_note_id = any_of(&notes.selected_note_ids);
        events.clear();
    } else if event_ids.len() > 0 && notes.selected_note_ids.is_empty() {
        let ghost start = events.selected_event_ids@;
        for i in 0..event_ids.len()
            invariant
                events.selected_event_ids@ == start + event_ids@.take(i as int).to_set(),
        {
            events.selected_event_ids.insert(event_ids[i]);
            assert(event_ids@.take(i + 1) =~= event_ids@.take(i as int).push(event_ids@[i as int]));
            assert forall|x: u64| #[trigger] event_ids@.take(i + 1).to_set().contains(x) == event_ids@.take(
                i as int,
            ).to_set().insert(event_ids@[i as int]).contains(x) by {
                let t = event_ids@.take(i as int);
                if t.push(event_ids@[i as int]).contains(x) && x != event_ids@[i as int] {
                    let k = choose|k: int| 0 <= k < t.len() + 1 && t.push(event_ids@[i as int])[k] == x;
                    assert(t[k] == x);
                }
                if t.contains(x) {
                    let k = choose|k: int| 0 <= k < t.len() && t[k] == x;
                    assert(t.push(event_ids@[i as int])[k] == x);
                }
                assert(t.push(event_ids@[i as int])[t.len() as int] == event_ids@[i as int]);
            }
            assert(event_ids@.take(i + 1).to_set() =~= event_ids@.take(i as int).to_set().insert(
                event_ids@[i as int],
            ));
            assert(events.selected_event_ids@ =~= start + event_ids@.take(i + 1).to_set());
        }
        assert(event_ids@.take(event_ids.len() as int) =~= event_ids@);
        assert(events.selected_event_ids@.contains(event_ids@[0]));
        events.selected_event_id = any_of(&events.selected_event_ids);
    }
}

} // verus!
