use vstd::prelude::*;

verus! {

/// Which side of the playfield a hit candidate belongs to.
#[derive(Debug, Clone, Copy, PartialEq, Eq, Structural)]
pub enum HitScope {
    Ground,
    Air,
    Mixed,
}

/// Which part of a note a hit landed on.
#[derive(Debug, Clone, Copy, PartialEq, Eq, Structural)]
pub enum HitPart {
    Head,
    Tail,
    Body,
}

/// What a drag of an air note moves.
#[derive(Debug, Clone, Copy, PartialEq, Eq, Structural)]
pub enum AirDragTarget {
    Body,
    SkyHead,
    SkyTail,
}

/// The identity of a hit candidate, without its distance.
#[derive(Debug, Clone, Copy, PartialEq, Eq, Structural)]
pub struct HitSignatureItem {
    pub note_id: u64,
    pub scope: HitScope,
    pub air_target: AirDragTarget,
    pub part: HitPart,
}

pub open spec fn part_rank(part: HitPart) -> int {
    match part {
        HitPart::Head | HitPart::Tail => 2,
        HitPart::Body => 1,
    }
}

pub open spec fn scope_rank(scope: HitScope) -> int {
    match scope {
        HitScope::Ground => 0,
        HitScope::Air => 1,
        HitScope::Mixed => 2,
    }
}

pub open spec fn target_rank(target: AirDragTarget) -> int {
    match target {
        AirDragTarget::Body => 0,
        AirDragTarget::SkyHead => 1,
        AirDragTarget::SkyTail => 2,
    }
}

/// Heads and tails outrank bodies.
pub fn hit_part_rank(part: HitPart) -> (r: u8)
    ensures
        r == part_rank(part),
{
    match part {
        HitPart::Head | HitPart::Tail => 2,
        HitPart::Body => 1,
    }
}

/// Ground first, then air, then mixed.
pub fn hit_scope_rank(scope: HitScope) -> (r: u8)
    ensures
        r == scope_rank(scope),
{
    match scope {
        HitScope::Ground => 0,
        HitScope::Air => 1,
        HitScope::Mixed => 2,
    }
}

/// Body first, then sky head, then sky tail.
pub fn air_target_rank(target: AirDragTarget) -> (r: u8)
    ensures
        r == target_rank(target),
{
    match target {
        AirDragTarget::Body => 0,
        AirDragTarget::SkyHead => 1,
        AirDragTarget::SkyTail => 2,
    }
}

/// Two items sort alike: same scope rank, part rank, target rank and note.
pub open spec fn same_key(a: HitSignatureItem, b: HitSignatureItem) -> bool {
    &&& scope_rank(a.scope) == scope_rank(b.scope)
    &&& part_rank(a.part) == part_rank(b.part)
    &&& target_rank(a.air_target) == target_rank(b.air_target)
    &&& a.note_id == b.note_id
}

/// `a` sorts strictly before `b`: by scope rank, then higher part rank
/// first, then target rank, then note id.
pub open spec fn key_lt(a: HitSignatureItem, b: HitSignatureItem) -> bool {
    ||| scope_rank(a.scope) < scope_rank(b.scope)
    ||| scope_rank(a.scope) == scope_rank(b.scope) && part_rank(a.part) > part_rank(b.part)
    ||| scope_rank(a.scope) == scope_rank(b.scope) && part_rank(a.part) == part_rank(b.part)
        && target_rank(a.air_target) < target_rank(b.air_target)
    ||| scope_rank(a.scope) == scope_rank(b.scope) && part_rank(a.part) == part_rank(b.part)
        && target_rank(a.air_target) == target_rank(b.air_target) && a.note_id < b.note_id
}

pub open spec fn key_le(a: HitSignatureItem, b: HitSignatureItem) -> bool {
    key_lt(a, b) || same_key(a, b)
}

/// The predicate "sorts alike with `a`".
pub open spec fn same_key_as(a: HitSignatureItem) -> spec_fn(HitSignatureItem) -> bool {
    |b: HitSignatureItem| same_key(a, b)
}

/// `s` is ordered by the signature key.
pub open spec fn key_sorted(s: Seq<HitSignatureItem>) -> bool {
    forall|i: int, j: int| 0 <= i < j < s.len() ==> key_le(#[trigger] s[i], #[trigger] s[j])
}

/// `out` is the stable sort of `items` by the signature key: ordered, and
/// for every key the items with that key appear in their original order.
pub open spec fn is_stable_key_sort(items: Seq<HitSignatureItem>, out: Seq<HitSignatureItem>) -> bool {
    &&& key_sorted(out)
    &&& forall|x: HitSignatureItem| #[trigger] out.filter(same_key_as(x)) == items.filter(same_key_as(x))
}

fn key_le_exec(a: &HitSignatureItem, b: &HitSignatureItem) -> (r: bool)
    ensures
        r == key_le(*a, *b),
{
    let sa = hit_scope_rank(a.scope);
    let sb = hit_scope_rank(b.scope);
    if sa != sb {
        return sa < sb;
    }
    let pa = hit_part_rank(a.part);
    let pb = hit_part_rank(b.part);
    if pa != pb {
        return pa > pb;
    }
    let ta = air_target_rank(a.air_target);
    let tb = air_target_rank(b.air_target);
    if ta != tb {
        return ta < tb;
    }
    a.note_id <= b.note_id
}

proof fn lemma_key_trans(a: HitSignatureItem, b: HitSignatureItem, c: HitSignatureItem)
    requires
        key_le(a, b),
        key_lt(b, c),
    ensures
        key_lt(a, c),
{
}

proof fn lemma_filter_empty(s: Seq<HitSignatureItem>, p: spec_fn(HitSignatureItem) -> bool)
    requires
        forall|i: int| 0 <= i < s.len() ==> !p(#[trigger] s[i]),
    ensures
        s.filter(p) == Seq::<HitSignatureItem>::empty(),
    decreases s.len(),
{
    reveal(Seq::filter);
    if s.len() > 0 {
        lemma_filter_empty(s.drop_last(), p);
    }
}

/// The hit signature in canonical order: a stable sort by scope rank, then
/// part rank (heads and tails first), then target rank, then note id.
pub fn canonical_hit_signature(items: &[HitSignatureItem]) -> (out: Vec<HitSignatureItem>)
    ensures
        is_stable_key_sort(items@, out@),
        out@.len() == items@.len(),
        out@.to_multiset() == items@.to_multiset(),
{
    broadcast use vstd::seq_lib::group_to_multiset_ensures;

    let mut out: Vec<HitSignatureItem> = Vec::new();
    for i in 0..items.len()
        invariant
            key_sorted(out@),
            out@.len() == i,
            out@.to_multiset() == items@.take(i as int).to_multiset(),
            forall|x: HitSignatureItem|
                #[trigger] out@.filter(same_key_as(x)) == items@.take(i as int).filter(
                    same_key_as(x),
                ),
    {
        let item = items[i];
        let mut pos: usize = 0;
        while pos < out.len() && key_le_exec(&out[pos], &item)
            invariant
                0 <= pos <= out.len(),
                forall|j: int| 0 <= j < pos ==> key_le(#[trigger] out@[j], item),
            decreases out.len() - pos,
        {
            pos = pos + 1;
        }
        let ghost old_out = out@;
        proof {
            // everything from `pos` on sorts strictly after `item`
            assert forall|j: int| pos <= j < old_out.len() implies key_lt(
                item,
                #[trigger] old_out[j],
            ) by {
                assert(!key_le(old_out[pos as int], item));
                if j > pos {
                    assert(key_le(old_out[pos as int], old_out[j]));
                }
            }
        }
        out.insert(pos, item);
        proof {
            let a = old_out.subrange(0, pos as int);
            let b = old_out.subrange(pos as int, old_out.len() as int);
            assert(old_out =~= a + b);
            assert(out@ =~= a.push(item) + b);
            assert forall|j: int, k: int| 0 <= j < k < out@.len() implies key_le(
                #[trigger] out@[j],
                #[trigger] out@[k],
            ) by {
                if k < pos {
                } else if k == pos {
                } else if j < pos {
                    assert(key_le(out@[j], item));
                    assert(key_lt(item, old_out[k - 1]));
                    lemma_key_trans(out@[j], item, old_out[k - 1]);
                } else if j == pos {
                    assert(key_lt(item, old_out[k - 1]));
                } else {
                    assert(key_le(old_out[j - 1], old_out[k - 1]));
                }
            }
            assert(items@.take(i + 1) =~= items@.take(i as int).push(item));
            assert(out@ == old_out.insert(pos as int, item));
            vstd::seq_lib::to_multiset_insert(old_out, pos as int, item);
            vstd::seq_lib::to_multiset_build(items@.take(i as int), item);
            assert forall|x: HitSignatureItem| #[trigger] out@.filter(same_key_as(x))
                == items@.take(i + 1).filter(same_key_as(x)) by {
                let p = same_key_as(x);
                Seq::filter_distributes_over_add(a.push(item), b, p);
                Seq::filter_distributes_over_add(a, b, p);
                a.lemma_filter_push(item, p);
                items@.take(i as int).lemma_filter_push(item, p);
                if p(item) {
                    assert forall|j: int| 0 <= j < b.len() implies !p(#[trigger] b[j]) by {
                        assert(key_lt(item, old_out[pos + j]));
                    }
                    lemma_filter_empty(b, p);
                    assert(a.filter(p) + b.filter(p) =~= a.filter(p));
                    assert(a.filter(p).push(item) + b.filter(p) =~= a.filter(p).push(item));
                }
            }
        }
    }
    assert(items@.take(items@.len() as int) =~= items@);
    out
}

/// No two candidates sort alike unless they are the same: in particular no
/// note has both its head and its tail among them in the same scope and
/// target (heads and tails share a rank).
pub open spec fn no_key_ties(s: Seq<HitSignatureItem>) -> bool {
    forall|i: int, j: int|
        0 <= i < s.len() && 0 <= j < s.len() && same_key(#[trigger] s[i], #[trigger] s[j]) ==> s[i]
            == s[j]
}

/// The output of [`canonical_hit_signature`] for `items`, as its contract
/// gives it.
pub open spec fn is_canonical_signature(items: Seq<HitSignatureItem>, out: Seq<HitSignatureItem>) -> bool {
    &&& is_stable_key_sort(items, out)
    &&& out.to_multiset() == items.to_multiset()
}

spec fn part_code(part: HitPart) -> int {
    match part {
        HitPart::Head => 0,
        HitPart::Tail => 1,
        HitPart::Body => 2,
    }
}

/// The signature key, with heads before tails where it ties them: a total
/// order on candidates.
spec fn sig_le(a: HitSignatureItem, b: HitSignatureItem) -> bool {
    key_lt(a, b) || (same_key(a, b) && part_code(a.part) <= part_code(b.part))
}

proof fn lemma_sig_le_total()
    ensures
        vstd::relations::total_ordering(|a: HitSignatureItem, b: HitSignatureItem| sig_le(a, b)),
{
    let r = |a: HitSignatureItem, b: HitSignatureItem| sig_le(a, b);
    assert forall|a: HitSignatureItem, b: HitSignatureItem| #[trigger] r(a, b) && #[trigger] r(b, a)
        implies a == b by {
        assert(same_key(a, b));
    }
    assert forall|a: HitSignatureItem, b: HitSignatureItem, c: HitSignatureItem|
        #[trigger] r(a, b) && #[trigger] r(b, c) implies r(a, c) by {
    }
    assert forall|a: HitSignatureItem, b: HitSignatureItem| #[trigger] r(a, b) || #[trigger] r(b, a) by {
    }
    assert forall|a: HitSignatureItem| #[trigger] r(a, a) by {
    }
}

proof fn lemma_canonical_sorted(items: Seq<HitSignatureItem>, out: Seq<HitSignatureItem>)
    requires
        no_key_ties(items),
        is_canonical_signature(items, out),
    ensures
        vstd::relations::sorted_by(out, |a: HitSignatureItem, b: HitSignatureItem| sig_le(a, b)),
{
    broadcast use vstd::seq_lib::group_to_multiset_ensures;

    assert forall|i: int, j: int| 0 <= i < j < out.len() implies sig_le(
        #[trigger] out[i],
        #[trigger] out[j],
    ) by {
        assert(key_le(out[i], out[j]));
        if same_key(out[i], out[j]) {
            assert(out.to_multiset().count(out[i]) > 0);
            assert(out.to_multiset().count(out[j]) > 0);
            assert(items.contains(out[i]));
            assert(items.contains(out[j]));
            let a = choose|a: int| 0 <= a < items.len() && items[a] == out[i];
            let b = choose|b: int| 0 <= b < items.len() && items[b] == out[j];
            assert(same_key(items[a], items[b]));
        }
    }
}

/// The canonical signature does not depend on the order in which the
/// candidates were found: for any reordering `q` of `items`, with no two
/// candidates sorting alike unless equal, the canonical signatures of
/// `items` and of `q` are the same sequence.
pub proof fn lemma_canonical_signature_order_free(
    items: Seq<HitSignatureItem>,
    q: Seq<HitSignatureItem>,
    out_items: Seq<HitSignatureItem>,
    out_q: Seq<HitSignatureItem>,
)
    requires
        no_key_ties(items),
        q.to_multiset() == items.to_multiset(),
        is_canonical_signature(items, out_items),
        is_canonical_signature(q, out_q),
    ensures
        out_items == out_q,
{
    broadcast use vstd::seq_lib::group_to_multiset_ensures;

    assert(no_key_ties(q)) by {
        assert forall|i: int, j: int|
            0 <= i < q.len() && 0 <= j < q.len() && same_key(#[trigger] q[i], #[trigger] q[j])
            implies q[i] == q[j] by {
            assert(q.to_multiset().count(q[i]) > 0);
            assert(q.to_multiset().count(q[j]) > 0);
            assert(items.contains(q[i]));
            assert(items.contains(q[j]));
            let a = choose|a: int| 0 <= a < items.len() && items[a] == q[i];
            let b = choose|b: int| 0 <= b < items.len() && items[b] == q[j];
            assert(same_key(items[a], items[b]));
        }
    }
    lemma_canonical_sorted(items, out_items);
    lemma_canonical_sorted(q, out_q);
    lemma_sig_le_total();
    vstd::seq_lib::lemma_sorted_unique(
        out_items,
        out_q,
        |a: HitSignatureItem, b: HitSignatureItem| sig_le(a, b),
    );
}

} // verus!
