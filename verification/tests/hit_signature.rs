use iff_editor::hit::{
    air_target_rank, canonical_hit_signature, hit_part_rank, hit_scope_rank, AirDragTarget,
    HitPart, HitScope, HitSignatureItem,
};

fn item(note_id: u64, scope: HitScope, air_target: AirDragTarget, part: HitPart) -> HitSignatureItem {
    HitSignatureItem { note_id, scope, air_target, part }
}

#[test]
fn ranks() {
    assert_eq!(hit_part_rank(HitPart::Head), 2);
    assert_eq!(hit_part_rank(HitPart::Tail), 2);
    assert_eq!(hit_part_rank(HitPart::Body), 1);
    assert_eq!(hit_scope_rank(HitScope::Ground), 0);
    assert_eq!(hit_scope_rank(HitScope::Air), 1);
    assert_eq!(hit_scope_rank(HitScope::Mixed), 2);
    assert_eq!(air_target_rank(AirDragTarget::Body), 0);
    assert_eq!(air_target_rank(AirDragTarget::SkyHead), 1);
    assert_eq!(air_target_rank(AirDragTarget::SkyTail), 2);
}

#[test]
fn signature_orders_by_scope_part_target_then_id() {
    let a = item(5, HitScope::Air, AirDragTarget::Body, HitPart::Body);
    let b = item(9, HitScope::Ground, AirDragTarget::Body, HitPart::Body);
    let c = item(3, HitScope::Ground, AirDragTarget::Body, HitPart::Head);
    let d = item(1, HitScope::Air, AirDragTarget::SkyTail, HitPart::Body);
    let e = item(2, HitScope::Air, AirDragTarget::SkyHead, HitPart::Body);
    let f = item(4, HitScope::Ground, AirDragTarget::Body, HitPart::Body);
    let out = canonical_hit_signature(&[a, b, c, d, e, f]);
    assert_eq!(out, vec![c, f, b, a, e, d]);
}

#[test]
fn signature_is_stable_for_equal_keys() {
    let head = item(7, HitScope::Ground, AirDragTarget::Body, HitPart::Head);
    let tail = item(7, HitScope::Ground, AirDragTarget::Body, HitPart::Tail);
    assert_eq!(canonical_hit_signature(&[tail, head]), vec![tail, head]);
    assert_eq!(canonical_hit_signature(&[head, tail]), vec![head, tail]);
}

#[test]
fn signature_of_nothing() {
    assert!(canonical_hit_signature(&[]).is_empty());
}

#[test]
fn signature_keeps_every_item() {
    let items: Vec<HitSignatureItem> = (0..12u64)
        .map(|i| {
            let scope = [HitScope::Mixed, HitScope::Air, HitScope::Ground][(i % 3) as usize];
            let part = [HitPart::Body, HitPart::Tail][(i % 2) as usize];
            item(11 - i, scope, AirDragTarget::Body, part)
        })
        .collect();
    let out = canonical_hit_signature(&items);
    assert_eq!(out.len(), items.len());
    let mut sorted = items.clone();
    sorted.sort_by(|a, b| {
        hit_scope_rank(a.scope)
            .cmp(&hit_scope_rank(b.scope))
            .then_with(|| hit_part_rank(b.part).cmp(&hit_part_rank(a.part)))
            .then_with(|| air_target_rank(a.air_target).cmp(&air_target_rank(b.air_target)))
            .then_with(|| a.note_id.cmp(&b.note_id))
    });
    assert_eq!(out, sorted);
}

#[test]
fn signature_does_not_depend_on_input_order() {
    let items = vec![
        item(5, HitScope::Air, AirDragTarget::Body, HitPart::Body),
        item(9, HitScope::Ground, AirDragTarget::Body, HitPart::Body),
        item(3, HitScope::Ground, AirDragTarget::Body, HitPart::Head),
        item(1, HitScope::Air, AirDragTarget::SkyTail, HitPart::Body),
        item(2, HitScope::Mixed, AirDragTarget::SkyHead, HitPart::Tail),
    ];
    let expected = canonical_hit_signature(&items);
    let n = items.len();
    for r in 0..n {
        let mut q = items.clone();
        q.rotate_left(r);
        assert_eq!(canonical_hit_signature(&q), expected);
        q.reverse();
        assert_eq!(canonical_hit_signature(&q), expected);
    }
}
