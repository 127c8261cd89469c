use vstd::prelude::*;

verus! {

/// How copied notes are pasted.
#[derive(Debug, Clone, Copy, PartialEq, Eq, Structural)]
pub enum PasteMode {
    Normal,
    Mirrored,
}

/// Copied notes, the paste mode in force, and a version that changes each
/// time the notes are replaced (so that cached paste previews can tell).
pub struct ClipboardManager<T> {
    clipboard: Vec<T>,
    keys: Vec<i32>,
    paste_mode: Option<PasteMode>,
    version: u64,
}

/// What a clipboard holds.
pub struct ClipboardState<T> {
    pub notes: Seq<T>,
    /// The time key of each note, in the same order.
    pub keys: Seq<i32>,
    pub paste_mode: Option<PasteMode>,
    pub version: u64,
}

/// Notes paired with their keys, position by position.
pub open spec fn keyed<T>(keys: Seq<i32>, notes: Seq<T>) -> Seq<(i32, T)> {
    Seq::new(notes.len(), |i: int| (keys[i], notes[i]))
}

/// Ordered by key.
pub open spec fn keys_sorted<T>(s: Seq<(i32, T)>) -> bool {
    forall|i: int, j: int| 0 <= i < j < s.len() ==> (#[trigger] s[i]).0 <= (#[trigger] s[j]).0
}

/// The predicate "has key `k`".
pub open spec fn has_key<T>(k: i32) -> spec_fn((i32, T)) -> bool {
    |p: (i32, T)| p.0 == k
}

/// `out` is `items` sorted by key, stably: ordered by key, and for every
/// key the items with that key in the order they were given. The key of a
/// note is its time made into an integer that orders as `f32::total_cmp`
/// orders the times.
pub open spec fn is_stable_key_sort<T>(items: Seq<(i32, T)>, out: Seq<(i32, T)>) -> bool {
    &&& keys_sorted(out)
    &&& forall|k: i32| #[trigger] out.filter(has_key::<T>(k)) == items.filter(has_key::<T>(k))
}

proof fn lemma_no_key<T>(s: Seq<(i32, T)>, p: spec_fn((i32, T)) -> bool)
    requires
        forall|i: int| 0 <= i < s.len() ==> !p(#[trigger] s[i]),
    ensures
        s.filter(p) == Seq::<(i32, T)>::empty(),
    decreases s.len(),
{
    reveal(Seq::filter);
    if s.len() > 0 {
        lemma_no_key(s.drop_last(), p);
    }
}

/// Sorts `items` by key, keeping items with equal keys in their order.
pub fn stable_sort_by_key<T>(items: Vec<(i32, T)>) -> (out: Vec<(i32, T)>)
    ensures
        out@.len() == items@.len(),
        is_stable_key_sort(items@, out@),
{
    let ghost orig = items@;
    let mut rest = items;
    let mut out: Vec<(i32, T)> = Vec::new();
    let ghost mut i: int = 0;
    while rest.len() > 0
        invariant
            0 <= i <= orig.len(),
            rest@ == orig.subrange(i, orig.len() as int),
            out@.len() == i,
            keys_sorted(out@),
            forall|k: i32| #[trigger] out@.filter(has_key::<T>(k)) == orig.take(i).filter(has_key::<T>(k)),
        decreases rest@.len(),
    {
        let item = rest.remove(0);
        assert(item == orig[i]);
        assert(rest@ =~= orig.subrange(i + 1, orig.len() as int));
        let key = item.0;
        let mut pos: usize = 0;
        while pos < out.len() && out[pos].0 <= key
            invariant
                0 <= pos <= out.len(),
                forall|j: int| 0 <= j < pos ==> (#[trigger] out@[j]).0 <= key,
            decreases out.len() - pos,
        {
            pos = pos + 1;
        }
        let ghost old_out = out@;
        proof {
            assert forall|j: int| pos <= j < old_out.len() implies key < (#[trigger] old_out[j]).0 by {
                assert(!(old_out[pos as int].0 <= key));
                if j > pos {
                    assert(old_out[pos as int].0 <= old_out[j].0);
                }
            }
        }
        out.insert(pos, item);
        proof {
            let a = old_out.subrange(0, pos as int);
            let b = old_out.subrange(pos as int, old_out.len() as int);
            assert(old_out =~= a + b);
            assert(out@ =~= a.push(item) + b);
            assert forall|j: int, k: int| 0 <= j < k < out@.len() implies (#[trigger] out@[j]).0
                <= (#[trigger] out@[k]).0 by {
                if k < pos {
                    assert(out@[j] == old_out[j] && out@[k] == old_out[k]);
                } else if k == pos {
                    assert(out@[j] == old_out[j]);
                } else if j < pos {
                    assert(out@[j] == old_out[j] && out@[k] == old_out[k - 1]);
                } else if j == pos {
                    assert(out@[k] == old_out[k - 1]);
                } else {
                    assert(out@[j] == old_out[j - 1] && out@[k] == old_out[k - 1]);
                }
            }
            assert(orig.take(i + 1) =~= orig.take(i).push(item));
            assert forall|k: i32| #[trigger] out@.filter(has_key::<T>(k)) == orig.take(i + 1).filter(
                has_key::<T>(k),
            ) by {
                let p = has_key::<T>(k);
                Seq::filter_distributes_over_add(a.push(item), b, p);
                Seq::filter_distributes_over_add(a, b, p);
                a.lemma_filter_push(item, p);
                orig.take(i).lemma_filter_push(item, p);
                assert(old_out.filter(p) == orig.take(i).filter(p));
                if p(item) {
                    assert forall|j: int| 0 <= j < b.len() implies !p(#[trigger] b[j]) by {
                        assert(b[j] == old_out[pos + j]);
                    }
                    lemma_no_key(b, p);
                    assert(a.filter(p) + b.filter(p) =~= a.filter(p));
                    assert(a.filter(p).push(item) + b.filter(p) =~= a.filter(p).push(item));
                }
            }
            i = i + 1;
        }
    }
    assert(orig.take(orig.len() as int) =~= orig);
    out
}

impl<T> View for ClipboardManager<T> {
    type V = ClipboardState<T>;

    closed spec fn view(&self) -> ClipboardState<T> {
        ClipboardState {
            notes: self.clipboard@,
            keys: self.keys@,
            paste_mode: self.paste_mode, version: self.version }
    }
}

impl<T> ClipboardManager<T> {
    /// An empty clipboard, not pasting, at version 0.
    pub fn new() -> (c: Self)
        ensures
            c@.notes == Seq::<T>::empty(),
            c@.keys == Seq::<i32>::empty(),
            c@.paste_mode is None,
            c@.version == 0,
    {
        ClipboardManager { clipboard: Vec::new(), keys: Vec::new(), paste_mode: None, version: 0 }
    }

    pub fn is_empty(&self) -> (b: bool)
        ensures
            b == (self@.notes.len() == 0),
    {
        self.clipboard.len() == 0
    }

    /// Replaces the copied notes, each given with its time key (see
    /// [`is_stable_key_sort`]), by the same notes sorted by time, notes at
    /// the same time kept in the order given; moves the version on by one,
    /// wrapping around.
    pub fn set_notes(&mut self, notes: Vec<(i32, T)>)
        ensures
            final(self)@.notes.len() == notes@.len(),
            final(self)@.keys.len() == notes@.len(),
            is_stable_key_sort(notes@, keyed(final(self)@.keys, final(self)@.notes)),
            final(self)@.paste_mode == old(self)@.paste_mode,
            final(self)@.version == (if old(self)@.version == u64::MAX {
                0
            } else {
                old(self)@.version + 1
            }),
            final(self)@.version != old(self)@.version,
    {
        let mut sorted = stable_sort_by_key(notes);
        let ghost all = sorted@;
        let mut ns: Vec<T> = Vec::new();
        let mut ks: Vec<i32> = Vec::new();
        while sorted.len() > 0
            invariant
                ns@.len() == ks@.len(),
                ns@.len() + sorted@.len() == all.len(),
                keyed(ks@, ns@) + sorted@ == all,
            decreases sorted@.len(),
        {
            let ghost before = keyed(ks@, ns@);
            let ghost rest = sorted@;
            let (k, n) = sorted.remove(0);
            ks.push(k);
            ns.push(n);
            assert(keyed(ks@, ns@) =~= before.push(rest[0]));
            assert(keyed(ks@, ns@) + sorted@ =~= before + rest);
        }
        assert(keyed(ks@, ns@) =~= all);
        self.clipboard = ns;
        self.keys = ks;
        self.version = if self.version == u64::MAX {
            0
        } else {
            self.version + 1
        };
    }

    pub fn notes(&self) -> (n: &[T])
        ensures
            n@ == self@.notes,
    {
        self.clipboard.as_slice()
    }

    pub fn version(&self) -> (v: u64)
        ensures
            v == self@.version,
    {
        self.version
    }

    pub fn paste_mode(&self) -> (m: Option<PasteMode>)
        ensures
            m == self@.paste_mode,
    {
        self.paste_mode
    }

    pub fn set_paste_mode(&mut self, mode: PasteMode)
        ensures
            final(self)@.paste_mode == Some(mode),
            final(self)@.notes == old(self)@.notes,
            final(self)@.version == old(self)@.version,
    {
        self.paste_mode = Some(mode);
    }

    pub fn clear_paste_mode(&mut self)
        ensures
            final(self)@.paste_mode is None,
            final(self)@.notes == old(self)@.notes,
            final(self)@.version == old(self)@.version,
    {
        self.paste_mode = None;
    }
}

impl<T: Clone> ClipboardManager<T> {
    /// A copy of the copied notes, in order.
    pub fn notes_cloned(&self) -> (v: Vec<T>)
        ensures
            v@.len() == self@.notes.len(),
            forall|i: int| 0 <= i < v@.len() ==> cloned(self@.notes[i], #[trigger] v@[i]),
    {
        let v = self.clipboard.clone();
        assert(forall|i: int| 0 <= i < v@.len() ==> cloned(self.clipboard@[i], v@[i]));
        v
    }
}

} // verus!
