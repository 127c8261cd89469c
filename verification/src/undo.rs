use vstd::prelude::*;

verus! {

/// What an undo history holds: the saved states, the position of the
/// current one, and how many states it keeps at most.
pub struct UndoState<T> {
    pub states: Seq<T>,
    pub index: int,
    pub capacity: int,
}

impl<T> UndoState<T> {
    /// The position is inside the saved states (or zero when there are
    /// none), and no more states are kept than the capacity allows.
    pub open spec fn wf(self) -> bool {
        &&& 0 <= self.index
        &&& 0 <= self.capacity
        &&& self.states.len() <= self.capacity
        &&& (self.states.len() == 0 && self.index == 0) || self.index < self.states.len()
    }

    /// Saving a state: the states above the current one are dropped, the new
    /// state goes on top, the oldest state goes when there are too many, and
    /// the top becomes current.
    pub open spec fn pushed(self, s: T) -> Self {
        let kept = if self.index + 1 < self.states.len() {
            self.states.take(self.index + 1)
        } else {
            self.states
        };
        let grown = kept.push(s);
        let states = if grown.len() > self.capacity {
            grown.drop_first()
        } else {
            grown
        };
        UndoState {
            states,
            index: if states.len() > 0 {
                states.len() - 1
            } else {
                0
            },
            capacity: self.capacity,
        }
    }

    pub open spec fn can_undo(self) -> bool {
        self.index > 0
    }

    pub open spec fn can_redo(self) -> bool {
        self.index + 1 < self.states.len()
    }

    pub open spec fn is_at_top(self) -> bool {
        self.states.len() > 0 && self.index == self.states.len() - 1
    }

    /// Stepping back one state, when there is one before the current.
    pub open spec fn undone(self) -> Self {
        if self.can_undo() {
            UndoState { index: self.index - 1, ..self }
        } else {
            self
        }
    }

    /// Stepping forward one state, when there is one after the current.
    pub open spec fn redone(self) -> Self {
        if self.can_redo() {
            UndoState { index: self.index + 1, ..self }
        } else {
            self
        }
    }
}

/// A bounded history of saved states with a current position.
pub struct UndoHistory<T> {
    stack: Vec<T>,
    index: usize,
    max_size: usize,
}

impl<T> View for UndoHistory<T> {
    type V = UndoState<T>;

    closed spec fn view(&self) -> UndoState<T> {
        UndoState { states: self.stack@, index: self.index as int, capacity: self.max_size as int }
    }
}

impl<T> UndoHistory<T> {
    /// A history is always well formed (see [`UndoState::wf`]).
    #[verifier::type_invariant]
    spec fn inv(self) -> bool {
        self@.wf()
    }

    /// An empty history that keeps at most `max_size` states.
    pub fn new(max_size: usize) -> (h: Self)
        ensures
            h@.states == Seq::<T>::empty(),
            h@.index == 0,
            h@.capacity == max_size,
            h@.wf(),
    {
        UndoHistory { stack: Vec::new(), index: 0, max_size }
    }

    /// Saves a state on top of the current one (see [`UndoState::pushed`]).
    pub fn push(&mut self, snapshot: T)
        ensures
            old(self)@.wf(),
            final(self)@ == old(self)@.pushed(snapshot),
            final(self)@.wf(),
    {
        proof {
            use_type_invariant(&*self);
        }
        let mut h = UndoHistory::new(self.max_size);
        std::mem::swap(self, &mut h);
        proof {
            use_type_invariant(&h);
        }
        let UndoHistory { mut stack, index, max_size } = h;
        if index + 1 < stack.len() {
            stack.truncate(index + 1);
        }
        stack.push(snapshot);
        if stack.len() > max_size {
            stack.remove(0);
        }
        let new_index = if stack.len() > 0 {
            stack.len() - 1
        } else {
            0
        };
        proof {
            let o = old(self)@;
            let kept = if o.index + 1 < o.states.len() {
                o.states.take(o.index + 1)
            } else {
                o.states
            };
            let grown = kept.push(snapshot);
            if grown.len() > o.capacity {
                assert(stack@ =~= grown.drop_first());
            }
        }
        *self = UndoHistory { stack, index: new_index, max_size };
    }

    /// Whether the current state is the newest one.
    pub fn is_at_top(&self) -> (b: bool)
        ensures
            self@.wf(),
            b == self@.is_at_top(),
    {
        proof {
            use_type_invariant(self);
        }
        !self.stack.is_empty() && self.index == self.stack.len() - 1
    }

    /// Whether there is a state before the current one.
    pub fn can_undo(&self) -> (b: bool)
        ensures
            self@.wf(),
            b == self@.can_undo(),
    {
        proof {
            use_type_invariant(self);
        }
        self.index > 0
    }

    /// Whether there is a state after the current one.
    pub fn can_redo(&self) -> (b: bool)
        ensures
            self@.wf(),
            b == self@.can_redo(),
    {
        proof {
            use_type_invariant(self);
        }
        self.index + 1 < self.stack.len()
    }

    /// Steps back and gives the state that becomes current, if there is one.
    pub fn undo(&mut self) -> (r: Option<&T>)
        ensures
            old(self)@.wf(),
            final(self)@ == old(self)@.undone(),
            final(self)@.wf(),
            match r {
                Some(s) => old(self)@.can_undo() && *s == old(self)@.states[old(self)@.index - 1],
                None => !old(self)@.can_undo(),
            },
    {
        proof {
            use_type_invariant(&*self);
        }
        if self.can_undo() {
            self.index = self.index - 1;
            Some(&self.stack[self.index])
        } else {
            None
        }
    }

    /// Steps forward and gives the state that becomes current, if there is one.
    pub fn redo(&mut self) -> (r: Option<&T>)
        ensures
            old(self)@.wf(),
            final(self)@ == old(self)@.redone(),
            final(self)@.wf(),
            match r {
                Some(s) => old(self)@.can_redo() && *s == old(self)@.states[old(self)@.index + 1],
                None => !old(self)@.can_redo(),
            },
    {
        proof {
            use_type_invariant(&*self);
        }
        if self.can_redo() {
            self.index = self.index + 1;
            Some(&self.stack[self.index])
        } else {
            None
        }
    }
}


/// The editor's undo bookkeeping on top of an [`UndoHistory`].
pub struct UndoManager<T> {
    history: UndoHistory<T>,
}

impl<T> View for UndoManager<T> {
    type V = UndoState<T>;

    closed spec fn view(&self) -> UndoState<T> {
        self.history@
    }
}

impl<T> UndoManager<T> {
    /// An empty manager that keeps at most `max_size` states.
    pub fn new(max_size: usize) -> (m: Self)
        ensures
            m@.states == Seq::<T>::empty(),
            m@.index == 0,
            m@.capacity == max_size,
            m@.wf(),
    {
        UndoManager { history: UndoHistory::new(max_size) }
    }

    /// Saves a state on top of the current one (see [`UndoState::pushed`]).
    pub fn push(&mut self, snapshot: T)
        ensures
            old(self)@.wf(),
            final(self)@ == old(self)@.pushed(snapshot),
            final(self)@.wf(),
    {
        self.history.push(snapshot);
    }

    /// Saves the state from before an edit.
    pub fn capture(&mut self, snapshot: T)
        ensures
            old(self)@.wf(),
            final(self)@ == old(self)@.pushed(snapshot),
            final(self)@.wf(),
    {
        self.push(snapshot);
    }

    /// Saves the current state when nothing has been undone since the last
    /// save, so that a redo can come back to it.
    pub fn capture_if_at_top(&mut self, snapshot: T)
        ensures
            old(self)@.wf(),
            final(self)@ == (if old(self)@.is_at_top() {
                old(self)@.pushed(snapshot)
            } else {
                old(self)@
            }),
            final(self)@.wf(),
    {
        proof {
            use_type_invariant(&self.history);
        }
        if self.is_at_top() {
            self.capture(snapshot);
        }
    }

    /// Whether the current state is the newest one.
    pub fn is_at_top(&self) -> (b: bool)
        ensures
            self@.wf(),
            b == self@.is_at_top(),
    {
        self.history.is_at_top()
    }

    /// Steps back; gives the state to restore, if there is one.
    pub fn undo(&mut self) -> (r: Option<&T>)
        ensures
            old(self)@.wf(),
            final(self)@ == old(self)@.undone(),
            final(self)@.wf(),
            match r {
                Some(s) => old(self)@.can_undo() && *s == old(self)@.states[old(self)@.index - 1],
                None => !old(self)@.can_undo(),
            },
    {
        self.history.undo()
    }

    /// Steps forward; gives the state to restore, if there is one.
    pub fn redo(&mut self) -> (r: Option<&T>)
        ensures
            old(self)@.wf(),
            final(self)@ == old(self)@.redone(),
            final(self)@.wf(),
            match r {
                Some(s) => old(self)@.can_redo() && *s == old(self)@.states[old(self)@.index + 1],
                None => !old(self)@.can_redo(),
            },
    {
        self.history.redo()
    }
}

impl<T: Clone> UndoManager<T> {
    /// Steps back; gives a copy of the state to restore, if there is one.
    pub fn undo_snapshot(&mut self) -> (r: Option<T>)
        ensures
            old(self)@.wf(),
            final(self)@ == old(self)@.undone(),
            final(self)@.wf(),
            match r {
                Some(s) => old(self)@.can_undo() && cloned(old(self)@.states[old(self)@.index - 1], s),
                None => !old(self)@.can_undo(),
            },
    {
        self.undo().cloned()
    }

    /// Steps forward; gives a copy of the state to restore, if there is one.
    pub fn redo_snapshot(&mut self) -> (r: Option<T>)
        ensures
            old(self)@.wf(),
            final(self)@ == old(self)@.redone(),
            final(self)@.wf(),
            match r {
                Some(s) => old(self)@.can_redo() && cloned(old(self)@.states[old(self)@.index + 1], s),
                None => !old(self)@.can_redo(),
            },
    {
        self.redo().cloned()
    }
}

/// Every operation keeps a history well formed.
pub proof fn lemma_operations_keep_wf<T>(h: UndoState<T>, s: T)
    requires
        h.wf(),
    ensures
        h.pushed(s).wf(),
        h.undone().wf(),
        h.redone().wf(),
{
}

/// Saving a state leaves nothing to redo and makes it current.
pub proof fn lemma_push_clears_redo<T>(h: UndoState<T>, s: T)
    requires
        h.wf(),
        h.capacity > 0,
    ensures
        !h.pushed(s).can_redo(),
        h.pushed(s).is_at_top(),
        h.pushed(s).states.last() == s,
{
}

/// A history never holds more states than its capacity.
pub proof fn lemma_bounded<T>(h: UndoState<T>, s: T)
    requires
        h.wf(),
    ensures
        h.pushed(s).states.len() <= h.capacity,
{
}

/// Stepping back after saving a state makes the state current at the time of
/// the save current again (when the history keeps at least two states).
pub proof fn lemma_undo_after_push<T>(h: UndoState<T>, s: T)
    requires
        h.wf(),
        h.states.len() > 0,
        h.capacity >= 2,
    ensures
        h.pushed(s).can_undo(),
        h.pushed(s).undone().states[h.pushed(s).undone().index] == h.states[h.index],
{
    let kept = if h.index + 1 < h.states.len() {
        h.states.take(h.index + 1)
    } else {
        h.states
    };
    assert(kept.len() == h.index + 1);
    assert(kept[h.index] == h.states[h.index]);
}

/// A redo takes back an undo that happened.
pub proof fn lemma_redo_undoes_undo<T>(h: UndoState<T>)
    requires
        h.wf(),
        h.can_undo(),
    ensures
        h.undone().can_redo(),
        h.undone().redone() == h,
{
}

/// An undo takes back a redo that happened.
pub proof fn lemma_undo_undoes_redo<T>(h: UndoState<T>)
    requires
        h.wf(),
        h.can_redo(),
    ensures
        h.redone().can_undo(),
        h.redone().undone() == h,
{
}

/// The editor's edit cycle: the state before an edit is saved, the edit makes
/// `after`; an undo (which first saves `after`, the history being at its top)
/// brings `before` back, and a redo then brings `after` back.
pub proof fn lemma_edit_undo_redo<T>(h: UndoState<T>, before: T, after: T)
    requires
        h.wf(),
        h.capacity >= 2,
    ensures
        h.pushed(before).is_at_top(),
        h.pushed(before).pushed(after).can_undo(),
        ({
            let u = h.pushed(before).pushed(after).undone();
            &&& u.states[u.index] == before
            &&& u.can_redo()
            &&& u.redone().states[u.redone().index] == after
        }),
{
    let h1 = h.pushed(before);
    lemma_push_clears_redo(h, before);
    lemma_undo_after_push(h1, after);
    lemma_push_clears_redo(h1, after);
    lemma_redo_undoes_undo(h1.pushed(after));
}

} // verus!
