//! Undo and redo: a current state with the states before it and the undone
//! states after it.

use vstd::prelude::*;
use crate::error::TableError;

verus! {

/// A current state, the stack of earlier states and the stack of undone ones.
pub struct History<T> {
    current: T,
    undo_stack: Vec<T>,
    redo_stack: Vec<T>,
}

/// Abstract value of a history: current state, undo stack, redo stack (tops last).
pub struct HistoryView<T> {
    pub current: T,
    pub undo: Seq<T>,
    pub redo: Seq<T>,
}

impl<T> View for History<T> {
    type V = HistoryView<T>;

    closed spec fn view(&self) -> HistoryView<T> {
        HistoryView { current: self.current, undo: self.undo_stack@, redo: self.redo_stack@ }
    }
}

/// A new state replaces the current one, which goes on the undo stack; the redo
/// stack is emptied.
pub open spec fn recorded<T>(h: HistoryView<T>, next: T) -> HistoryView<T> {
    HistoryView { current: next, undo: h.undo.push(h.current), redo: Seq::empty() }
}

/// Undoing: the top of the undo stack becomes current and the current state goes
/// on the redo stack; nothing to undo without an earlier state.
pub open spec fn undone<T>(h: HistoryView<T>) -> Option<HistoryView<T>> {
    if h.undo.len() == 0 {
        None
    } else {
        Some(
            HistoryView {
                current: h.undo.last(),
                undo: h.undo.drop_last(),
                redo: h.redo.push(h.current),
            },
        )
    }
}

/// Redoing: the top of the redo stack becomes current and the current state goes
/// on the undo stack; nothing to redo without an undone state.
pub open spec fn redone<T>(h: HistoryView<T>) -> Option<HistoryView<T>> {
    if h.redo.len() == 0 {
        None
    } else {
        Some(
            HistoryView {
                current: h.redo.last(),
                undo: h.undo.push(h.current),
                redo: h.redo.drop_last(),
            },
        )
    }
}

impl<T> History<T> {
    /// A history with one state and nothing to undo or redo.
    pub fn new(initial: T) -> (r: Self)
        ensures
            r@ == (HistoryView { current: initial, undo: Seq::<T>::empty(), redo: Seq::<T>::empty() }),
    {
        History { current: initial, undo_stack: Vec::new(), redo_stack: Vec::new() }
    }

    /// The current state.
    pub fn current(&self) -> (r: &T)
        ensures
            *r == self@.current,
    {
        &self.current
    }

    /// The current state, giving up the rest of the history.
    pub fn into_current(self) -> (r: T)
        ensures
            r == self@.current,
    {
        self.current
    }

    /// Whether there is an earlier state.
    pub fn can_undo(&self) -> (r: bool)
        ensures
            r == (self@.undo.len() > 0),
    {
        self.undo_stack.len() > 0
    }

    /// Whether there is an undone state.
    pub fn can_redo(&self) -> (r: bool)
        ensures
            r == (self@.redo.len() > 0),
    {
        self.redo_stack.len() > 0
    }

    /// Makes `next` the current state (see `recorded`).
    pub fn record(&mut self, next: T)
        ensures
            final(self)@ == recorded(old(self)@, next),
    {
        let mut previous = next;
        core::mem::swap(&mut self.current, &mut previous);
        self.undo_stack.push(previous);
        self.redo_stack.clear();
    }

    /// Puts `next` in place of the current state; the undo and redo stacks
    /// stay as they are.
    pub fn replace_current(&mut self, next: T)
        ensures
            final(self)@ == (HistoryView { current: next, ..old(self)@ }),
    {
        self.current = next;
    }

    /// Goes back one state (see `undone`).
    pub fn undo(&mut self) -> (r: Result<(), TableError>)
        ensures
            match undone(old(self)@) {
                Some(h) => r is Ok && final(self)@ == h,
                None => r == Err::<(), TableError>(TableError::NothingToUndo) && final(self)@ == old(
                    self,
                )@,
            },
    {
        match self.undo_stack.pop() {
            Some(state) => {
                let mut previous = state;
                core::mem::swap(&mut self.current, &mut previous);
                self.redo_stack.push(previous);
                Ok(())
            },
            None => Err(TableError::NothingToUndo),
        }
    }

    /// Goes forward one undone state (see `redone`).
    pub fn redo(&mut self) -> (r: Result<(), TableError>)
        ensures
            match redone(old(self)@) {
                Some(h) => r is Ok && final(self)@ == h,
                None => r == Err::<(), TableError>(TableError::NothingToRedo) && final(self)@ == old(
                    self,
                )@,
            },
    {
        match self.redo_stack.pop() {
            Some(state) => {
                let mut next = state;
                core::mem::swap(&mut self.current, &mut next);
                self.undo_stack.push(next);
                Ok(())
            },
            None => Err(TableError::NothingToRedo),
        }
    }
}

/// Undoing right after recording a state brings back the state before it and
/// the earlier undo stack; the recorded state can be redone.
pub proof fn lemma_undo_after_record<T>(h: HistoryView<T>, next: T)
    ensures
        undone(recorded(h, next)) == Some(
            HistoryView { current: h.current, undo: h.undo, redo: seq![next] },
        ),
{
    assert(h.undo.push(h.current).drop_last() =~= h.undo);
    assert(Seq::<T>::empty().push(next) =~= seq![next]);
}

/// Redo undoes an undo: the history is exactly as before.
pub proof fn lemma_redo_after_undo<T>(h: HistoryView<T>)
    requires
        undone(h) is Some,
    ensures
        redone(undone(h).unwrap()) == Some(h),
{
    assert(h.undo.drop_last().push(h.undo.last()) =~= h.undo);
    assert(h.redo.push(h.current).drop_last() =~= h.redo);
}

/// Undo undoes a redo: the history is exactly as before.
pub proof fn lemma_undo_after_redo<T>(h: HistoryView<T>)
    requires
        redone(h) is Some,
    ensures
        undone(redone(h).unwrap()) == Some(h),
{
    assert(h.redo.drop_last().push(h.redo.last()) =~= h.redo);
    assert(h.undo.push(h.current).drop_last() =~= h.undo);
}

} // verus!
