//! The open datasets of a session: each with an id and its own undo history,
//! one of them selected. Ids are handed out in increasing order and never
//! reused.

use vstd::prelude::*;
use crate::error::TableError;
use crate::history::{recorded, redone, undone, History, HistoryView};

verus! {

/// The datasets of a session, in the order they were added.
pub struct Workspace<T> {
    next_id: i32,
    ids: Vec<i32>,
    histories: Vec<History<T>>,
    selected: Option<i32>,
}

/// Abstract value of a workspace.
pub struct WorkspaceView<T> {
    pub next_id: i32,
    pub ids: Seq<i32>,
    pub histories: Seq<HistoryView<T>>,
    pub selected: Option<i32>,
}

impl<T> View for Workspace<T> {
    type V = WorkspaceView<T>;

    closed spec fn view(&self) -> WorkspaceView<T> {
        WorkspaceView {
            next_id: self.next_id,
            ids: self.ids@,
            histories: self.histories@.map_values(|h: History<T>| h@),
            selected: self.selected,
        }
    }
}

/// Position of an id among the ids.
pub open spec fn position_of(ids: Seq<i32>, id: i32) -> Option<int>
    decreases ids.len(),
{
    if ids.len() == 0 {
        None
    } else {
        match position_of(ids.drop_last(), id) {
            Some(k) => Some(k),
            None => if ids.last() == id {
                Some(ids.len() - 1)
            } else {
                None
            },
        }
    }
}

/// A well-formed workspace: one history per id, ids distinct, positive and
/// below the next id, and the selection (if any) one of the ids.
pub open spec fn well_formed<T>(w: WorkspaceView<T>) -> bool {
    &&& w.ids.len() == w.histories.len()
    &&& w.next_id >= 1
    &&& forall|i: int, j: int| 0 <= i < j < w.ids.len() ==> w.ids[i] != w.ids[j]
    &&& forall|i: int| 0 <= i < w.ids.len() ==> 1 <= #[trigger] w.ids[i] < w.next_id
    &&& (w.selected matches Some(s) ==> w.ids.contains(s))
}

/// Position of the selected dataset.
pub open spec fn selected_position<T>(w: WorkspaceView<T>) -> Option<int> {
    match w.selected {
        Some(s) => position_of(w.ids, s),
        None => None,
    }
}

/// The workspace after adding a dataset with this state: it gets the next id.
pub open spec fn added<T>(w: WorkspaceView<T>, state: T) -> WorkspaceView<T> {
    WorkspaceView {
        next_id: (w.next_id + 1) as i32,
        ids: w.ids.push(w.next_id),
        histories: w.histories.push(HistoryView { current: state, undo: Seq::empty(), redo: Seq::empty() }),
        selected: w.selected,
    }
}

/// The workspace after removing the selected dataset: the selection moves to
/// the dataset now at the removed position, or to the last one, or to none.
pub open spec fn deleted<T>(w: WorkspaceView<T>, k: int) -> WorkspaceView<T> {
    let ids = w.ids.remove(k);
    WorkspaceView {
        next_id: w.next_id,
        ids,
        histories: w.histories.remove(k),
        selected: if ids.len() == 0 {
            None
        } else {
            Some(ids[if k < ids.len() { k } else { ids.len() - 1 }])
        },
    }
}

/// The workspace with the history at `k` replaced.
pub open spec fn with_history<T>(w: WorkspaceView<T>, k: int, h: HistoryView<T>) -> WorkspaceView<T> {
    WorkspaceView { histories: w.histories.update(k, h), ..w }
}

proof fn lemma_position_of<T>(w: WorkspaceView<T>, id: i32)
    requires
        well_formed(w),
    ensures
        match position_of(w.ids, id) {
            Some(k) => 0 <= k < w.ids.len() && w.ids[k] == id,
            None => !w.ids.contains(id),
        },
        w.ids.contains(id) ==> position_of(w.ids, id) is Some,
{
    lemma_position_of_seq(w.ids, id);
}

proof fn lemma_position_of_seq(ids: Seq<i32>, id: i32)
    ensures
        match position_of(ids, id) {
            Some(k) => 0 <= k < ids.len() && ids[k] == id && forall|j: int| 0 <= j < k ==> ids[j] != id,
            None => !ids.contains(id),
        },
    decreases ids.len(),
{
    if ids.len() > 0 {
        let d = ids.drop_last();
        lemma_position_of_seq(d, id);
        match position_of(d, id) {
            Some(k) => {
                assert forall|j: int| 0 <= j < k implies ids[j] != id by {
                    assert(d[j] == ids[j]);
                }
                assert(d[k] == ids[k]);
            },
            None => {
                assert forall|j: int| 0 <= j < ids.len() - 1 implies ids[j] != id by {
                    assert(d[j] == ids[j]);
                    if ids[j] == id {
                        assert(d.contains(id));
                    }
                }
                if ids.last() != id {
                    assert forall|j: int| 0 <= j < ids.len() implies ids[j] != id by {
                        if j < ids.len() - 1 {
                            assert(d[j] == ids[j]);
                            if ids[j] == id {
                                assert(d.contains(id));
                            }
                        }
                    }
                }
            },
        }
    }
}

/// The ids other than the selected one, in order.
pub open spec fn others(ids: Seq<i32>, selected: Option<i32>) -> Seq<i32>
    decreases ids.len(),
{
    if ids.len() == 0 {
        Seq::empty()
    } else {
        let k = others(ids.drop_last(), selected);
        if Some(ids.last()) == selected {
            k
        } else {
            k.push(ids.last())
        }
    }
}

impl<T> Workspace<T> {
    /// A workspace with no datasets; the first id handed out is 1.
    pub fn new() -> (r: Self)
        ensures
            r@ == (WorkspaceView::<T> { next_id: 1, ids: Seq::empty(), histories: Seq::empty(), selected: None }),
            well_formed(r@),
    {
        let r = Workspace { next_id: 1, ids: Vec::new(), histories: Vec::new(), selected: None };
        assert(r@.histories =~= Seq::<HistoryView<T>>::empty());
        r
    }

    /// Adds a dataset with this state and no history; returns its id.
    pub fn add(&mut self, state: T) -> (id: i32)
        requires
            well_formed(old(self)@),
            old(self)@.next_id < i32::MAX,
        ensures
            well_formed(final(self)@),
            id == old(self)@.next_id,
            !old(self)@.ids.contains(id),
            final(self)@ == added(old(self)@, state),
    {
        let id = self.next_id;
        let ghost before = self@;
        self.ids.push(id);
        self.histories.push(History::new(state));
        self.next_id = self.next_id + 1;
        proof {
            let ids = self.ids@;
            assert(ids =~= before.ids.push(id));
            assert forall|i: int, j: int| 0 <= i < j < ids.len() implies ids[i] != ids[j] by {
                if j == ids.len() - 1 {
                    assert(ids[i] == before.ids[i]);
                    assert(1 <= before.ids[i] < before.next_id);
                } else {
                    assert(ids[i] == before.ids[i] && ids[j] == before.ids[j]);
                }
            }
            assert forall|i: int| 0 <= i < ids.len() implies 1 <= #[trigger] ids[i] < self@.next_id by {
                if i < ids.len() - 1 {
                    assert(ids[i] == before.ids[i]);
                    assert(1 <= before.ids[i] < before.next_id);
                }
            }
            match before.selected {
                Some(x) => {
                    let j = choose|j: int| 0 <= j < before.ids.len() && before.ids[j] == x;
                    assert(ids[j] == x);
                },
                None => {},
            }
            if before.ids.contains(id) {
                let j = choose|j: int| 0 <= j < before.ids.len() && before.ids[j] == id;
                assert(1 <= before.ids[j] < before.next_id);
            }
        }
        assert(self@.histories =~= before.histories.push(
            HistoryView { current: state, undo: Seq::empty(), redo: Seq::empty() },
        ));
        id
    }

    /// The selected dataset's id.
    pub fn selected_id(&self) -> (r: Option<i32>)
        ensures
            r == self@.selected,
    {
        self.selected
    }

    /// The ids, in the order the datasets were added.
    pub fn ids(&self) -> (r: Vec<i32>)
        ensures
            r@ == self@.ids,
    {
        self.ids.clone()
    }

    fn find(&self, id: i32) -> (r: Option<usize>)
        requires
            well_formed(self@),
        ensures
            match r {
                Some(k) => position_of(self@.ids, id) == Some(k as int),
                None => position_of(self@.ids, id) is None,
            },
    {
        proof {
            lemma_position_of_seq(self@.ids, id);
        }
        let mut i: usize = 0;
        while i < self.ids.len()
            invariant
                0 <= i <= self.ids@.len(),
                forall|j: int| 0 <= j < i ==> self.ids@[j] != id,
            decreases self.ids.len() - i,
        {
            if self.ids[i] == id {
                proof {
                    lemma_position_of_seq(self.ids@, id);
                }
                return Some(i);
            }
            i += 1;
        }
        proof {
            lemma_position_of_seq(self.ids@, id);
            match position_of(self.ids@, id) {
                Some(k) => {
                    assert(self.ids@[k] == id);
                },
                None => {},
            }
        }
        None
    }

    /// The current state of the dataset with this id.
    pub fn get(&self, id: i32) -> (r: Option<&T>)
        requires
            well_formed(self@),
        ensures
            match position_of(self@.ids, id) {
                Some(k) => r == Some(&self@.histories[k].current),
                None => r is None,
            },
    {
        match self.find(id) {
            Some(k) => {
                proof {
                    lemma_position_of(self@, id);
                }
                Some(self.histories[k].current())
            },
            None => None,
        }
    }

    /// The current state of the selected dataset.
    pub fn selected_state(&self) -> (r: Option<&T>)
        requires
            well_formed(self@),
        ensures
            match selected_position(self@) {
                Some(k) => r == Some(&self@.histories[k].current),
                None => r is None,
            },
    {
        match self.selected {
            Some(id) => self.get(id),
            None => None,
        }
    }

    /// Selects the dataset with this id.
    pub fn select(&mut self, id: i32) -> (r: Result<(), TableError>)
        requires
            well_formed(old(self)@),
        ensures
            well_formed(final(self)@),
            old(self)@.ids.contains(id) ==> r is Ok && final(self)@ == (WorkspaceView { selected: Some(id), ..old(self)@ }),
            !old(self)@.ids.contains(id) ==> r == Err::<(), TableError>(TableError::DatasetNotFound(id))
                && final(self)@ == old(self)@,
    {
        proof {
            lemma_position_of(self@, id);
        }
        match self.find(id) {
            Some(_) => {
                self.selected = Some(id);
                Ok(())
            },
            None => Err(TableError::DatasetNotFound(id)),
        }
    }

    /// The ids of the datasets other than the selected one, in order.
    pub fn other_ids(&self) -> (r: Vec<i32>)
        ensures
            r@ == others(self@.ids, self@.selected),
    {
        let mut out: Vec<i32> = Vec::new();
        let mut i: usize = 0;
        while i < self.ids.len()
            invariant
                0 <= i <= self.ids@.len(),
                out@ == others(self.ids@.take(i as int), self.selected),
            decreases self.ids.len() - i,
        {
            let x = self.ids[i];
            assert(self.ids@.take(i + 1).drop_last() =~= self.ids@.take(i as int));
            if Some(x) != self.selected {
                out.push(x);
            }
            i += 1;
        }
        assert(self.ids@.take(self.ids@.len() as int) =~= self.ids@);
        out
    }

    /// Removes the selected dataset and returns its current state; the
    /// selection moves as `deleted` says.
    pub fn delete_selected(&mut self) -> (r: Result<T, TableError>)
        requires
            well_formed(old(self)@),
        ensures
            well_formed(final(self)@),
            match selected_position(old(self)@) {
                Some(k) => r == Ok::<T, TableError>(old(self)@.histories[k].current) && final(self)@ == deleted(
                    old(self)@,
                    k,
                ),
                None => r == Err::<T, TableError>(TableError::NoDatasetSelected) && final(self)@ == old(
                    self,
                )@,
            },
    {
        let id = match self.selected {
            Some(id) => id,
            None => return Err(TableError::NoDatasetSelected),
        };
        proof {
            lemma_position_of(self@, id);
        }
        let k = match self.find(id) {
            Some(k) => k,
            None => return Err(TableError::NoDatasetSelected),
        };
        let ghost before = self@;
        self.ids.remove(k);
        let h = self.histories.remove(k);
        assert(self.ids@ =~= before.ids.remove(k as int));
        assert(self@.histories =~= before.histories.remove(k as int));
        if self.ids.len() == 0 {
            self.selected = None;
        } else {
            let next = if k < self.ids.len() {
                k
            } else {
                self.ids.len() - 1
            };
            self.selected = Some(self.ids[next]);
        }
        proof {
            let ids = self.ids@;
            assert forall|i: int, j: int| 0 <= i < j < ids.len() implies ids[i] != ids[j] by {
                let bi = if i < k { i } else { i + 1 };
                let bj = if j < k { j } else { j + 1 };
                assert(ids[i] == before.ids[bi] && ids[j] == before.ids[bj]);
            }
            assert forall|i: int| 0 <= i < ids.len() implies 1 <= #[trigger] ids[i] < self@.next_id by {
                let bi = if i < k { i } else { i + 1 };
                assert(ids[i] == before.ids[bi]);
            }
            match self.selected {
                Some(s) => {
                    let next = if (k as int) < ids.len() { k as int } else { ids.len() - 1 };
                    assert(ids[next] == s);
                },
                None => {},
            }
        }
        Ok(h.into_current())
    }

    /// Makes `next` the selected dataset's current state, recording the old
    /// one for undo.
    pub fn record(&mut self, next: T) -> (r: Result<(), TableError>)
        requires
            well_formed(old(self)@),
        ensures
            well_formed(final(self)@),
            match selected_position(old(self)@) {
                Some(k) => r is Ok && final(self)@ == with_history(old(self)@, k, recorded(old(self)@.histories[k], next)),
                None => r == Err::<(), TableError>(TableError::NoDatasetSelected) && final(self)@ == old(self)@,
            },
    {
        let id = match self.selected {
            Some(id) => id,
            None => return Err(TableError::NoDatasetSelected),
        };
        proof {
            lemma_position_of(self@, id);
        }
        let k = match self.find(id) {
            Some(k) => k,
            None => return Err(TableError::NoDatasetSelected),
        };
        let ghost before = self@;
        let mut h = self.histories.remove(k);
        h.record(next);
        self.histories.insert(k, h);
        assert(self@.histories =~= before.histories.update(k as int, recorded(before.histories[k as int], next)));
        Ok(())
    }

    /// Puts `next` in place of the selected dataset's current state without
    /// recording the old one.
    pub fn replace_current(&mut self, next: T) -> (r: Result<(), TableError>)
        requires
            well_formed(old(self)@),
        ensures
            well_formed(final(self)@),
            match selected_position(old(self)@) {
                Some(k) => r is Ok && final(self)@ == with_history(
                    old(self)@,
                    k,
                    HistoryView { current: next, ..old(self)@.histories[k] },
                ),
                None => r == Err::<(), TableError>(TableError::NoDatasetSelected) && final(self)@ == old(self)@,
            },
    {
        let id = match self.selected {
            Some(id) => id,
            None => return Err(TableError::NoDatasetSelected),
        };
        proof {
            lemma_position_of(self@, id);
        }
        let k = match self.find(id) {
            Some(k) => k,
            None => return Err(TableError::NoDatasetSelected),
        };
        let ghost before = self@;
        let mut h = self.histories.remove(k);
        h.replace_current(next);
        self.histories.insert(k, h);
        assert(self@.histories =~= before.histories.update(
            k as int,
            HistoryView { current: next, ..before.histories[k as int] },
        ));
        Ok(())
    }

    /// Undoes the selected dataset's last change.
    pub fn undo(&mut self) -> (r: Result<(), TableError>)
        requires
            well_formed(old(self)@),
        ensures
            well_formed(final(self)@),
            match selected_position(old(self)@) {
                Some(k) => match undone(old(self)@.histories[k]) {
                    Some(h) => r is Ok && final(self)@ == with_history(old(self)@, k, h),
                    None => r == Err::<(), TableError>(TableError::NothingToUndo) && final(self)@ == old(self)@,
                },
                None => r == Err::<(), TableError>(TableError::NoDatasetSelected) && final(self)@ == old(self)@,
            },
    {
        let id = match self.selected {
            Some(id) => id,
            None => return Err(TableError::NoDatasetSelected),
        };
        proof {
            lemma_position_of(self@, id);
        }
        let k = match self.find(id) {
            Some(k) => k,
            None => return Err(TableError::NoDatasetSelected),
        };
        let ghost before = self@;
        let mut h = self.histories.remove(k);
        let r = h.undo();
        self.histories.insert(k, h);
        proof {
            match undone(before.histories[k as int]) {
                Some(nh) => {
                    assert(self@.histories =~= before.histories.update(k as int, nh));
                },
                None => {
                    assert(self@.histories =~= before.histories);
                },
            }
        }
        r
    }

    /// Redoes the selected dataset's last undone change.
    pub fn redo(&mut self) -> (r: Result<(), TableError>)
        requires
            well_formed(old(self)@),
        ensures
            well_formed(final(self)@),
            match selected_position(old(self)@) {
                Some(k) => match redone(old(self)@.histories[k]) {
                    Some(h) => r is Ok && final(self)@ == with_history(old(self)@, k, h),
                    None => r == Err::<(), TableError>(TableError::NothingToRedo) && final(self)@ == old(self)@,
                },
                None => r == Err::<(), TableError>(TableError::NoDatasetSelected) && final(self)@ == old(self)@,
            },
    {
        let id = match self.selected {
            Some(id) => id,
            None => return Err(TableError::NoDatasetSelected),
        };
        proof {
            lemma_position_of(self@, id);
        }
        let k = match self.find(id) {
            Some(k) => k,
            None => return Err(TableError::NoDatasetSelected),
        };
        let ghost before = self@;
        let mut h = self.histories.remove(k);
        let r = h.redo();
        self.histories.insert(k, h);
        proof {
            match redone(before.histories[k as int]) {
                Some(nh) => {
                    assert(self@.histories =~= before.histories.update(k as int, nh));
                },
                None => {
                    assert(self@.histories =~= before.histories);
                },
            }
        }
        r
    }

    /// Whether the selected dataset has a change to undo.
    pub fn can_undo(&self) -> (r: bool)
        requires
            well_formed(self@),
        ensures
            r == match selected_position(self@) {
                Some(k) => self@.histories[k].undo.len() > 0,
                None => false,
            },
    {
        match self.selected {
            Some(id) => {
                proof {
                    lemma_position_of(self@, id);
                }
                match self.find(id) {
                    Some(k) => self.histories[k].can_undo(),
                    None => false,
                }
            },
            None => false,
        }
    }

    /// Whether the selected dataset has an undone change to redo.
    pub fn can_redo(&self) -> (r: bool)
        requires
            well_formed(self@),
        ensures
            r == match selected_position(self@) {
                Some(k) => self@.histories[k].redo.len() > 0,
                None => false,
            },
    {
        match self.selected {
            Some(id) => {
                proof {
                    lemma_position_of(self@, id);
                }
                match self.find(id) {
                    Some(k) => self.histories[k].can_redo(),
                    None => false,
                }
            },
            None => false,
        }
    }
}

} // verus!

verus! {

/// Ids are never reused: the id a new dataset gets is greater than the id of
/// every dataset the workspace holds.
pub proof fn lemma_new_id_exceeds_all<T>(w: WorkspaceView<T>, state: T)
    requires
        well_formed(w),
    ensures
        forall|i: int| 0 <= i < w.ids.len() ==> w.ids[i] < added(w, state).ids.last(),
{
    assert(added(w, state).ids.last() == w.next_id);
}

/// Undoing right after recording a change to the selected dataset brings its
/// state back, and the change can be redone.
pub proof fn lemma_undo_after_record_in_workspace<T>(w: WorkspaceView<T>, k: int, next: T)
    requires
        well_formed(w),
        selected_position(w) == Some(k),
    ensures
        ({
            let w1 = with_history(w, k, recorded(w.histories[k], next));
            &&& selected_position(w1) == Some(k)
            &&& undone(w1.histories[k]) matches Some(h) && h.current == w.histories[k].current
                && h.undo == w.histories[k].undo && h.redo == seq![next]
        }),
{
    lemma_position_of(w, w.selected->0);
    crate::history::lemma_undo_after_record(w.histories[k], next);
    let w1 = with_history(w, k, recorded(w.histories[k], next));
    assert(w1.histories[k] == recorded(w.histories[k], next));
}

} // verus!
