//! The editor's edit history: what was placed where, so that it can be taken
//! back and put again.
//!
//! Both the log of edits to take back and the log of edits to put again hold
//! a bounded number of entries. When a log is full its oldest entry is
//! dropped. Recording a fresh edit leaves the log of edits to put again as
//! it is.

use std::collections::VecDeque;
use vstd::prelude::*;
use crate::tiles::Tile;

verus! {

/// How many edits a fresh history keeps in each of its logs.
pub const HISTORY_LIMIT: usize = 50;

/// One edit: the tile at `(iy, ix)` went from `old_tile` to `new_tile`.
#[derive(PartialEq, Eq, Structural, Copy, Clone, Debug)]
pub struct Edit {
    pub iy: usize,
    pub ix: usize,
    pub old_tile: Tile,
    pub new_tile: Tile,
}

/// `e` added at the young end of a log, and the oldest entry dropped if the
/// log then holds more than `limit` entries.
pub open spec fn push_bounded(log: Seq<Edit>, e: Edit, limit: usize) -> Seq<Edit> {
    if log.len() + 1 > limit {
        log.push(e).drop_first()
    } else {
        log.push(e)
    }
}

/// A log after a run of edits has been recorded, oldest first.
pub open spec fn push_all(log: Seq<Edit>, es: Seq<Edit>, limit: usize) -> Seq<Edit>
    decreases es.len(),
{
    if es.len() == 0 {
        log
    } else {
        push_all(push_bounded(log, es[0], limit), es.drop_first(), limit)
    }
}

/// The youngest `limit` entries of a sequence, or all of it if it is shorter.
pub open spec fn youngest(s: Seq<Edit>, limit: usize) -> Seq<Edit> {
    if s.len() > limit {
        s.subrange(s.len() - limit, s.len() as int)
    } else {
        s
    }
}

/// However many edits are recorded, the log afterwards holds the youngest
/// `limit` of all that it held and all that were recorded, in order.
pub proof fn lemma_push_all_keeps_youngest(log: Seq<Edit>, es: Seq<Edit>, limit: usize)
    requires
        log.len() <= limit,
    ensures
        push_all(log, es, limit) == youngest(log + es, limit),
        push_all(log, es, limit).len() <= limit,
    decreases es.len(),
{
    if es.len() == 0 {
        assert(log + es =~= log);
    } else {
        let next = push_bounded(log, es[0], limit);
        lemma_push_all_keeps_youngest(next, es.drop_first(), limit);
        let all = log + es;
        let rest = next + es.drop_first();
        if log.len() + 1 > limit {
            assert(rest =~= all.drop_first());
            assert(youngest(rest, limit) =~= youngest(all, limit));
        } else {
            assert(rest =~= all);
        }
    }
}

/// The mathematical content of a history: both logs, oldest entry first.
pub struct UndoView {
    pub undo: Seq<Edit>,
    pub redo: Seq<Edit>,
    pub limit: usize,
}

impl UndoView {
    /// Neither log holds more than the limit.
    pub open spec fn wf(self) -> bool {
        self.undo.len() <= self.limit && self.redo.len() <= self.limit
    }

    /// The history after `e` has been recorded.
    pub open spec fn edit(self, e: Edit) -> UndoView {
        UndoView { undo: push_bounded(self.undo, e, self.limit), ..self }
    }

    /// The history after the youngest edit has been taken back.
    pub open spec fn undo(self) -> UndoView {
        if self.undo.len() > 0 {
            UndoView {
                undo: self.undo.drop_last(),
                redo: push_bounded(self.redo, self.undo.last(), self.limit),
                ..self
            }
        } else {
            self
        }
    }

    /// The history after the edit taken back last has been put again.
    pub open spec fn redo(self) -> UndoView {
        if self.redo.len() > 0 {
            UndoView {
                undo: push_bounded(self.undo, self.redo.last(), self.limit),
                redo: self.redo.drop_last(),
                ..self
            }
        } else {
            self
        }
    }

    /// An edit that has just been recorded is the one that is taken back
    /// next, and once taken back it is the one that is put again next.
    pub proof fn lemma_edit_undo_redo(self, e: Edit)
        requires
            self.limit >= 1,
        ensures
            self.edit(e).undo.len() > 0,
            self.edit(e).undo.last() == e,
            self.edit(e).undo().redo.len() > 0,
            self.edit(e).undo().redo.last() == e,
            self.edit(e).undo().redo().undo.len() > 0,
            self.edit(e).undo().redo().undo.last() == e,
            self.wf() ==> self.edit(e).wf() && self.edit(e).undo().wf() && self.edit(e).undo().redo().wf(),
    {
    }
}

/// The edit history of one room.
#[derive(Debug)]
pub struct Undo {
    undo: VecDeque<Edit>,
    redo: VecDeque<Edit>,
    limit: usize,
}

impl View for Undo {
    type V = UndoView;

    closed spec fn view(&self) -> UndoView {
        UndoView { undo: self.undo@, redo: self.redo@, limit: self.limit }
    }
}

impl Undo {
    /// An empty history that keeps fifty edits in each log.
    pub fn new() -> (u: Self)
        ensures
            u@ == (UndoView { undo: Seq::empty(), redo: Seq::empty(), limit: HISTORY_LIMIT }),
            u@.wf(),
    {
        Undo { undo: VecDeque::new(), redo: VecDeque::new(), limit: HISTORY_LIMIT }
    }

    /// An empty history that keeps `limit` edits in each log.
    pub fn with_limit(limit: usize) -> (u: Self)
        ensures
            u@ == (UndoView { undo: Seq::empty(), redo: Seq::empty(), limit }),
            u@.wf(),
    {
        Undo { undo: VecDeque::new(), redo: VecDeque::new(), limit }
    }

    /// Records an edit.
    pub fn edit(&mut self, edit: Edit)
        ensures
            final(self)@ == old(self)@.edit(edit),
            old(self)@.wf() ==> final(self)@.wf(),
    {
        self.undo.push_back(edit);
        if self.undo.len() > self.limit {
            self.undo.pop_front();
        }
        assert(self.undo@ =~= push_bounded(old(self)@.undo, edit, self.limit));
    }

    /// Takes back the youngest edit and returns it, so that the caller can
    /// put its old tile back. Returns `None` when there is nothing to take
    /// back.
    pub fn undo(&mut self) -> (r: Option<Edit>)
        ensures
            final(self)@ == old(self)@.undo(),
            r == if old(self)@.undo.len() > 0 {
                Some(old(self)@.undo.last())
            } else {
                None
            },
            old(self)@.wf() ==> final(self)@.wf(),
    {
        if let Some(edit) = self.undo.pop_back() {
            self.redo.push_back(edit);
            if self.redo.len() > self.limit {
                self.redo.pop_front();
            }
            assert(self.undo@ =~= old(self)@.undo.drop_last());
            assert(self.redo@ =~= push_bounded(old(self)@.redo, edit, self.limit));
            Some(edit)
        } else {
            None
        }
    }

    /// Puts again the edit that was taken back last and returns it, so that
    /// the caller can place its new tile. Returns `None` when nothing has
    /// been taken back.
    pub fn redo(&mut self) -> (r: Option<Edit>)
        ensures
            final(self)@ == old(self)@.redo(),
            r == if old(self)@.redo.len() > 0 {
                Some(old(self)@.redo.last())
            } else {
                None
            },
            old(self)@.wf() ==> final(self)@.wf(),
    {
        if let Some(edit) = self.redo.pop_back() {
            self.undo.push_back(edit);
            if self.undo.len() > self.limit {
                self.undo.pop_front();
            }
            assert(self.redo@ =~= old(self)@.redo.drop_last());
            assert(self.undo@ =~= push_bounded(old(self)@.undo, edit, self.limit));
            Some(edit)
        } else {
            None
        }
    }
}

} // verus!
