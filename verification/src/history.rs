//! The history of an editing session: the states saved before each change,
//! to undo them, and the states undone, to redo them.
use vstd::prelude::*;
use crate::document::{Document, DocumentView};

verus! {

/// The documents of a sequence, as views.
pub open spec fn document_views(s: Seq<Document>) -> Seq<DocumentView> {
    s.map_values(|d: Document| d@)
}

/// What a history is: the states to go back to and the states undone, the
/// latest last in each.
#[verifier::ext_equal]
pub struct HistoryView {
    pub undo: Seq<DocumentView>,
    pub redo: Seq<DocumentView>,
}

impl HistoryView {
    /// After saving state `d` before a change: `d` is the latest state to go
    /// back to, and nothing is left to redo.
    pub open spec fn saved(self, d: DocumentView) -> HistoryView {
        HistoryView { undo: self.undo.push(d), redo: Seq::empty() }
    }

    /// Undo from the current state `cur`: the history after and the state
    /// after. The latest saved state comes back and `cur` can be redone;
    /// with nothing saved, nothing changes.
    pub open spec fn undone(self, cur: DocumentView) -> (HistoryView, DocumentView) {
        if self.undo.len() > 0 {
            (HistoryView { undo: self.undo.drop_last(), redo: self.redo.push(cur) }, self.undo.last())
        } else {
            (self, cur)
        }
    }

    /// Redo from the current state `cur`: the latest undone state comes back
    /// and `cur` can be undone again; with nothing undone, nothing changes.
    pub open spec fn redone(self, cur: DocumentView) -> (HistoryView, DocumentView) {
        if self.redo.len() > 0 {
            (HistoryView { undo: self.undo.push(cur), redo: self.redo.drop_last() }, self.redo.last())
        } else {
            (self, cur)
        }
    }
}

/// The undo and redo stacks of an editing session. The history has no limit
/// of its own: it grows with the changes.
pub struct History {
    pub undo_stack: Vec<Document>,
    pub redo_stack: Vec<Document>,
}

impl View for History {
    type V = HistoryView;

    open spec fn view(&self) -> HistoryView {
        HistoryView { undo: document_views(self.undo_stack@), redo: document_views(self.redo_stack@) }
    }
}

impl History {
    /// Every saved state is a well-formed document.
    pub open spec fn wf(&self) -> bool {
        &&& forall|i: int| 0 <= i < self.undo_stack@.len() ==> #[trigger] self.undo_stack@[i].wf()
        &&& forall|i: int| 0 <= i < self.redo_stack@.len() ==> #[trigger] self.redo_stack@[i].wf()
    }

    /// An empty history.
    pub fn new() -> (h: Self)
        ensures
            h.wf(),
            h@.undo.len() == 0,
            h@.redo.len() == 0,
    {
        History { undo_stack: Vec::new(), redo_stack: Vec::new() }
    }

    /// Saves (a copy of) `doc` before a change; what was undone can no longer
    /// be redone.
    pub fn push(&mut self, doc: &Document)
        requires
            old(self).wf(),
            doc.wf(),
        ensures
            final(self).wf(),
            final(self)@ == old(self)@.saved(doc@),
    {
        let copy = doc.clone();
        self.undo_stack.push(copy);
        self.redo_stack.clear();
        proof {
            lemma_views_push(old(self).undo_stack@, copy);
            assert(document_views(self.redo_stack@) =~= Seq::<DocumentView>::empty());
        }
    }

    /// Undo: the latest saved state replaces `doc`, which can be redone.
    /// Gives `false`, and changes nothing, when nothing is saved.
    pub fn undo(&mut self, doc: &mut Document) -> (done: bool)
        requires
            old(self).wf(),
            old(doc).wf(),
        ensures
            final(self).wf(),
            final(doc).wf(),
            done == (old(self)@.undo.len() > 0),
            (final(self)@, final(doc)@) == old(self)@.undone(old(doc)@),
    {
        match self.undo_stack.pop() {
            Some(prev) => {
                let mut prev = prev;
                proof {
                    assert(old(self).undo_stack@.last() == prev);
                    assert(document_views(self.undo_stack@) =~= document_views(old(self).undo_stack@).drop_last());
                }
                std::mem::swap(doc, &mut prev);
                self.redo_stack.push(prev);
                proof {
                    lemma_views_push(old(self).redo_stack@, prev);
                }
                true
            },
            None => false,
        }
    }

    /// Redo: the latest undone state replaces `doc`, which can be undone
    /// again. Gives `false`, and changes nothing, when nothing was undone.
    pub fn redo(&mut self, doc: &mut Document) -> (done: bool)
        requires
            old(self).wf(),
            old(doc).wf(),
        ensures
            final(self).wf(),
            final(doc).wf(),
            done == (old(self)@.redo.len() > 0),
            (final(self)@, final(doc)@) == old(self)@.redone(old(doc)@),
    {
        match self.redo_stack.pop() {
            Some(next) => {
                let mut next = next;
                proof {
                    assert(old(self).redo_stack@.last() == next);
                    assert(document_views(self.redo_stack@) =~= document_views(old(self).redo_stack@).drop_last());
                }
                std::mem::swap(doc, &mut next);
                self.undo_stack.push(next);
                proof {
                    lemma_views_push(old(self).undo_stack@, next);
                }
                true
            },
            None => false,
        }
    }
}

/// The views of a sequence with one more document are the views with one
/// more view.
proof fn lemma_views_push(s: Seq<Document>, d: Document)
    ensures
        document_views(s.push(d)) == document_views(s).push(d@),
{
    assert(document_views(s.push(d)) =~= document_views(s).push(d@));
}

/// Undo right after saving a state gives that state back, whatever the
/// current state.
pub proof fn law_undo_restores_saved(h: HistoryView, saved: DocumentView, cur: DocumentView)
    ensures
        h.saved(saved).undone(cur).1 == saved,
        h.saved(saved).undone(cur).0.undo == h.undo,
{
    assert(h.saved(saved).undo.drop_last() =~= h.undo);
}

/// Redo right after an undo brings back the state and the history from
/// before the undo.
pub proof fn law_redo_after_undo(h: HistoryView, cur: DocumentView)
    requires
        h.undo.len() > 0,
    ensures
        h.undone(cur).0.redone(h.undone(cur).1) == (h, cur),
{
    let (h1, d1) = h.undone(cur);
    assert(h1.undo.push(d1) =~= h.undo);
    assert(h1.redo.drop_last() =~= h.redo);
}

/// Undo right after a redo brings back the state and the history from
/// before the redo.
pub proof fn law_undo_after_redo(h: HistoryView, cur: DocumentView)
    requires
        h.redo.len() > 0,
    ensures
        h.redone(cur).0.undone(h.redone(cur).1) == (h, cur),
{
    let (h1, d1) = h.redone(cur);
    assert(h1.redo.push(d1) =~= h.redo);
    assert(h1.undo.drop_last() =~= h.undo);
}

/// After a new change is saved there is nothing to redo.
pub proof fn law_save_clears_redo(h: HistoryView, saved: DocumentView, cur: DocumentView)
    ensures
        h.saved(saved).redone(cur) == (h.saved(saved), cur),
{
}

/// The active layer brought within a stack of `n` layers: at most the top
/// one (0 for an empty stack).
pub open spec fn clamped_layer(active: usize, n: nat) -> usize {
    if n == 0 {
        0
    } else if active <= n - 1 {
        active
    } else {
        (n - 1) as usize
    }
}

/// An editing session: the document and its history, the active layer, the
/// selected objects (one picked object and a set), a floating selection not
/// yet committed (`F` holds its pixels and placement), and whether there are
/// unsaved changes.
pub struct Session<F> {
    pub document: Document,
    pub history: History,
    pub active_layer: usize,
    pub selected_obj: Option<usize>,
    pub sel_set: Vec<usize>,
    pub floating: Option<F>,
    pub modified: bool,
}

impl<F> Session<F> {
    /// The document and every saved state are well formed.
    pub open spec fn wf(&self) -> bool {
        self.document.wf() && self.history.wf()
    }

    /// A session on `document`, with no history, the bottom layer active,
    /// nothing selected or floating and no unsaved change.
    pub fn new(document: Document) -> (s: Self)
        requires
            document.wf(),
        ensures
            s.wf(),
            s.document == document,
            s.history@.undo.len() == 0,
            s.history@.redo.len() == 0,
            s.active_layer == 0,
            s.selected_obj is None,
            s.sel_set@.len() == 0,
            s.floating is None,
            !s.modified,
    {
        Session {
            document,
            history: History::new(),
            active_layer: 0,
            selected_obj: None,
            sel_set: Vec::new(),
            floating: None,
            modified: false,
        }
    }

    /// Saves the document before a change: it can be undone, what was undone
    /// can no longer be redone, and the session has unsaved changes.
    pub fn push_undo(&mut self)
        requires
            old(self).wf(),
        ensures
            final(self).wf(),
            final(self).history@ == old(self).history@.saved(old(self).document@),
            final(self).document == old(self).document,
            final(self).active_layer == old(self).active_layer,
            final(self).selected_obj == old(self).selected_obj,
            final(self).sel_set@ == old(self).sel_set@,
            final(self).floating == old(self).floating,
            final(self).modified,
    {
        self.history.push(&self.document);
        self.modified = true;
    }

    /// Undo: the latest saved document comes back (see `HistoryView::undone`),
    /// the active layer is brought within its layers, a floating selection is
    /// dropped, nothing stays selected and the session has unsaved changes.
    /// With nothing saved, nothing changes and the result is `false`.
    pub fn undo(&mut self) -> (done: bool)
        requires
            old(self).wf(),
        ensures
            final(self).wf(),
            done == (old(self).history@.undo.len() > 0),
            (final(self).history@, final(self).document@) == old(self).history@.undone(old(self).document@),
            done ==> final(self).active_layer == clamped_layer(old(self).active_layer, final(self).document@.layers.len()),
            done ==> final(self).floating is None && final(self).selected_obj is None && final(self).sel_set@.len() == 0
                && final(self).modified,
            !done ==> final(self).active_layer == old(self).active_layer && final(self).floating == old(self).floating
                && final(self).selected_obj == old(self).selected_obj && final(self).sel_set@ == old(self).sel_set@
                && final(self).modified == old(self).modified,
    {
        let done = self.history.undo(&mut self.document);
        if done {
            self.after_step();
        }
        done
    }

    /// Redo: the latest undone document comes back (see
    /// `HistoryView::redone`), with the active layer, selections and
    /// floating selection treated as by `undo`. With nothing undone, nothing
    /// changes and the result is `false`.
    pub fn redo(&mut self) -> (done: bool)
        requires
            old(self).wf(),
        ensures
            final(self).wf(),
            done == (old(self).history@.redo.len() > 0),
            (final(self).history@, final(self).document@) == old(self).history@.redone(old(self).document@),
            done ==> final(self).active_layer == clamped_layer(old(self).active_layer, final(self).document@.layers.len()),
            done ==> final(self).floating is None && final(self).selected_obj is None && final(self).sel_set@.len() == 0
                && final(self).modified,
            !done ==> final(self).active_layer == old(self).active_layer && final(self).floating == old(self).floating
                && final(self).selected_obj == old(self).selected_obj && final(self).sel_set@ == old(self).sel_set@
                && final(self).modified == old(self).modified,
    {
        let done = self.history.redo(&mut self.document);
        if done {
            self.after_step();
        }
        done
    }

    /// After the document was swapped by undo or redo: the active layer
    /// within the layers, nothing selected or floating, changes unsaved.
    fn after_step(&mut self)
        ensures
            final(self).document == old(self).document,
            final(self).history == old(self).history,
            final(self).active_layer == clamped_layer(old(self).active_layer, old(self).document@.layers.len()),
            final(self).floating is None,
            final(self).selected_obj is None,
            final(self).sel_set@.len() == 0,
            final(self).modified,
    {
        let n = self.document.layers.len();
        let top = if n == 0 { 0 } else { n - 1 };
        if self.active_layer > top {
            self.active_layer = top;
        }
        self.floating = None;
        self.sel_set.clear();
        self.selected_obj = None;
        self.modified = true;
    }
}

} // verus!
