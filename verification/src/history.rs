//! Undo and redo by whole-document snapshots.
use vstd::prelude::*;

use crate::document::{Document, DocumentView, Page};
use crate::scalar::Scalar;

verus! {

/// How many earlier states are kept.
pub const MAX_HISTORY: usize = 200;

/// The document being edited, with the states before it and those undone.
pub struct History<S> {
    current: Document<S>,
    past: Vec<Document<S>>,
    future: Vec<Document<S>>,
}

/// [`History`] as sequences of documents, latest last.
#[verifier::ext_equal]
pub struct HistoryView<S> {
    pub current: DocumentView<S>,
    pub past: Seq<DocumentView<S>>,
    pub future: Seq<DocumentView<S>>,
}

pub open spec fn document_views<S: Scalar>(s: Seq<Document<S>>) -> Seq<DocumentView<S>> {
    Seq::new(s.len(), |i: int| s[i]@)
}

impl<S> HistoryView<S> {
    /// What is kept on both sides together never passes the limit.
    pub open spec fn wf(self) -> bool {
        self.past.len() + self.future.len() <= MAX_HISTORY
    }

    /// The history after the present state has been put by.
    pub open spec fn after_snapshot(self) -> Self {
        let past = self.past.push(self.current);
        HistoryView {
            past: if past.len() > MAX_HISTORY {
                past.drop_first()
            } else {
                past
            },
            future: Seq::empty(),
            ..self
        }
    }

    /// The history after the document has been edited into `document`.
    pub open spec fn with_current(self, document: DocumentView<S>) -> Self {
        HistoryView { current: document, ..self }
    }

    /// The layers of the page that is shown.
    pub open spec fn layers(self) -> Seq<crate::model::LayerView<S>> {
        self.current.page().layers
    }

    /// The history after the layers of the shown page have been edited into `layers`.
    pub open spec fn with_layers(self, layers: Seq<crate::model::LayerView<S>>) -> Self {
        self.with_current(self.current.with_layers(layers))
    }

    /// The history after the shown page has been edited into `page`.
    pub open spec fn with_page(self, page: crate::document::PageView<S>) -> Self {
        self.with_current(self.current.with_page(page))
    }

    pub open spec fn after_undo(self) -> Self {
        if self.past.len() == 0 {
            self
        } else {
            HistoryView {
                current: self.past.last(),
                past: self.past.drop_last(),
                future: self.future.push(self.current),
            }
        }
    }

    pub open spec fn after_redo(self) -> Self {
        if self.future.len() == 0 {
            self
        } else {
            HistoryView {
                current: self.future.last(),
                past: self.past.push(self.current),
                future: self.future.drop_last(),
            }
        }
    }
}

impl<S: Scalar> History<S> {
    pub closed spec fn view(&self) -> HistoryView<S> {
        HistoryView {
            current: self.current@,
            past: document_views(self.past@),
            future: document_views(self.future@),
        }
    }

    /// A history that starts with `document`.
    pub fn new(document: Document<S>) -> (r: Self)
        ensures
            r@ == (HistoryView { current: document@, past: Seq::empty(), future: Seq::empty() }),
            r@.wf(),
    {
        let r = History { current: document, past: Vec::new(), future: Vec::new() };
        assert(document_views(r.past@) =~= Seq::empty());
        assert(document_views(r.future@) =~= Seq::empty());
        r
    }

    /// The document as it is.
    pub fn get(&self) -> (r: &Document<S>)
        ensures
            r@ == self@.current,
    {
        &self.current
    }

    /// Puts the present state by, so that an undo returns to it, and forgets what was undone.
    pub fn snapshot(&mut self)
        ensures
            final(self)@ == old(self)@.after_snapshot(),
            old(self)@.wf() ==> final(self)@.wf(),
    {
        let kept = self.current.duplicate();
        let ghost before = self@;
        self.past.push(kept);
        assert(document_views(self.past@) =~= before.past.push(before.current));
        if self.past.len() > MAX_HISTORY {
            self.past.remove(0);
            assert(document_views(self.past@) =~= before.past.push(before.current).drop_first());
        }
        self.future.clear();
        assert(document_views(self.future@) =~= Seq::empty());
    }

    /// The document, to be changed.
    pub fn mutate(&mut self) -> (r: &mut Document<S>)
        ensures
            r@ == old(self)@.current,
            final(self)@ == old(self)@.with_current(final(r)@),
    {
        &mut self.current
    }

    /// The page that is shown.
    pub fn page(&self) -> (r: &Page<S>)
        requires
            self@.current.wf(),
        ensures
            r@ == self@.current.page(),
    {
        self.current.active_page()
    }

    /// The page that is shown, to be changed.
    pub fn page_mut(&mut self) -> (r: &mut Page<S>)
        requires
            old(self)@.current.wf(),
        ensures
            r@ == old(self)@.current.page(),
            final(self)@ == old(self)@.with_page(final(r)@),
    {
        self.current.active_page_mut()
    }

    /// Goes back to the state of the last snapshot.
    pub fn undo(&mut self)
        ensures
            final(self)@ == old(self)@.after_undo(),
            old(self)@.wf() ==> final(self)@.wf(),
    {
        let ghost before = self@;
        if let Some(mut document) = self.past.pop() {
            assert(document@ == before.past.last());
            std::mem::swap(&mut self.current, &mut document);
            self.future.push(document);
            assert(document_views(self.past@) =~= before.past.drop_last());
            assert(document_views(self.future@) =~= before.future.push(before.current));
        }
    }

    /// Takes the last undo back.
    pub fn redo(&mut self)
        ensures
            final(self)@ == old(self)@.after_redo(),
            old(self)@.wf() ==> final(self)@.wf(),
    {
        let ghost before = self@;
        if let Some(mut document) = self.future.pop() {
            assert(document@ == before.future.last());
            std::mem::swap(&mut self.current, &mut document);
            self.past.push(document);
            assert(document_views(self.future@) =~= before.future.drop_last());
            assert(document_views(self.past@) =~= before.past.push(before.current));
        }
    }

    pub fn can_undo(&self) -> (r: bool)
        ensures
            r == (self@.past.len() > 0),
    {
        self.past.len() > 0
    }

    pub fn can_redo(&self) -> (r: bool)
        ensures
            r == (self@.future.len() > 0),
    {
        self.future.len() > 0
    }

    /// Starts over with another document.
    pub fn replace(&mut self, document: Document<S>)
        ensures
            final(self)@ == (HistoryView {
                current: document@,
                past: Seq::empty(),
                future: Seq::empty(),
            }),
            final(self)@.wf(),
    {
        self.current = document;
        self.past.clear();
        self.future.clear();
        assert(document_views(self.past@) =~= Seq::empty());
        assert(document_views(self.future@) =~= Seq::empty());
    }
}

/// Editing the shown page into itself changes nothing.
pub proof fn lemma_unedited<S>(h: HistoryView<S>)
    requires
        h.current.wf(),
    ensures
        h.with_layers(h.layers()) == h,
        h.with_page(h.current.page()) == h,
        h.after_snapshot().layers() == h.layers(),
        h.after_snapshot().current == h.current,
{
    assert(h.current.pages.update(h.current.active_page, h.current.page()) =~= h.current.pages);
    assert(h.current.page().with_layers(h.layers()) == h.current.page());
}

/// Undoing after a snapshot and any edit brings the document back to what the snapshot saw, and
/// leaves the edit to be redone.
pub proof fn law_undo_restores_the_snapshot<S>(h: HistoryView<S>, edited: DocumentView<S>)
    ensures
        h.after_snapshot().with_current(edited).after_undo().current == h.current,
        h.after_snapshot().with_current(edited).after_undo().future == seq![edited],
{
    assert(h.after_snapshot().with_current(edited).after_undo().future =~= seq![edited]);
}

/// Redo takes an undo back, and undo takes a redo back.
pub proof fn law_undo_and_redo_are_inverse<S>(h: HistoryView<S>)
    ensures
        h.past.len() > 0 ==> h.after_undo().after_redo() == h,
        h.future.len() > 0 ==> h.after_redo().after_undo() == h,
{
    if h.past.len() > 0 {
        assert(h.after_undo().after_redo().past =~= h.past);
        assert(h.after_undo().after_redo().future =~= h.future);
    }
    if h.future.len() > 0 {
        assert(h.after_redo().after_undo().past =~= h.past);
        assert(h.after_redo().after_undo().future =~= h.future);
    }
}

/// A snapshot forgets what was undone: nothing is left to redo.
pub proof fn law_snapshot_forgets_the_undone<S>(h: HistoryView<S>)
    ensures
        h.after_snapshot().future.len() == 0,
        h.after_snapshot().after_redo() == h.after_snapshot(),
{
}

} // verus!
