//! What the panels around the canvas ask for.
use vstd::prelude::*;

use crate::alignment::{AlignEdge, DistributeAxis};
use crate::app::{
    first_fill, palette_set, preset_inserted, selection_aligned, selection_combined,
    selection_copied, selection_distributed, selection_edited, selection_grouped, selection_tidied,
    selection_ungrouped, sound, unnamed, App, AppView, Panels,
};
use crate::canvas::{CanvasView, Session};
use crate::color::Color32;
use crate::document::{
    page_views, swatch_views, Document, DocumentView, Page, PageView, Swatch,
};
use crate::edits::{edit_one, edited_one, remove_one, successor, EditView, LayerEdit};
use crate::geometry::Vec2;
use crate::grouping::{
    can_copy_all, copied, duplicate_layers, move_layer, moved_layer,
};
use crate::history::History;
use crate::model::{group_views, BoolOp, LayerId};
use crate::names::{decimal, push_decimal};
use crate::point_editing::{drop_id, ids_without};
use crate::scalar::Scalar;
use crate::shortcuts::Request;

verus! {

broadcast use group_views;

/// What the bar of pages asks for.
#[derive(Debug, PartialEq)]
pub enum PagesAction {
    Select(usize),
    Add,
    Rename(usize, String),
    Delete(usize),
}

pub enum PagesActionView {
    Select(int),
    Add,
    Rename(int, Seq<char>),
    Delete(int),
}

impl PagesAction {
    pub open spec fn view(&self) -> PagesActionView {
        match *self {
            PagesAction::Select(i) => PagesActionView::Select(i as int),
            PagesAction::Add => PagesActionView::Add,
            PagesAction::Rename(i, name) => PagesActionView::Rename(i as int, name@),
            PagesAction::Delete(i) => PagesActionView::Delete(i as int),
        }
    }
}

/// A document with an empty page more, which is shown.
pub open spec fn page_added<S>(d: DocumentView<S>, name: Seq<char>) -> DocumentView<S> {
    DocumentView {
        pages: d.pages.push(PageView { name, layers: Seq::empty(), guides: Seq::empty() }),
        active_page: d.pages.len() as int,
        ..d
    }
}

/// A document without a page. The last one stays; the shown page stays shown, or the one that
/// takes its place.
pub open spec fn page_removed<S>(d: DocumentView<S>, i: int) -> DocumentView<S> {
    if d.pages.len() <= 1 || !(0 <= i < d.pages.len()) {
        d
    } else {
        DocumentView {
            pages: d.pages.remove(i),
            active_page: if d.active_page > i || d.active_page == d.pages.len() - 1 {
                d.active_page - 1
            } else {
                d.active_page
            },
            ..d
        }
    }
}

/// A document with another name for one of its pages.
pub open spec fn page_renamed<S>(d: DocumentView<S>, i: int, name: Seq<char>) -> DocumentView<S> {
    if 0 <= i < d.pages.len() {
        DocumentView { pages: d.pages.update(i, PageView { name, ..d.pages[i] }), ..d }
    } else {
        d
    }
}

/// The session after an action of the bar of pages.
pub open spec fn pages_acted<S: Scalar>(s: Session<S>, action: PagesActionView) -> Session<S> {
    let h = s.history.after_snapshot();
    match action {
        PagesActionView::Select(i) => Session {
            history: s.history.with_current(
                DocumentView { active_page: i, ..s.history.current },
            ),
            selection: Seq::empty(),
            ..s
        },
        PagesActionView::Add => Session {
            history: h.with_current(
                page_added(h.current, "Page "@ + decimal(h.current.pages.len() as int + 1)),
            ),
            selection: Seq::empty(),
            ..s
        },
        PagesActionView::Rename(i, name) => Session {
            history: h.with_current(page_renamed(h.current, i, name)),
            ..s
        },
        PagesActionView::Delete(i) => Session {
            history: h.with_current(page_removed(h.current, i)),
            selection: Seq::empty(),
            ..s
        },
    }
}

/// What the panel of layers asks for.
#[derive(Debug, PartialEq)]
pub enum LayerAction {
    Close,
    Copy(LayerId),
    Paste,
    PasteOver,
    Delete(LayerId),
    Duplicate(LayerId),
    ToggleVisible(LayerId),
    ToggleLocked(LayerId),
    ToggleMask(LayerId),
    ToggleIgnoreMask(LayerId),
    Rename(LayerId, String),
    SetChildBoolOp(LayerId, BoolOp),
    Move { id: LayerId, new_parent: Option<LayerId>, index: usize },
}

pub enum LayerActionView<S> {
    Close,
    /// Something that is done outside.
    Ask,
    Delete(LayerId),
    Duplicate(LayerId),
    Edit(LayerId, EditView<S>),
    Move(LayerId, Option<LayerId>, int),
}

impl LayerAction {
    pub open spec fn view<S>(&self) -> LayerActionView<S> {
        match *self {
            LayerAction::Close => LayerActionView::Close,
            LayerAction::Copy(_) | LayerAction::Paste | LayerAction::PasteOver =>
                LayerActionView::Ask,
            LayerAction::Delete(id) => LayerActionView::Delete(id),
            LayerAction::Duplicate(id) => LayerActionView::Duplicate(id),
            LayerAction::ToggleVisible(id) => LayerActionView::Edit(id, EditView::ToggleVisible),
            LayerAction::ToggleLocked(id) => LayerActionView::Edit(id, EditView::ToggleLocked),
            LayerAction::ToggleMask(id) => LayerActionView::Edit(id, EditView::ToggleMask),
            LayerAction::ToggleIgnoreMask(id) => LayerActionView::Edit(
                id,
                EditView::ToggleIgnoreMask,
            ),
            LayerAction::Rename(id, name) => LayerActionView::Edit(id, EditView::Rename(name@)),
            LayerAction::SetChildBoolOp(id, op) => LayerActionView::Edit(
                id,
                EditView::SetBoolOp(op),
            ),
            LayerAction::Move { id, new_parent, index } => LayerActionView::Move(
                id,
                new_parent,
                index as int,
            ),
        }
    }
}

/// Whether an action changes the document, so that a snapshot is due before it; pasting takes its
/// own.
pub open spec fn changes_layers<S>(action: LayerActionView<S>) -> bool {
    !(action is Close) && !(action is Ask)
}

/// What an action of the panel of layers needs from outside.
pub open spec fn layer_request(action: LayerAction) -> Option<Request> {
    match action {
        LayerAction::Copy(id) => Some(Request::CopyOne(id)),
        LayerAction::Paste => Some(Request::Paste { over: false }),
        LayerAction::PasteOver => Some(Request::Paste { over: true }),
        _ => None,
    }
}

/// The session after one layer was deleted: what took its place in its container is selected.
pub open spec fn layer_deleted<S: Scalar>(s: Session<S>, id: LayerId) -> Session<S> {
    let layers = s.history.layers();
    let after = crate::document::without(layers, id);
    match successor(layers, after, id) {
        Some((next, parent)) => Session {
            canvas: CanvasView { insert_hint_parent: Some(parent), ..s.canvas },
            history: s.history.with_layers(after),
            selection: seq![next],
            ..s
        },
        None => Session {
            history: s.history.with_layers(after),
            selection: ids_without(s.selection, id),
            ..s
        },
    }
}

/// The state after one action of the panel of layers, the snapshot aside.
#[verifier::opaque]
pub open spec fn layer_acted<S: Scalar>(a: AppView<S>, action: LayerActionView<S>) -> AppView<S> {
    let s = a.session;
    let layers = s.history.layers();
    match action {
        LayerActionView::Close => AppView { panels: Panels { layers: false, ..a.panels }, ..a },
        LayerActionView::Ask => a,
        LayerActionView::Edit(id, edit) => AppView {
            session: Session {
                history: s.history.with_layers(edited_one(layers, id, edit)),
                ..s
            },
            ..a
        },
        LayerActionView::Move(id, parent, index) => AppView {
            session: Session {
                history: s.history.with_layers(moved_layer(layers, id, parent, index)),
                ..s
            },
            ..a
        },
        LayerActionView::Duplicate(id) => {
            let c = copied(layers, seq![id], s.canvas.duplicate_offset, false, s.next);
            AppView {
                session: Session {
                    history: s.history.with_layers(c.0),
                    selection: if c.1.len() > 0 {
                        seq![c.1[0]]
                    } else {
                        s.selection
                    },
                    next: c.2,
                    ..s
                },
                ..a
            }
        },
        LayerActionView::Delete(id) => AppView { session: layer_deleted(s, id), ..a },
    }
}

/// What the inspector asks for.
#[derive(Debug, PartialEq)]
pub enum InspectorAction<S> {
    Close,
    Duplicate,
    Group,
    Ungroup,
    Boolean(BoolOp),
    Align(AlignEdge, bool),
    Distribute(DistributeAxis),
    Tidy(S),
    Flip { horizontal: bool },
    Flatten,
    InsertArtboardPreset(Vec2<S>),
}

/// What an action of the inspector needs from outside.
pub open spec fn inspector_request<S>(action: InspectorAction<S>) -> Option<Request> {
    match action {
        InspectorAction::Flip { horizontal } => Some(Request::Flip { horizontal }),
        InspectorAction::Flatten => Some(Request::Flatten),
        _ => None,
    }
}

/// The state after an action of the inspector.
pub open spec fn inspector_acted<S: Scalar>(a: AppView<S>, action: InspectorAction<S>) -> AppView<S> {
    match action {
        InspectorAction::Close => AppView { panels: Panels { inspector: false, ..a.panels }, ..a },
        InspectorAction::Duplicate => AppView { session: selection_copied(a.session, false), ..a },
        InspectorAction::Group => AppView { session: selection_grouped(a.session), ..a },
        InspectorAction::Ungroup => AppView { session: selection_ungrouped(a.session), ..a },
        InspectorAction::Boolean(op) => AppView {
            session: selection_combined(a.session, op),
            ..a
        },
        InspectorAction::Align(edge, to_artboard) => AppView {
            session: selection_aligned(a.session, edge, to_artboard),
            ..a
        },
        InspectorAction::Distribute(axis) => AppView {
            session: selection_distributed(a.session, axis),
            ..a
        },
        InspectorAction::Tidy(spacing) => AppView {
            session: selection_tidied(a.session, spacing),
            ..a
        },
        InspectorAction::Flip { .. } | InspectorAction::Flatten => a,
        InspectorAction::InsertArtboardPreset(size) => AppView {
            session: preset_inserted(a.session, size),
            ..a
        },
    }
}

/// Takes a layer off the page, and tells what is to be selected in its place.
fn delete_from<S: Scalar>(history: &mut History<S>, id: LayerId) -> (r: Option<(LayerId, LayerId)>)
    requires
        old(history)@.current.wf(),
    ensures
        final(history)@ == old(history)@.with_layers(
            crate::document::without(old(history)@.layers(), id),
        ),
        r == successor(
            old(history)@.layers(),
            crate::document::without(old(history)@.layers(), id),
            id,
        ),
{
    remove_one(history.page_mut(), id)
}

/// Gives a page of a document another name.
fn rename_page<S: Scalar>(document: &mut crate::document::Document<S>, i: usize, name: String)
    ensures
        final(document)@ == page_renamed(old(document)@, i as int, name@),
{
    let ghost before = document@.pages;
    let ghost n = name@;
    if i < document.pages.len() {
        let page = &mut document.pages[i];
        page.name = name;
        assert(page_views(document.pages@) =~= before.update(
            i as int,
            PageView { name: n, ..before[i as int] },
        ));
    }
}

/// Adds an empty page to a document, and shows it.
fn add_page<S: Scalar>(document: &mut crate::document::Document<S>, name: String)
    ensures
        final(document)@ == page_added(old(document)@, name@),
{
    let ghost before = document@.pages;
    let n = document.pages.len();
    let page = Page::new(name.as_str());
    let ghost v = page@;
    document.pages.push(page);
    document.active_page = n;
    assert(page_views(document.pages@) =~= before.push(v));
    assert(v.layers =~= Seq::empty());
    assert(v.guides =~= Seq::empty());
}

/// Takes a page off a document, unless it is the last.
fn remove_page<S: Scalar>(document: &mut crate::document::Document<S>, i: usize)
    requires
        old(document)@.wf(),
    ensures
        final(document)@ == page_removed(old(document)@, i as int),
{
    let ghost before = document@.pages;
    let n = document.pages.len();
    if n > 1 && i < n {
        let gone = document.pages.remove(i);
        assert(page_views(document.pages@) =~= before.remove(i as int));
        if document.active_page > i || document.active_page == n - 1 {
            document.active_page = document.active_page - 1;
        }
    }
}

impl<S: Scalar> App<S> {
    /// Does what the bar of pages asks for.
    pub fn apply_pages_action(&mut self, action: PagesAction)
        requires
            old(self).wf(),
            action matches PagesAction::Select(i) ==> i
                < old(self)@.session.history.current.pages.len(),
            old(self)@.session.history.current.pages.len() < u64::MAX,
        ensures
            final(self).wf(),
            final(self)@ == (AppView {
                session: pages_acted(old(self)@.session, action@),
                ..old(self)@
            }),
    {
        match action {
            PagesAction::Select(i) => {
                self.history.mutate().active_page = i;
                self.selection = Vec::new();
                assert(self.selection@ =~= Seq::empty());
            },
            PagesAction::Add => {
                self.history.snapshot();
                let n = self.history.get().pages.len();
                let mut name = "Page ".to_owned();
                push_decimal(&mut name, n as u64 + 1);
                add_page(self.history.mutate(), name);
                self.selection = Vec::new();
                assert(self.selection@ =~= Seq::empty());
            },
            PagesAction::Rename(i, name) => {
                self.history.snapshot();
                rename_page(self.history.mutate(), i, name);
            },
            PagesAction::Delete(i) => {
                self.history.snapshot();
                remove_page(self.history.mutate(), i);
                self.selection = Vec::new();
                assert(self.selection@ =~= Seq::empty());
            },
        }
    }

    /// Takes all guides off the page.
    pub fn clear_guides(&mut self)
        requires
            old(self).wf(),
        ensures
            final(self).wf(),
            final(self)@ == (AppView {
                session: Session {
                    history: ({
                        let h = old(self)@.session.history.after_snapshot();
                        h.with_page(PageView { guides: Seq::empty(), ..h.current.page() })
                    }),
                    ..old(self)@.session
                },
                ..old(self)@
            }),
    {
        self.history.snapshot();
        let page = self.history.page_mut();
        page.guides = Vec::new();
        assert(page.guides@ =~= Seq::empty());
    }

    /// Puts the present state by before the panel of layers changes the document.
    pub fn begin_layer_actions(&mut self, actions: &Vec<LayerAction>)
        requires
            old(self).wf(),
        ensures
            final(self).wf(),
            final(self)@ == (AppView {
                session: Session {
                    history: if exists|i: int|
                        0 <= i < actions@.len() && changes_layers::<S>(
                            #[trigger] actions@[i].view(),
                        ) {
                        old(self)@.session.history.after_snapshot()
                    } else {
                        old(self)@.session.history
                    },
                    ..old(self)@.session
                },
                ..old(self)@
            }),
    {
        let mut i: usize = 0;
        while i < actions.len()
            invariant
                old(self).wf(),
                *self == *old(self),
                i <= actions.len(),
                forall|k: int|
                    0 <= k < i ==> !changes_layers::<S>(#[trigger] actions@[k].view()),
            decreases actions.len() - i,
        {
            let quiet = match &actions[i] {
                LayerAction::Close
                | LayerAction::Copy(_)
                | LayerAction::Paste
                | LayerAction::PasteOver => true,
                _ => false,
            };
            if !quiet {
                assert(changes_layers::<S>(actions@[i as int].view()));
                self.history.snapshot();
                return;
            }
            i += 1;
        }
    }

    /// Does one thing that the panel of layers asks for; returns what it needs from outside.
    pub fn apply_layer_action(&mut self, action: LayerAction) -> (r: Option<Request>)
        requires
            old(self).wf(),
            action matches LayerAction::Duplicate(id) ==> can_copy_all(
                old(self)@.session.history.layers(),
                seq![id],
                old(self)@.session.canvas.duplicate_offset,
                false,
                old(self)@.session.next,
            ),
        ensures
            final(self).wf(),
            final(self)@ == layer_acted(old(self)@, action.view()),
            r == layer_request(action),
    {
        match action {
            LayerAction::Close => {
                reveal(layer_acted);
                self.panels.layers = false;
            },
            LayerAction::Copy(id) => {
                reveal(layer_acted);
                return Some(Request::CopyOne(id));
            },
            LayerAction::Paste => {
                reveal(layer_acted);
                return Some(Request::Paste { over: false });
            },
            LayerAction::PasteOver => {
                reveal(layer_acted);
                return Some(Request::Paste { over: true });
            },
            LayerAction::Delete(id) => {
                reveal(layer_acted);
                self.delete_layer(id);
            },
            LayerAction::Duplicate(id) => {
                self.duplicate_layer(id);
            },
            LayerAction::ToggleVisible(id) => {
                self.edit_layer(id, LayerEdit::ToggleVisible);
            },
            LayerAction::ToggleLocked(id) => {
                self.edit_layer(id, LayerEdit::ToggleLocked);
            },
            LayerAction::ToggleMask(id) => {
                self.edit_layer(id, LayerEdit::ToggleMask);
            },
            LayerAction::ToggleIgnoreMask(id) => {
                self.edit_layer(id, LayerEdit::ToggleIgnoreMask);
            },
            LayerAction::Rename(id, name) => {
                self.edit_layer(id, LayerEdit::Rename(name));
            },
            LayerAction::SetChildBoolOp(id, op) => {
                self.edit_layer(id, LayerEdit::SetBoolOp(op));
            },
            LayerAction::Move { id, new_parent, index } => {
                self.move_layer(id, new_parent, index);
            },
        }
        None
    }

    fn edit_layer(&mut self, id: LayerId, edit: LayerEdit<S>)
        requires
            old(self).wf(),
        ensures
            final(self).wf(),
            final(self)@ == layer_acted(old(self)@, LayerActionView::Edit(id, edit@)),
    {
        reveal(layer_acted);
        edit_one(self.history.page_mut(), id, &edit);
    }

    fn move_layer(&mut self, id: LayerId, new_parent: Option<LayerId>, index: usize)
        requires
            old(self).wf(),
        ensures
            final(self).wf(),
            final(self)@ == layer_acted(
                old(self)@,
                LayerActionView::Move(id, new_parent, index as int),
            ),
    {
        reveal(layer_acted);
        move_layer(self.history.page_mut(), id, new_parent, index);
    }

    fn duplicate_layer(&mut self, id: LayerId)
        requires
            old(self).wf(),
            can_copy_all(
                old(self)@.session.history.layers(),
                seq![id],
                old(self)@.session.canvas.duplicate_offset,
                false,
                old(self)@.session.next,
            ),
        ensures
            final(self).wf(),
            final(self)@ == layer_acted(old(self)@, LayerActionView::Duplicate(id)),
    {
        reveal(layer_acted);
        let ids: Vec<LayerId> = vec![id];
        assert(ids@ =~= seq![id]);
        let offset = self.canvas.duplicate_offset;
        let made = duplicate_layers(
            self.history.page_mut(),
            ids.as_slice(),
            offset,
            &mut self.source,
        );
        if made.len() > 0 {
            self.selection = vec![made[0]];
            assert(self.selection@ =~= seq![made@[0]]);
        }
    }

    /// Deletes a layer, and selects what takes its place in its container.
    fn delete_layer(&mut self, id: LayerId)
        requires
            old(self).wf(),
        ensures
            final(self).wf(),
            final(self)@ == (AppView {
                session: layer_deleted(old(self)@.session, id),
                ..old(self)@
            }),
    {
        let next = delete_from(&mut self.history, id);
        match next {
            Some((next, parent)) => {
                self.selection = vec![next];
                self.canvas.insert_hint_parent = Some(parent);
                assert(self.selection@ =~= layer_deleted(old(self)@.session, id).selection);
            },
            None => {
                self.selection = drop_id(&self.selection, id);
                assert(self.selection@ == layer_deleted(old(self)@.session, id).selection);
            },
        }
        assert(self@.session.history == layer_deleted(old(self)@.session, id).history);
        assert(self@.session.canvas == layer_deleted(old(self)@.session, id).canvas);
        assert(sound(self.history@));
    }

    /// Does what the inspector asks for; returns what it needs from outside.
    pub fn apply_inspector_action(&mut self, action: InspectorAction<S>) -> (r: Option<Request>)
        requires
            old(self).wf(),
            old(self)@.session.next < u64::MAX,
            action is Duplicate ==> can_copy_all(
                old(self)@.session.history.layers(),
                old(self)@.session.selection,
                old(self)@.session.canvas.duplicate_offset,
                false,
                old(self)@.session.next,
            ),
        ensures
            final(self).wf(),
            final(self)@ == inspector_acted(old(self)@, action),
            r == inspector_request(action),
    {
        match action {
            InspectorAction::Close => {
                self.panels.inspector = false;
            },
            InspectorAction::Duplicate => {
                self.duplicate_selection();
            },
            InspectorAction::Group => {
                self.group_selection();
            },
            InspectorAction::Ungroup => {
                self.ungroup_selection();
            },
            InspectorAction::Boolean(op) => {
                self.boolean_op_selection(op);
            },
            InspectorAction::Align(edge, to_artboard) => {
                self.align_selection(edge, to_artboard);
            },
            InspectorAction::Distribute(axis) => {
                self.distribute_selection(axis);
            },
            InspectorAction::Tidy(spacing) => {
                self.tidy_selection(spacing);
            },
            InspectorAction::Flip { horizontal } => {
                return Some(Request::Flip { horizontal });
            },
            InspectorAction::Flatten => {
                return Some(Request::Flatten);
            },
            InspectorAction::InsertArtboardPreset(size) => {
                self.insert_artboard_preset(size);
            },
        }
        None
    }
}

/// What the palette asks for.
#[derive(Debug, PartialEq)]
pub enum PaletteAction {
    Apply(Color32),
    AddFromSelection,
    Remove(usize),
    ResetToDefault,
    /// The colours of a palette that was read.
    Import(Vec<Swatch>),
    /// The palette is written to a file: nothing changes.
    Export,
}

/// The session after an action of the palette.
pub open spec fn palette_acted<S: Scalar>(s: Session<S>, action: PaletteAction) -> Session<S> {
    let palette = s.history.current.palette;
    match action {
        PaletteAction::Apply(color) => selection_edited(s, EditView::Fill(color)),
        PaletteAction::AddFromSelection => match first_fill(s) {
            Some(c) => palette_set(s, palette.push(unnamed(c))),
            None => s,
        },
        PaletteAction::Remove(i) => palette_set(
            s,
            if i < palette.len() {
                palette.remove(i as int)
            } else {
                palette
            },
        ),
        PaletteAction::ResetToDefault => palette_set(s, Document::<S>::spec_new().palette),
        PaletteAction::Import(colors) => palette_set(s, swatch_views(colors@)),
        PaletteAction::Export => s,
    }
}

impl<S: Scalar> App<S> {
    /// Does what the palette asks for.
    pub fn apply_palette_action(&mut self, action: PaletteAction)
        requires
            old(self).wf(),
        ensures
            final(self).wf(),
            final(self)@ == (AppView {
                session: palette_acted(old(self)@.session, action),
                ..old(self)@
            }),
    {
        match action {
            PaletteAction::Apply(color) => {
                self.apply_palette_color(color);
            },
            PaletteAction::AddFromSelection => {
                self.add_color_from_selection();
            },
            PaletteAction::Remove(i) => {
                self.remove_palette_color(i);
            },
            PaletteAction::ResetToDefault => {
                self.replace_palette(Document::<S>::new().palette);
            },
            PaletteAction::Import(colors) => {
                self.replace_palette(colors);
            },
            PaletteAction::Export => {},
        }
    }
}

/// Whatever the bar of pages does, the page that is shown exists.
pub proof fn law_the_shown_page_exists<S: Scalar>(s: Session<S>, action: PagesActionView)
    requires
        sound(s.history),
        action matches PagesActionView::Select(i) ==> 0 <= i < s.history.current.pages.len(),
    ensures
        sound(pages_acted(s, action).history),
{
}

} // verus!
