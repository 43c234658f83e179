//! The commands of the program: what each does to the document and to what is selected.
use vstd::prelude::*;

use crate::alignment::{
    align, aligned, artboard_bounds_in_parent_space, artboard_box, distribute, distributed, tidied,
    tidy, AlignEdge, DistributeAxis,
};
use crate::boolean_ops::{combined_list, create_boolean_group, operands};
use crate::canvas::{session, CanvasView, CanvasWidget, Session};
use crate::clipboard::{copy_selection, paste_selection, pasted, taken};
use crate::color::Color32;
use crate::document::{
    find_from, swatch_views, Document, DocumentView, Page, PageView, Swatch, SwatchView,
};
use crate::dragging::with_layer;
use crate::edits::{
    all_layers_flat, collect_images, default_insert_anchor, edit_each, edited_each, flat_list,
    images_in, insert_anchor, list_each, listed_each, listed_views, name_views, next_selected,
    remove_each, removed_each, rename_each, renamed, successor, EditView, LayerEdit, Listed,
};
use crate::geometry::{Pos2, Rect, Vec2};
use crate::grid_ops::{can_grid, grid_of, gridded, make_grid};
use crate::grouping::{
    can_copy_all, copied, duplicate_layers, duplicate_layers_below, group_layers, grouped, has_id,
    ids_of, list_ids, move_all_back, moved_back, parent_and_index, sibling_ids, siblings_of,
    ungroup, ungrouped,
};
use crate::history::{History, HistoryView};
use crate::model::{
    group_views, polygon_views, views, BoolOp, Frame, IdSource, KindView, Layer, LayerId, LayerKind,
    LayerView, PathPolygon, PolygonView,
};
use crate::placement::{container_pos, new_artboard, Tool};
use crate::scalar::Scalar;
use crate::shading::flat_color;
use crate::style::copy_vec;

verus! {

broadcast use group_views;

/// Which panels are shown.
#[derive(Clone, Copy, Debug, PartialEq, Eq, Structural)]
pub struct Panels {
    pub layers: bool,
    pub inspector: bool,
    pub palette: bool,
    pub minimap: bool,
}

/// The program's state.
pub struct App<S> {
    pub history: History<S>,
    pub canvas: CanvasWidget<S>,
    pub tool: Tool,
    pub selection: Vec<LayerId>,
    pub source: IdSource,
    pub panels: Panels,
}

/// [`App`] over sequences.
#[verifier::ext_equal]
pub struct AppView<S> {
    pub session: Session<S>,
    pub panels: Panels,
}

/// Whether every document of a history shows a page that it has.
pub open spec fn sound<S>(h: HistoryView<S>) -> bool {
    &&& h.current.wf()
    &&& forall|i: int| 0 <= i < h.past.len() ==> (#[trigger] h.past[i]).wf()
    &&& forall|i: int| 0 <= i < h.future.len() ==> (#[trigger] h.future[i]).wf()
}

/// A snapshot keeps a history sound, and so does changing the shown page, an undo and a redo.
pub proof fn law_histories_stay_sound<S>(h: HistoryView<S>, page: PageView<S>)
    requires
        sound(h),
    ensures
        sound(h.after_snapshot()),
        sound(h.with_page(page)),
        sound(h.after_snapshot().with_page(page)),
        sound(h.after_undo()),
        sound(h.after_redo()),
{
}

/// The session after the layers were changed from a snapshot.
pub open spec fn stepped<S>(s: Session<S>, layers: Seq<LayerView<S>>) -> Session<S> {
    Session { history: s.history.after_snapshot().with_layers(layers), ..s }
}

/// The session after a change to each selected layer; unchanged without a selection.
pub open spec fn selection_edited<S: Scalar>(s: Session<S>, edit: EditView<S>) -> Session<S> {
    if s.selection.len() == 0 {
        s
    } else {
        stepped(s, edited_each(s.history.layers(), s.selection, edit))
    }
}

/// The session with other layers on the page, from a snapshot; unchanged without a selection.
pub open spec fn selection_rewritten<S>(s: Session<S>, layers: Seq<LayerView<S>>) -> Session<S> {
    if s.selection.len() == 0 {
        s
    } else {
        stepped(s, layers)
    }
}

/// The session after turned copies of the selected layers were made: they are selected, if there
/// are any; unchanged without a selection, or where none is asked for.
pub open spec fn copies_turned<S>(
    s: Session<S>,
    count: u32,
    layers: Seq<LayerView<S>>,
    made: Seq<LayerId>,
) -> Session<S> {
    if s.selection.len() == 0 || count == 0 {
        s
    } else {
        Session {
            selection: if made.len() > 0 {
                made
            } else {
                s.selection
            },
            ..stepped(s, layers)
        }
    }
}

/// The session after layers were renamed; unchanged without names.
pub open spec fn names_applied<S: Scalar>(s: Session<S>, names: Seq<(LayerId, Seq<char>)>) -> Session<
    S,
> {
    if names.len() == 0 {
        s
    } else {
        stepped(s, renamed(s.history.layers(), names, names.len()))
    }
}

/// The session after the one selected layer was copied into a grid.
pub open spec fn grid_made<S: Scalar>(s: Session<S>, cols: u32, rows: u32, gx: S, gy: S) -> Session<
    S,
> {
    if s.selection.len() != 1 {
        s
    } else {
        let id = s.selection[0];
        let none = stepped(s, s.history.layers());
        match crate::tree::find(s.history.layers(), id) {
            Some(v) => if cols == 0 || rows == 0 {
                none
            } else {
                let g = gridded(
                    s.history.layers(),
                    id,
                    grid_of(v, cols, gx, gy),
                    s.next,
                    (cols * rows) as nat,
                );
                Session {
                    selection: if g.1.len() > 0 {
                        seq![id] + g.1
                    } else {
                        s.selection
                    },
                    next: g.2,
                    ..stepped(s, g.0)
                }
            },
            None => none,
        }
    }
}

/// The session after the selected layers were grouped.
pub open spec fn selection_grouped<S: Scalar>(s: Session<S>) -> Session<S> {
    if s.selection.len() < 2 {
        s
    } else {
        match grouped(s.history.layers(), s.selection, s.next as u64) {
            Some(layers) => Session {
                selection: seq![s.next as u64],
                next: s.next + 1,
                ..stepped(s, layers)
            },
            None => stepped(s, s.history.layers()),
        }
    }
}

/// The session after the one selected group was taken apart.
pub open spec fn selection_ungrouped<S: Scalar>(s: Session<S>) -> Session<S> {
    if s.selection.len() != 1 {
        s
    } else {
        match ungrouped(s.history.layers(), s.selection[0]) {
            Some((layers, ids)) => Session {
                selection: if ids.len() > 0 {
                    ids
                } else {
                    s.selection
                },
                ..stepped(s, layers)
            },
            None => stepped(s, s.history.layers()),
        }
    }
}

/// The session after the selected shapes became a boolean group.
pub open spec fn selection_combined<S: Scalar>(s: Session<S>, op: BoolOp) -> Session<S> {
    let layers = s.history.layers();
    if s.selection.len() < 2 {
        s
    } else {
        match operands(layers, s.selection) {
            Some(p) => Session {
                selection: seq![s.next as u64],
                next: s.next + 1,
                ..stepped(
                    s,
                    crate::tree::with_list_at(
                        layers,
                        p,
                        combined_list(
                            crate::tree::list_at(layers, p),
                            s.selection,
                            op,
                            s.next as u64,
                        ),
                    ),
                )
            },
            None => stepped(s, layers),
        }
    }
}

/// The session after the selected layers were copied, in front of themselves or behind.
pub open spec fn selection_copied<S: Scalar>(s: Session<S>, below: bool) -> Session<S> {
    if s.selection.len() == 0 {
        s
    } else {
        let c = copied(
            s.history.layers(),
            s.selection,
            s.canvas.duplicate_offset,
            below,
            s.next,
        );
        Session {
            selection: if c.1.len() > 0 {
                c.1
            } else {
                s.selection
            },
            next: c.2,
            ..stepped(s, c.0)
        }
    }
}

/// What the selected layers are aligned to: the reference among them, else their artboard if that
/// is asked for, else their own box.
pub open spec fn selection_target<S: Scalar>(s: Session<S>, to_artboard: bool) -> Option<Rect<S>> {
    let layers = s.history.layers();
    let reference = match s.canvas.reference_layer {
        Some(id) => if s.selection.contains(id) {
            crate::tree::find(layers, id)
        } else {
            None
        },
        None => None,
    };
    match reference {
        Some(v) => Some(v.frame.spec_rotated_bounds()),
        None => if to_artboard {
            artboard_box(layers, s.selection[0])
        } else {
            None
        },
    }
}

/// The session after the selected layers were aligned.
pub open spec fn selection_aligned<S: Scalar>(s: Session<S>, edge: AlignEdge, to_artboard: bool) -> Session<
    S,
> {
    if s.selection.len() < 2 {
        s
    } else {
        stepped(
            s,
            aligned(s.history.layers(), s.selection, edge, selection_target(s, to_artboard)),
        )
    }
}

/// The session after the selected layers were distributed.
pub open spec fn selection_distributed<S: Scalar>(s: Session<S>, axis: DistributeAxis) -> Session<S> {
    if s.selection.len() < 3 {
        s
    } else {
        Session {
            canvas: CanvasView { last_distributed: Some((s.selection, axis)), ..s.canvas },
            ..stepped(s, distributed(s.history.layers(), s.selection, axis))
        }
    }
}

/// The session after the selected layers were tidied up.
pub open spec fn selection_tidied<S: Scalar>(s: Session<S>, spacing: S) -> Session<S> {
    if s.selection.len() < 2 {
        s
    } else {
        stepped(s, tidied(s.history.layers(), s.selection, spacing))
    }
}

/// A colour without a name.
pub open spec fn unnamed(color: Color32) -> SwatchView {
    SwatchView { color, name: Seq::empty() }
}

/// The session with another palette, from a snapshot.
pub open spec fn palette_set<S>(s: Session<S>, palette: Seq<SwatchView>) -> Session<S> {
    let h = s.history.after_snapshot();
    Session { history: h.with_current(DocumentView { palette, ..h.current }), ..s }
}

/// The flat fill of the first selected layer.
pub open spec fn first_fill<S: Scalar>(s: Session<S>) -> Option<Color32> {
    if s.selection.len() == 0 {
        None
    } else {
        match find_from(s.history.current.pages, s.selection[0], 0) {
            Some(v) => match v.style.fill {
                Some(p) => Some(flat_color(p)),
                None => None,
            },
            None => None,
        }
    }
}

/// The text on the page that is the whole selection.
pub open spec fn lone_text<S>(s: Session<S>) -> Option<LayerId> {
    if s.selection.len() == 1 && (crate::tree::find(s.history.layers(), s.selection[0]) matches Some(
        v,
    ) && v.kind is Text) {
        Some(s.selection[0])
    } else {
        None
    }
}

/// The text, on whatever page it is, that is the whole selection.
pub open spec fn lone_text_anywhere<S>(s: Session<S>) -> Option<LayerId> {
    if s.selection.len() == 1 && (find_from(
        s.history.current.pages,
        s.selection[0],
        0,
    ) matches Some(v) && v.kind is Text) {
        Some(s.selection[0])
    } else {
        None
    }
}

/// The layer with the outlines of glyphs in place of what it was.
pub open spec fn outlined<S>(v: LayerView<S>, polygons: Seq<PolygonView<S>>) -> LayerView<S> {
    LayerView { kind: KindView::CompoundPath { polygons }, children: Seq::empty(), ..v }
}

/// The session after the one selected text became the outlines of its glyphs, if it is on the
/// page that is shown.
pub open spec fn selection_outlined<S: Scalar>(s: Session<S>, polygons: Seq<PolygonView<S>>) -> Session<
    S,
> {
    match lone_text_anywhere(s) {
        Some(id) => stepped(
            s,
            with_layer(s.history.layers(), id, |v: LayerView<S>| outlined(v, polygons)),
        ),
        None => s,
    }
}

/// The session after a new artboard was put beside everything.
pub open spec fn preset_inserted<S: Scalar>(s: Session<S>, size: Vec2<S>) -> Session<S> {
    let layers = s.history.layers();
    Session {
        selection: seq![s.next as u64],
        tool: Tool::Select,
        next: s.next + 1,
        ..stepped(
            s,
            layers.push(
                Layer::<S>::spec_new(
                    s.next as u64,
                    "Artboard"@,
                    Frame { pos: insert_anchor(layers), size, rotation: S::spec_ratio(0, 1) },
                    KindView::Artboard { background: Color32 { r: 255, g: 255, b: 255, a: 255 } },
                    Seq::empty(),
                ),
            ),
        )
    }
}

/// The layers with new ones put into the container that is to take the next one, at the places
/// they have on the page, or in front of all.
pub open spec fn images_placed<S: Scalar>(
    s: Seq<LayerView<S>>,
    new: Seq<LayerView<S>>,
    hint: Option<LayerId>,
) -> Seq<LayerView<S>> {
    match hint {
        Some(id) => match container_pos(s, id) {
            Some(pos) => {
                let v = crate::tree::find(s, id)->0;
                crate::tree::replace(s, id, v.with_children(v.children + moved_back(new, pos)))
            },
            None => s + new,
        },
        None => s + new,
    }
}

/// The session after images were put on the page; unchanged without any.
pub open spec fn images_inserted<S: Scalar>(s: Session<S>, new: Seq<LayerView<S>>) -> Session<S> {
    if new.len() == 0 {
        s
    } else {
        Session {
            canvas: CanvasView { insert_hint_parent: None, ..s.canvas },
            selection: ids_of(new),
            ..stepped(s, images_placed(s.history.layers(), new, s.canvas.insert_hint_parent))
        }
    }
}

/// The session after the selected layers were deleted. Where one alone was deleted from a
/// container, what took its place is selected, and the container takes the next new layer.
pub open spec fn selection_deleted<S: Scalar>(s: Session<S>) -> Session<S> {
    let before = s.history.layers();
    let after = removed_each(before, s.selection);
    let next = if s.selection.len() == 1 {
        successor(before, after, s.selection[0])
    } else {
        None
    };
    if s.selection.len() == 0 {
        s
    } else {
        match next {
            Some((id, parent)) => Session {
                canvas: CanvasView { insert_hint_parent: Some(parent), ..s.canvas },
                selection: seq![id],
                ..stepped(s, after)
            },
            None => Session { selection: Seq::empty(), ..stepped(s, after) },
        }
    }
}

/// The session with all siblings of the selection selected; unchanged where it is one path.
pub open spec fn siblings_selected<S: Scalar>(s: Session<S>) -> Session<S> {
    let layers = s.history.layers();
    if s.selection.len() == 1 && (crate::tree::find(layers, s.selection[0]) matches Some(v)
        && v.kind is Path) {
        s
    } else {
        Session { selection: sibling_ids(layers, s.selection), ..s }
    }
}

/// The ids of the images on the first `k` pages.
pub open spec fn images_on<S>(pages: Seq<PageView<S>>, k: nat) -> Seq<LayerId>
    decreases k,
{
    if k == 0 {
        Seq::empty()
    } else {
        images_on(pages, (k - 1) as nat) + images_in(pages[k - 1].layers)
    }
}

impl<S: Scalar> App<S> {
    pub open spec fn view(&self) -> AppView<S> {
        AppView {
            session: session(self.canvas, self.history, self.tool, self.selection, self.source),
            panels: self.panels,
        }
    }

    /// Whether every document of the history shows a page that it has.
    pub open spec fn wf(&self) -> bool {
        sound(self@.session.history)
    }

    /// The program with a new document.
    pub fn new() -> (r: Self)
        ensures
            r.wf(),
            r@.session.history.current == Document::<S>::spec_new(),
            r@.session.history.past.len() == 0,
            r@.session.history.future.len() == 0,
            r@.session.tool == Tool::Select,
            r@.session.selection.len() == 0,
            r@.session.next == 1,
            r@.session.canvas == CanvasWidget::<S>::spec_new(),
            r@.panels == (Panels { layers: true, inspector: true, palette: false, minimap: true }),
    {
        App {
            history: History::new(Document::new()),
            canvas: CanvasWidget::new(),
            tool: Tool::Select,
            selection: Vec::new(),
            source: IdSource::starting_at(1),
            panels: Panels { layers: true, inspector: true, palette: false, minimap: true },
        }
    }

    /// Starts over with a new document.
    pub fn new_document(&mut self)
        ensures
            final(self).wf(),
            final(self)@ == (AppView {
                session: Session {
                    history: HistoryView {
                        current: Document::<S>::spec_new(),
                        past: Seq::empty(),
                        future: Seq::empty(),
                    },
                    selection: Seq::empty(),
                    ..old(self)@.session
                },
                ..old(self)@
            }),
    {
        self.history = History::new(Document::new());
        self.selection = Vec::new();
        assert(self.selection@ =~= Seq::empty());
    }

    /// Shows a document that was read.
    pub fn open(&mut self, document: Document<S>)
        requires
            document@.wf(),
        ensures
            final(self).wf(),
            final(self)@ == (AppView {
                session: Session {
                    history: HistoryView {
                        current: document@,
                        past: Seq::empty(),
                        future: Seq::empty(),
                    },
                    selection: Seq::empty(),
                    ..old(self)@.session
                },
                ..old(self)@
            }),
    {
        self.history.replace(document);
        self.selection = Vec::new();
        assert(self.selection@ =~= Seq::empty());
    }

    /// Goes back to the last snapshot.
    pub fn undo(&mut self)
        requires
            old(self).wf(),
        ensures
            final(self).wf(),
            final(self)@ == (AppView {
                session: Session {
                    history: old(self)@.session.history.after_undo(),
                    ..old(self)@.session
                },
                ..old(self)@
            }),
    {
        self.history.undo();
    }

    /// Takes the last undo back.
    pub fn redo(&mut self)
        requires
            old(self).wf(),
        ensures
            final(self).wf(),
            final(self)@ == (AppView {
                session: Session {
                    history: old(self)@.session.history.after_redo(),
                    ..old(self)@.session
                },
                ..old(self)@
            }),
    {
        self.history.redo();
    }

    /// Every layer of the page, to be renamed.
    pub fn all_layers_flat(&self) -> (r: Vec<Listed<S>>)
        requires
            self.wf(),
        ensures
            listed_views(r@) == flat_list(self@.session.history.layers()),
    {
        all_layers_flat(self.history.page())
    }

    /// Gives layers new names.
    pub fn apply_renames(&mut self, names: &Vec<(LayerId, String)>)
        requires
            old(self).wf(),
        ensures
            final(self).wf(),
            final(self)@ == (AppView {
                session: names_applied(old(self)@.session, name_views(names@)),
                ..old(self)@
            }),
    {
        if names.len() == 0 {
            return;
        }
        self.history.snapshot();
        rename_each(self.history.page_mut(), names);
    }

    /// Copies the one selected layer into a grid, and selects the whole grid.
    pub fn make_grid_selection(&mut self, cols: u32, rows: u32, gutter_x: S, gutter_y: S)
        requires
            old(self).wf(),
            old(self)@.session.selection.len() == 1 ==> (crate::tree::find(
                old(self)@.session.history.layers(),
                old(self)@.session.selection[0],
            ) matches Some(v) ==> can_grid(
                old(self)@.session.history.layers(),
                old(self)@.session.selection[0],
                grid_of(v, cols, gutter_x, gutter_y),
                old(self)@.session.next,
                cols * rows,
            )),
        ensures
            final(self).wf(),
            final(self)@ == (AppView {
                session: grid_made(old(self)@.session, cols, rows, gutter_x, gutter_y),
                ..old(self)@
            }),
    {
        if self.selection.len() != 1 {
            return;
        }
        let id = self.selection[0];
        self.history.snapshot();
        proof {
            crate::history::lemma_unedited(self.history@);
        }
        let ghost h = self.history@;
        let mut made = make_grid(
            self.history.page_mut(),
            id,
            cols,
            rows,
            gutter_x,
            gutter_y,
            &mut self.source,
        );
        let ghost more = made@;
        if made.len() > 0 {
            let mut all: Vec<LayerId> = vec![id];
            assert(all@ =~= seq![id]);
            all.append(&mut made);
            assert(all@ =~= seq![id] + more);
            self.selection = all;
        }
    }

    /// Groups the selected layers, and selects the group.
    pub fn group_selection(&mut self)
        requires
            old(self).wf(),
            old(self)@.session.next < u64::MAX,
        ensures
            final(self).wf(),
            final(self)@ == (AppView {
                session: selection_grouped(old(self)@.session),
                ..old(self)@
            }),
    {
        if self.selection.len() < 2 {
            return;
        }
        self.history.snapshot();
        proof {
            crate::history::lemma_unedited(self.history@);
        }
        let made = group_layers(
            self.history.page_mut(),
            self.selection.as_slice(),
            &mut self.source,
        );
        if let Some(id) = made {
            self.selection = vec![id];
            assert(self.selection@ =~= seq![id]);
        }
    }

    /// Takes the one selected group apart, and selects its members.
    pub fn ungroup_selection(&mut self)
        requires
            old(self).wf(),
        ensures
            final(self).wf(),
            final(self)@ == (AppView {
                session: selection_ungrouped(old(self)@.session),
                ..old(self)@
            }),
    {
        if self.selection.len() != 1 {
            return;
        }
        let id = self.selection[0];
        self.history.snapshot();
        proof {
            crate::history::lemma_unedited(self.history@);
        }
        let ids = ungroup(self.history.page_mut(), id);
        if ids.len() > 0 {
            self.selection = ids;
        }
    }

    /// Makes the selected shapes a boolean group, and selects it.
    pub fn boolean_op_selection(&mut self, op: BoolOp)
        requires
            old(self).wf(),
            old(self)@.session.next < u64::MAX,
        ensures
            final(self).wf(),
            final(self)@ == (AppView {
                session: selection_combined(old(self)@.session, op),
                ..old(self)@
            }),
    {
        if self.selection.len() < 2 {
            return;
        }
        self.history.snapshot();
        proof {
            crate::history::lemma_unedited(self.history@);
        }
        let made = create_boolean_group(
            self.history.page_mut(),
            self.selection.as_slice(),
            op,
            &mut self.source,
        );
        if let Some(id) = made {
            self.selection = vec![id];
            assert(self.selection@ =~= seq![id]);
        }
    }

    /// Puts the page on which the selected layers are flipped in place of the present one; nothing
    /// happens where none is selected.
    pub fn flip_selection(&mut self, flipped: Vec<Layer<S>>)
        requires
            old(self).wf(),
        ensures
            final(self).wf(),
            final(self)@ == (AppView {
                session: selection_rewritten(old(self)@.session, views(flipped@)),
                ..old(self)@
            }),
    {
        self.rewrite_selection(flipped);
    }

    /// Puts the page on which the selected layers are flattened in place of the present one;
    /// nothing happens where none is selected.
    pub fn flatten_selection(&mut self, flattened: Vec<Layer<S>>)
        requires
            old(self).wf(),
        ensures
            final(self).wf(),
            final(self)@ == (AppView {
                session: selection_rewritten(old(self)@.session, views(flattened@)),
                ..old(self)@
            }),
    {
        self.rewrite_selection(flattened);
    }

    fn rewrite_selection(&mut self, layers: Vec<Layer<S>>)
        requires
            old(self).wf(),
        ensures
            final(self).wf(),
            final(self)@ == (AppView {
                session: selection_rewritten(old(self)@.session, views(layers@)),
                ..old(self)@
            }),
    {
        if self.selection.len() == 0 {
            return;
        }
        self.history.snapshot();
        self.history.page_mut().layers = layers;
    }

    /// Puts the page with turned copies of the selected layers in place of the present one, and
    /// selects the copies; nothing happens where none is selected or none is asked for.
    pub fn rotate_copies_selection(&mut self, count: u32, layers: Vec<Layer<S>>, made: Vec<LayerId>)
        requires
            old(self).wf(),
        ensures
            final(self).wf(),
            final(self)@ == (AppView {
                session: copies_turned(
                    old(self)@.session,
                    count,
                    views(layers@),
                    made@,
                ),
                ..old(self)@
            }),
    {
        if count == 0 || self.selection.len() == 0 {
            return;
        }
        self.rewrite_selection(layers);
        if made.len() > 0 {
            self.selection = made;
        }
    }

    /// The selected layers as a list of all layers shows them.
    pub fn selected_items(&self) -> (r: Vec<Listed<S>>)
        requires
            self.wf(),
        ensures
            listed_views(r@) == listed_each(self@.session.history.layers(), self@.session.selection),
    {
        list_each(self.history.page(), &self.selection)
    }

    /// Whether new names are meant for the whole page: so it is asked, or nothing is selected.
    pub fn renames_whole_page(&self, asked: bool) -> (r: bool)
        ensures
            r == (asked || self@.session.selection.len() == 0),
    {
        asked || self.selection.len() == 0
    }

    /// Changes every selected layer.
    fn edit_selection(&mut self, edit: LayerEdit<S>)
        requires
            old(self).wf(),
        ensures
            final(self).wf(),
            final(self)@ == (AppView {
                session: selection_edited(old(self)@.session, edit@),
                ..old(self)@
            }),
    {
        if self.selection.len() == 0 {
            return;
        }
        self.history.snapshot();
        edit_each(self.history.page_mut(), &self.selection, &edit);
    }

    /// Moves every selected layer.
    pub fn nudge_selection(&mut self, delta: Vec2<S>)
        requires
            old(self).wf(),
        ensures
            final(self).wf(),
            final(self)@ == (AppView {
                session: selection_edited(old(self)@.session, EditView::Move(delta)),
                ..old(self)@
            }),
    {
        self.edit_selection(LayerEdit::Move(delta));
    }

    /// Makes every selected layer larger.
    pub fn resize_selection_nudge(&mut self, delta: Vec2<S>)
        requires
            old(self).wf(),
        ensures
            final(self).wf(),
            final(self)@ == (AppView {
                session: selection_edited(old(self)@.session, EditView::Resize(delta)),
                ..old(self)@
            }),
    {
        self.edit_selection(LayerEdit::Resize(delta));
    }

    /// Makes every selected layer a mask, or no mask any more.
    pub fn toggle_mask_selection(&mut self)
        requires
            old(self).wf(),
        ensures
            final(self).wf(),
            final(self)@ == (AppView {
                session: selection_edited(old(self)@.session, EditView::ToggleMask),
                ..old(self)@
            }),
    {
        self.edit_selection(LayerEdit::ToggleMask);
    }

    /// Fills every selected layer with a colour of the palette.
    pub fn apply_palette_color(&mut self, color: Color32)
        requires
            old(self).wf(),
        ensures
            final(self).wf(),
            final(self)@ == (AppView {
                session: selection_edited(old(self)@.session, EditView::Fill(color)),
                ..old(self)@
            }),
    {
        self.edit_selection(LayerEdit::Fill(color));
    }

    /// Adds the fill of the first selected layer to the palette.
    pub fn add_color_from_selection(&mut self)
        requires
            old(self).wf(),
        ensures
            final(self).wf(),
            final(self)@ == (AppView {
                session: match first_fill(old(self)@.session) {
                    Some(c) => palette_set(
                        old(self)@.session,
                        old(self)@.session.history.current.palette.push(unnamed(c)),
                    ),
                    None => old(self)@.session,
                },
                ..old(self)@
            }),
    {
        if self.selection.len() == 0 {
            return;
        }
        let color = match self.history.get().find(self.selection[0]) {
            Some(layer) => match &layer.style.fill {
                Some(p) => p.to_color32(),
                None => return,
            },
            None => return,
        };
        self.history.snapshot();
        let document = self.history.mutate();
        let ghost before = document@.palette;
        document.palette.push(Swatch { color, name: String::new() });
        assert(document@.palette =~= before.push(unnamed(color)));
    }

    /// Takes a colour off the palette.
    pub fn remove_palette_color(&mut self, index: usize)
        requires
            old(self).wf(),
        ensures
            final(self).wf(),
            final(self)@ == (AppView {
                session: palette_set(
                    old(self)@.session,
                    if index < old(self)@.session.history.current.palette.len() {
                        old(self)@.session.history.current.palette.remove(index as int)
                    } else {
                        old(self)@.session.history.current.palette
                    },
                ),
                ..old(self)@
            }),
    {
        self.history.snapshot();
        let document = self.history.mutate();
        let ghost before = document@.palette;
        if index < document.palette.len() {
            let gone = document.palette.remove(index);
            assert(document@.palette =~= before.remove(index as int));
        }
    }

    /// Uses another palette: one that was read, or the standard one.
    pub fn replace_palette(&mut self, palette: Vec<Swatch>)
        requires
            old(self).wf(),
        ensures
            final(self).wf(),
            final(self)@ == (AppView {
                session: palette_set(old(self)@.session, swatch_views(palette@)),
                ..old(self)@
            }),
    {
        self.history.snapshot();
        self.history.mutate().palette = palette;
    }

    /// The text on the page that is the whole selection.
    pub fn lone_text(&self) -> (r: Option<LayerId>)
        requires
            self.wf(),
        ensures
            r == lone_text(self@.session),
    {
        if self.selection.len() == 1 {
            if let Some(layer) = self.history.page().find(self.selection[0]) {
                if let LayerKind::Text { .. } = &layer.kind {
                    return Some(self.selection[0]);
                }
            }
        }
        None
    }

    /// Whether one text is selected and nothing else, on whatever page it is.
    pub fn selection_is_single_text(&self) -> (r: bool)
        requires
            self.wf(),
        ensures
            r == (lone_text_anywhere(self@.session) is Some),
    {
        if self.selection.len() == 1 {
            if let Some(layer) = self.history.get().find(self.selection[0]) {
                if let LayerKind::Text { .. } = &layer.kind {
                    return true;
                }
            }
        }
        false
    }

    /// Makes the one selected text the outlines of its glyphs, if it is on the page that is shown.
    pub fn convert_selection_to_outlines(&mut self, polygons: Vec<PathPolygon<S>>)
        requires
            old(self).wf(),
        ensures
            final(self).wf(),
            final(self)@ == (AppView {
                session: selection_outlined(old(self)@.session, polygon_views(polygons@)),
                ..old(self)@
            }),
    {
        if self.selection_is_single_text() {
            let id = self.selection[0];
            self.history.snapshot();
            proof {
                crate::history::lemma_unedited(self.history@);
            }
            if let Some(layer) = self.history.page_mut().find_mut(id) {
                layer.kind = LayerKind::CompoundPath { polygons };
                assert(layer@.children =~= Seq::empty());
            }
        }
    }

    /// Aligns the selected layers: to the reference among them, else to their artboard if that is
    /// asked for, else to their own box.
    pub fn align_selection(&mut self, edge: AlignEdge, to_artboard: bool)
        requires
            old(self).wf(),
        ensures
            final(self).wf(),
            final(self)@ == (AppView {
                session: selection_aligned(old(self)@.session, edge, to_artboard),
                ..old(self)@
            }),
    {
        if self.selection.len() < 2 {
            return;
        }
        let page = self.history.page();
        let reference = match self.canvas.reference_layer {
            Some(id) => if has_id(self.selection.as_slice(), id) {
                page.find(id)
            } else {
                None
            },
            None => None,
        };
        let target = match reference {
            Some(layer) => Some(layer.frame.rotated_bounds()),
            None => if to_artboard {
                artboard_bounds_in_parent_space(page, self.selection[0])
            } else {
                None
            },
        };
        assert(target == selection_target(self@.session, to_artboard));
        self.history.snapshot();
        align(self.history.page_mut(), self.selection.as_slice(), edge, target);
    }

    /// Spaces the selected layers evenly, and remembers that for the handles between them.
    pub fn distribute_selection(&mut self, axis: DistributeAxis)
        requires
            old(self).wf(),
        ensures
            final(self).wf(),
            final(self)@ == (AppView {
                session: selection_distributed(old(self)@.session, axis),
                ..old(self)@
            }),
    {
        if self.selection.len() < 3 {
            return;
        }
        self.history.snapshot();
        distribute(self.history.page_mut(), self.selection.as_slice(), axis);
        self.canvas.last_distributed = Some((copy_vec(&self.selection), axis));
    }

    /// Puts the selected layers into a tidy grid.
    pub fn tidy_selection(&mut self, spacing: S)
        requires
            old(self).wf(),
        ensures
            final(self).wf(),
            final(self)@ == (AppView {
                session: selection_tidied(old(self)@.session, spacing),
                ..old(self)@
            }),
    {
        if self.selection.len() < 2 {
            return;
        }
        self.history.snapshot();
        tidy(self.history.page_mut(), self.selection.as_slice(), spacing);
    }

    /// Copies the selected layers, in front of themselves or behind, and selects the copies.
    pub fn duplicate_selection_placed(&mut self, below: bool)
        requires
            old(self).wf(),
            can_copy_all(
                old(self)@.session.history.layers(),
                old(self)@.session.selection,
                old(self)@.session.canvas.duplicate_offset,
                below,
                old(self)@.session.next,
            ),
        ensures
            final(self).wf(),
            final(self)@ == (AppView {
                session: selection_copied(old(self)@.session, below),
                ..old(self)@
            }),
    {
        if self.selection.len() == 0 {
            return;
        }
        let offset = self.canvas.duplicate_offset;
        self.history.snapshot();
        let page = self.history.page_mut();
        let made = if below {
            duplicate_layers_below(page, self.selection.as_slice(), offset, &mut self.source)
        } else {
            duplicate_layers(page, self.selection.as_slice(), offset, &mut self.source)
        };
        if made.len() > 0 {
            self.selection = made;
        }
    }

    /// Copies the selected layers in front of themselves, and selects the copies.
    pub fn duplicate_selection(&mut self)
        requires
            old(self).wf(),
            can_copy_all(
                old(self)@.session.history.layers(),
                old(self)@.session.selection,
                old(self)@.session.canvas.duplicate_offset,
                false,
                old(self)@.session.next,
            ),
        ensures
            final(self).wf(),
            final(self)@ == (AppView {
                session: selection_copied(old(self)@.session, false),
                ..old(self)@
            }),
    {
        self.duplicate_selection_placed(false);
    }

    /// The selected layers, to be put into the clipboard.
    pub fn copy_selection(&self) -> (r: Vec<Layer<S>>)
        requires
            self.wf(),
        ensures
            views(r@) == taken(self@.session.history.layers(), self@.session.selection),
    {
        copy_selection(&self.history, &self.selection)
    }

    /// Pastes layers that have ids of their own.
    pub fn paste_selection(&mut self, layers: Vec<Layer<S>>, over: bool)
        requires
            old(self).wf(),
        ensures
            final(self).wf(),
            final(self)@ == (AppView {
                session: ({
                    let s = old(self)@.session;
                    let p = pasted(
                        s.history,
                        s.selection,
                        views(layers@),
                        s.canvas.duplicate_offset,
                        over,
                    );
                    Session { history: p.0, selection: p.1, ..s }
                }),
                ..old(self)@
            }),
    {
        paste_selection(
            &mut self.history,
            &mut self.selection,
            layers,
            self.canvas.duplicate_offset,
            over,
        );
    }

    /// Puts a new artboard of some size beside everything, and selects it.
    pub fn insert_artboard_preset(&mut self, size: Vec2<S>)
        requires
            old(self).wf(),
            old(self)@.session.next < u64::MAX,
        ensures
            final(self).wf(),
            final(self)@ == (AppView {
                session: preset_inserted(old(self)@.session, size),
                ..old(self)@
            }),
    {
        let pos = default_insert_anchor(self.history.page());
        let id = self.source.fresh();
        let layer = new_artboard(id, "Artboard", Frame { pos, size, rotation: S::ratio(0, 1) });
        self.history.snapshot();
        self.history.page_mut().layers.push(layer);
        self.selection = vec![id];
        assert(self.selection@ =~= seq![id]);
        self.tool = Tool::Select;
    }

    /// Where new images are put.
    pub fn default_insert_anchor(&self) -> (r: Pos2<S>)
        requires
            self.wf(),
        ensures
            r == insert_anchor(self@.session.history.layers()),
    {
        default_insert_anchor(self.history.page())
    }

    /// Puts images that are placed on the page into the container that is to take the next layer,
    /// or in front of all, and selects them.
    pub fn insert_images(&mut self, layers: Vec<Layer<S>>)
        requires
            old(self).wf(),
        ensures
            final(self).wf(),
            final(self)@ == (AppView {
                session: images_inserted(old(self)@.session, views(layers@)),
                ..old(self)@
            }),
    {
        if layers.len() == 0 {
            return;
        }
        let hint = self.canvas.insert_hint_parent;
        self.canvas.insert_hint_parent = None;
        self.selection = list_ids(&layers);
        self.history.snapshot();
        place_images(self.history.page_mut(), layers, hint);
    }

    /// Deletes the selected layers. Where one alone was deleted from a container, what took its
    /// place is selected, and the container takes the next new layer.
    pub fn delete_selection(&mut self)
        requires
            old(self).wf(),
        ensures
            final(self).wf(),
            final(self)@ == (AppView {
                session: selection_deleted(old(self)@.session),
                ..old(self)@
            }),
    {
        if self.selection.len() == 0 {
            return;
        }
        let lone = self.selection.len() == 1;
        self.history.snapshot();
        let page = self.history.page_mut();
        let ghost before = page@.layers;
        let ghost ids = self.selection@;
        let place = if lone {
            parent_and_index(&page.layers, self.selection[0])
        } else {
            None
        };
        remove_each(page, &self.selection);
        let next = if lone {
            next_selected(page, place)
        } else {
            None
        };
        proof {
            if lone {
                let p = crate::grouping::place_of(before, ids[0]);
                assert(next == successor(before, page@.layers, ids[0]));
            }
        }
        match next {
            Some((id, parent)) => {
                self.selection = vec![id];
                assert(self.selection@ =~= seq![id]);
                self.canvas.insert_hint_parent = Some(parent);
            },
            None => {
                self.selection = Vec::new();
                assert(self.selection@ =~= Seq::empty());
            },
        }
    }

    /// Selects all siblings of the selected layers; where one path is selected, its points are
    /// meant and nothing happens here.
    pub fn select_siblings(&mut self)
        requires
            old(self).wf(),
        ensures
            final(self).wf(),
            final(self)@ == (AppView {
                session: siblings_selected(old(self)@.session),
                ..old(self)@
            }),
    {
        let page = self.history.page();
        if self.selection.len() == 1 {
            if let Some(layer) = page.find(self.selection[0]) {
                if let LayerKind::Path { .. } = &layer.kind {
                    return;
                }
            }
        }
        self.selection = siblings_of(page, self.selection.as_slice());
    }

    /// The one selected layer, to be exported.
    pub fn lone_layer(&self) -> (r: Option<&Layer<S>>)
        requires
            self.wf(),
        ensures
            match r {
                Some(layer) => self@.session.selection.len() == 1 && crate::tree::find(
                    self@.session.history.layers(),
                    self@.session.selection[0],
                ) == Some(layer@),
                None => self@.session.selection.len() != 1 || crate::tree::find(
                    self@.session.history.layers(),
                    self@.session.selection[0],
                ) is None,
            },
    {
        if self.selection.len() == 1 {
            self.history.page().find(self.selection[0])
        } else {
            None
        }
    }

    /// Puts the present state by and tells which images of the document are to be made smaller.
    pub fn reduce_file_size(&mut self) -> (r: Vec<LayerId>)
        requires
            old(self).wf(),
        ensures
            final(self).wf(),
            r@ == images_on(
                old(self)@.session.history.current.pages,
                old(self)@.session.history.current.pages.len(),
            ),
            final(self)@ == (AppView {
                session: Session {
                    history: old(self)@.session.history.after_snapshot(),
                    ..old(self)@.session
                },
                ..old(self)@
            }),
    {
        self.history.snapshot();
        let document = self.history.get();
        let ghost pages = document@.pages;
        let mut out: Vec<LayerId> = Vec::new();
        let mut k: usize = 0;
        while k < document.pages.len()
            invariant
                pages == crate::document::page_views(document.pages@),
                k <= document.pages.len(),
                out@ == images_on(pages, k as nat),
            decreases document.pages.len() - k,
        {
            assert(pages[k as int] == document.pages@[k as int]@);
            collect_images(&document.pages[k].layers, &mut out);
            k += 1;
        }
        out
    }
}

/// Puts layers that are placed on the page into a container, or in front of all.
fn place_images<S: Scalar>(page: &mut Page<S>, layers: Vec<Layer<S>>, hint: Option<LayerId>)
    ensures
        final(page)@ == old(page)@.with_layers(
            images_placed(old(page)@.layers, views(layers@), hint),
        ),
{
    let mut layers = layers;
    let ghost new = views(layers@);
    let ghost s = page@.layers;
    if let Some(id) = hint {
        let pos = match (page.absolute_offset(id), page.find(id)) {
            (Some(outer), Some(layer)) => if layer.children().is_some() {
                Some(layer.frame.pos.to_vec2().plus(outer))
            } else {
                None
            },
            _ => None,
        };
        assert(pos == container_pos(s, id));
        if let Some(pos) = pos {
            match page.find_mut(id) {
                Some(layer) => {
                    match layer.children_mut() {
                        Some(children) => {
                            move_all_back(&mut layers, pos);
                            let ghost before = views(children@);
                            children.append(&mut layers);
                            assert(views(children@) =~= before + moved_back(new, pos));
                        },
                        None => {},
                    }
                },
                None => {},
            }
            return;
        }
    }
    page.layers.append(&mut layers);
    assert(views(page.layers@) =~= s + new);
}

/// Whether a command left the history alone, or one undo brings the document back.
pub open spec fn undone_at_once<S>(before: Session<S>, after: Session<S>) -> bool {
    after.history == before.history || after.history.after_undo().current == before.history.current
}

/// Every command on the selection makes at most one step: one undo takes it back.
pub proof fn law_a_command_is_undone_at_once<S: Scalar>(
    s: Session<S>,
    edit: EditView<S>,
    names: Seq<(LayerId, Seq<char>)>,
    cells: (u32, u32, S, S),
    op: BoolOp,
    below: bool,
    edge: AlignEdge,
    to_artboard: bool,
    axis: DistributeAxis,
    spacing: S,
    palette: Seq<SwatchView>,
    polygons: Seq<PolygonView<S>>,
    size: Vec2<S>,
    new: Seq<LayerView<S>>,
)
    ensures
        undone_at_once(s, selection_edited(s, edit)),
        undone_at_once(s, names_applied(s, names)),
        undone_at_once(s, grid_made(s, cells.0, cells.1, cells.2, cells.3)),
        undone_at_once(s, selection_grouped(s)),
        undone_at_once(s, selection_ungrouped(s)),
        undone_at_once(s, selection_combined(s, op)),
        undone_at_once(s, selection_copied(s, below)),
        undone_at_once(s, selection_aligned(s, edge, to_artboard)),
        undone_at_once(s, selection_distributed(s, axis)),
        undone_at_once(s, selection_tidied(s, spacing)),
        undone_at_once(s, palette_set(s, palette)),
        undone_at_once(s, selection_outlined(s, polygons)),
        undone_at_once(s, preset_inserted(s, size)),
        undone_at_once(s, images_inserted(s, new)),
        undone_at_once(s, selection_deleted(s)),
        undone_at_once(s, selection_rewritten(s, new)),
{
    assert(s.history.after_snapshot().after_undo().current == s.history.current);
    assert forall|layers: Seq<LayerView<S>>| #[trigger] stepped(
        s,
        layers,
    ).history.after_undo().current == s.history.current by {}
}

/// Grouping selects exactly one layer or leaves the selection as it was.
pub proof fn law_grouping_selects_the_group<S: Scalar>(s: Session<S>)
    ensures
        selection_grouped(s).selection == s.selection || selection_grouped(s).selection == seq![
            s.next as u64,
        ],
{
}

} // verus!
