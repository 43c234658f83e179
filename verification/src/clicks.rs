//! What clicks, keys and the wheel do on the canvas.
use vstd::prelude::*;

use crate::canvas::{
    repointed, selected_path, session, CanvasView, CanvasWidget, DragState, DragView, PathPart,
    Session,
};
use crate::geometry::{Pos2, Vec2};
use crate::grouping::has_id;
use crate::history::{History, HistoryView};
use crate::hit_test::{hit, hit_test, layers_at_point, stacked, Coverage};
use crate::hover::{is_single_path, placed_layers, Hover, HoverView};
use crate::model::{group_views, views, IdSource, Layer, LayerId, LayerKind, LayerView, PointType};
use crate::path_edit::has_index;
use crate::placement::{insert_layer, inserted_layer, Tool};
use crate::point_editing::{
    anchor_under, can_be_labelled, curving, drop_id, ids_without, labelled, on_first_pen_point,
    pen_finished, points_retyped, with_new_corner, with_point_removed,
};
use crate::press::{pen_point, pen_points, reference_toggled, Modifiers};
use crate::scalar::{clamped, spec_clamped, Scalar};

verus! {

broadcast use group_views;

/// The path whose points can be selected: the one selected layer, if it is a path and the
/// selection tool is held.
pub open spec fn editable_path<S>(s: Seq<LayerView<S>>, tool: Tool, selection: Seq<LayerId>) -> Option<
    LayerId,
> {
    if tool == Tool::Select && selection.len() == 1 && (crate::tree::find(s, selection[0]) matches Some(
        v,
    ) && v.kind is Path) {
        Some(selection[0])
    } else {
        None
    }
}

/// The canvas brought into line with the page and the selection: selected points stay with their
/// path, the editing of an image stays with its image, and Escape ends both.
pub open spec fn settled<S: Scalar>(
    c: CanvasView<S>,
    s: Seq<LayerView<S>>,
    tool: Tool,
    selection: Seq<LayerId>,
    escape: bool,
) -> CanvasView<S> {
    let path = editable_path(s, tool, selection);
    CanvasView {
        selected_points: if path != c.point_edit_layer || escape {
            Seq::empty()
        } else {
            c.selected_points
        },
        point_edit_layer: path,
        image_edit: match c.image_edit {
            Some(edit) => if !escape && (crate::tree::find(s, edit.layer_id) matches Some(v)
                && v.kind is Image) {
                Some(edit)
            } else {
                None
            },
            None => None,
        },
        ..c
    }
}

/// A click, or the second of two in quick succession.
#[derive(Clone, Copy, Debug, PartialEq, Eq, Structural)]
pub enum Click {
    Single,
    Double,
}

/// The session after the keys that end the path drawn with the pen: leaving the pen keeps it,
/// Enter keeps it, Escape drops it.
pub open spec fn pen_keyed<S: Scalar>(s: Session<S>, enter: bool, escape: bool) -> Session<S> {
    let left = if s.tool != Tool::Pen && s.canvas.pen is Some {
        pen_finished(s, false)
    } else {
        s
    };
    if left.canvas.pen is None {
        left
    } else if enter {
        pen_finished(left, false)
    } else if escape {
        Session {
            canvas: CanvasView { pen: None, drag: DragView::Idle, ..left.canvas },
            ..left
        }
    } else {
        left
    }
}

/// The session after a click with the pen: a double click ends the path, a click on its first
/// point closes it, any other puts a corner to it.
pub open spec fn pen_clicked<S: Scalar>(
    s: Session<S>,
    click: Click,
    doc_pos: Pos2<S>,
    origin: Pos2<S>,
) -> Session<S> {
    if s.tool != Tool::Pen {
        s
    } else if click == Click::Double {
        pen_finished(s, false)
    } else if on_first_pen_point(s.canvas, doc_pos, origin) {
        pen_finished(s, true)
    } else {
        Session {
            canvas: CanvasView {
                pen: Some(
                    pen_points(s.canvas).push(pen_point(doc_pos, PointType::Straight)),
                ),
                ..s.canvas
            },
            ..s
        }
    }
}

/// The history after a click on the one selected path: a double click curves a corner or puts one
/// in, a click with Option takes a point out.
pub open spec fn path_clicked<S: Scalar>(
    c: CanvasView<S>,
    h: HistoryView<S>,
    tool: Tool,
    selection: Seq<LayerId>,
    click: Click,
    alt: bool,
    doc_pos: Pos2<S>,
    origin: Pos2<S>,
) -> HistoryView<S> {
    let s = h.layers();
    if tool != Tool::Select || selection.len() != 1 {
        h
    } else if click == Click::Double {
        match curving(c, s, selection, doc_pos, origin) {
            Some((k, handle)) => {
                let p = selected_path(s, selection)->0;
                h.after_snapshot().with_layers(
                    repointed(
                        s,
                        selection[0],
                        p.points.update(k, crate::path_edit::mirrored(p.points[k], handle)),
                        p.closed,
                    ),
                )
            },
            None => match with_new_corner(c, s, selection, doc_pos, origin) {
                Some(layers) => h.after_snapshot().with_layers(layers),
                None => h,
            },
        }
    } else if alt {
        match with_point_removed(c, s, selection, doc_pos, origin) {
            Some(layers) => h.after_snapshot().with_layers(layers),
            None => h,
        }
    } else {
        h
    }
}

/// The point type of a number key.
pub open spec fn type_of_key(key: u8) -> Option<PointType> {
    if key == 1 {
        Some(PointType::Straight)
    } else if key == 2 {
        Some(PointType::Mirror)
    } else if key == 3 {
        Some(PointType::Asymmetric)
    } else if key == 4 {
        Some(PointType::Disconnected)
    } else {
        None
    }
}

/// The session after a double click with the selection tool: a text is edited in place, and a
/// rectangle or an oval gets a label.
pub open spec fn double_clicked<S: Scalar>(s: Session<S>, under: Option<LayerId>) -> Session<S> {
    let layers = s.history.layers();
    match under {
        Some(id) => match crate::tree::find(layers, id) {
            Some(v) => if s.tool != Tool::Select {
                s
            } else if v.kind is Text {
                let chosen = Session { selection: seq![id], ..s };
                if s.canvas.editing_text == Some(id) {
                    chosen
                } else {
                    Session {
                        canvas: s.canvas.editing(id),
                        history: s.history.after_snapshot(),
                        ..chosen
                    }
                }
            } else if (v.kind is Rectangle || v.kind is Oval) && can_be_labelled(layers, id) {
                Session {
                    canvas: s.canvas.editing(s.next as u64),
                    history: s.history.after_snapshot().with_layers(
                        labelled(layers, id, s.next as u64),
                    ),
                    selection: seq![s.next as u64],
                    next: s.next + (if crate::point_editing::label_is_grouped(
                        layers,
                        id,
                        s.next as u64,
                    ) {
                        2int
                    } else {
                        1int
                    }),
                    ..s
                }
            } else {
                s
            },
            None => s,
        },
        None => s,
    }
}

/// The selected points with one turned over.
pub open spec fn point_toggled(selected: Seq<usize>, i: usize) -> Seq<usize> {
    if selected.contains(i) {
        selected.remove(selected.index_of_first(i)->0)
    } else {
        selected.push(i)
    }
}

/// All points of a path, as indices.
pub open spec fn all_points_of(n: nat) -> Seq<usize> {
    Seq::new(n, |i: int| i as usize)
}

/// The points selected by a click on one with the selection tool: with Shift it is turned over,
/// else it alone is selected. Option and the second of two clicks do other things.
pub open spec fn point_clicked<S>(
    selected: Seq<usize>,
    tool: Tool,
    hover: HoverView<S>,
    click: Click,
    modifiers: Modifiers,
) -> Seq<usize> {
    match hover.point {
        Some((i, part)) => if tool == Tool::Select && click == Click::Single && part
            == PathPart::Anchor && !modifiers.alt {
            if modifiers.shift {
                point_toggled(selected, i)
            } else {
                seq![i]
            }
        } else {
            selected
        },
        None => selected,
    }
}

/// The canvas and the selection after a click with the selection tool that hit nothing of the
/// selection's own marks: Shift turns the layer's selection over, a click on the one selected
/// layer makes it the reference, any other selects the layer; on nothing, scaling ends and so does
/// the selection, unless Shift is held.
pub open spec fn clicked<S: Scalar>(
    c: CanvasView<S>,
    selection: Seq<LayerId>,
    under: Option<LayerId>,
    shift: bool,
) -> (CanvasView<S>, Seq<LayerId>) {
    match under {
        Some(id) => if shift {
            if selection.contains(id) {
                (c, ids_without(selection, id))
            } else {
                (c, selection.push(id))
            }
        } else if selection.len() == 1 && selection[0] == id {
            (reference_toggled(c, id), selection)
        } else {
            (CanvasView { reference_layer: None, ..c }, seq![id])
        },
        None => (
            CanvasView { scaling: None, ..c },
            if shift {
                selection
            } else {
                Seq::empty()
            },
        ),
    }
}

/// Whether a click selects layers: with the selection tool, while no image is edited and no path
/// alone is selected, and off the selection's own marks. The second of two clicks does not.
pub open spec fn click_selects<S: Scalar>(
    c: CanvasView<S>,
    s: Seq<LayerView<S>>,
    tool: Tool,
    selection: Seq<LayerId>,
    hover: HoverView<S>,
    click: Click,
) -> bool {
    &&& tool == Tool::Select
    &&& click == Click::Single
    &&& c.image_edit is None
    &&& hover.point is None
    &&& hover.handle is None
    &&& hover.rotate_corner is None
    &&& hover.gap is None
    &&& !is_single_path(placed_layers(s, selection))
}

/// The canvas after a right click: on a point of the one selected path the point types are
/// offered, with Shift the layers under the pointer, else copying and pasting.
pub open spec fn right_clicked<S: Scalar>(
    c: CanvasView<S>,
    s: Seq<LayerView<S>>,
    tool: Tool,
    selection: Seq<LayerId>,
    at: Pos2<S>,
    origin: Pos2<S>,
    shift: bool,
) -> CanvasView<S> {
    if tool != Tool::Select {
        c
    } else {
        match anchor_under(c, s, selection, origin, at) {
            Some(k) => CanvasView {
                selected_points: if c.selected_points.contains(k as usize) {
                    c.selected_points
                } else {
                    seq![k as usize]
                },
                point_type_menu: Some((at, selection[0])),
                canvas_menu: None,
                overlap_menu: None,
                ..c
            },
            None => if shift {
                let hits = stacked(s, Vec2::spec_zero(), c.to_doc(origin, at));
                CanvasView {
                    overlap_menu: if hits.len() == 0 {
                        None
                    } else {
                        Some((at, hits))
                    },
                    canvas_menu: None,
                    point_type_menu: None,
                    ..c
                }
            } else {
                CanvasView {
                    canvas_menu: Some(at),
                    overlap_menu: None,
                    point_type_menu: None,
                    ..c
                }
            },
        }
    }
}

/// The canvas after the wheel turned or a pinch: it is magnified between a tenth and eight times,
/// or moved.
pub open spec fn wheeled<S: Scalar>(c: CanvasView<S>, scroll: Vec2<S>, zoom_delta: S) -> CanvasView<
    S,
> {
    if !zoom_delta.spec_same(S::spec_ratio(1, 1)) {
        CanvasView {
            zoom: spec_clamped(
                c.zoom.spec_times(zoom_delta),
                S::spec_ratio(1, 10),
                S::spec_ratio(8, 1),
            ),
            ..c
        }
    } else {
        CanvasView { pan: c.pan.spec_plus(scroll), ..c }
    }
}

/// The layers after some new ones, which are placed on the page, were put on it one by one.
pub open spec fn all_inserted<S: Scalar>(
    s: Seq<LayerView<S>>,
    new: Seq<LayerView<S>>,
    at: Pos2<S>,
    hint: Option<LayerId>,
) -> Seq<LayerView<S>>
    decreases new.len(),
{
    if new.len() == 0 {
        s
    } else {
        inserted_layer(all_inserted(s, new.drop_last(), at, hint), new.last(), at, hint)
    }
}

impl<S: Scalar> CanvasWidget<S> {
    /// Brings the canvas into line with the page and the selection.
    pub fn settle(&mut self, history: &History<S>, tool: Tool, selection: &Vec<LayerId>, escape: bool)
        requires
            history@.current.wf(),
        ensures
            final(self)@ == settled(old(self)@, history@.layers(), tool, selection@, escape),
    {
        self.settle_points(history, tool, selection, escape);
        self.settle_image(history, escape);
    }

    fn settle_points(
        &mut self,
        history: &History<S>,
        tool: Tool,
        selection: &Vec<LayerId>,
        escape: bool,
    )
        requires
            history@.current.wf(),
        ensures
            final(self)@ == (CanvasView {
                image_edit: old(self)@.image_edit,
                ..settled(old(self)@, history@.layers(), tool, selection@, escape)
            }),
    {
        let path = find_editable_path(history, tool, selection);
        let same = match (path, self.point_edit_layer) {
            (Some(a), Some(b)) => a == b,
            (None, None) => true,
            _ => false,
        };
        if !same || escape {
            self.selected_points = Vec::new();
        }
        self.point_edit_layer = path;
    }

    fn settle_image(&mut self, history: &History<S>, escape: bool)
        requires
            history@.current.wf(),
        ensures
            final(self)@ == (CanvasView {
                image_edit: settled(
                    old(self)@,
                    history@.layers(),
                    Tool::Select,
                    Seq::empty(),
                    escape,
                ).image_edit,
                ..old(self)@
            }),
    {
        let keep = match &self.image_edit {
            Some(edit) => !escape && is_image(history, edit.layer_id),
            None => true,
        };
        if !keep {
            self.image_edit = None;
        }
    }

    /// The keys that end the path drawn with the pen.
    pub fn pen_keys(
        &mut self,
        enter: bool,
        escape: bool,
        history: &mut History<S>,
        tool: &mut Tool,
        selection: &mut Vec<LayerId>,
        source: &mut IdSource,
    )
        requires
            old(history)@.current.wf(),
            old(source).next < u64::MAX,
        ensures
            session(
                *final(self),
                *final(history),
                *final(tool),
                *final(selection),
                *final(source),
            ) == pen_keyed(
                session(*old(self), *old(history), *old(tool), *old(selection), *old(source)),
                enter,
                escape,
            ),
    {
        if *tool != Tool::Pen && self.pen.is_some() {
            self.finish_pen_path(history, selection, tool, false, source);
            return;
        }
        if self.pen.is_some() {
            if enter {
                self.finish_pen_path(history, selection, tool, false, source);
            } else if escape {
                self.pen = None;
                self.drag = DragState::Idle;
            }
        }
    }

    /// A click with the pen.
    pub fn pen_click(
        &mut self,
        click: Click,
        doc_pos: Pos2<S>,
        origin: Pos2<S>,
        history: &mut History<S>,
        tool: &mut Tool,
        selection: &mut Vec<LayerId>,
        source: &mut IdSource,
    )
        requires
            old(history)@.current.wf(),
            old(source).next < u64::MAX,
        ensures
            session(
                *final(self),
                *final(history),
                *final(tool),
                *final(selection),
                *final(source),
            ) == pen_clicked(
                session(*old(self), *old(history), *old(tool), *old(selection), *old(source)),
                click,
                doc_pos,
                origin,
            ),
    {
        if *tool != Tool::Pen {
            return;
        }
        match click {
            Click::Double => {
                self.finish_pen_path(history, selection, tool, false, source);
            },
            Click::Single => {
                if !self.try_close_pen_path(doc_pos, origin, history, selection, tool, source) {
                    self.push_pen_point(doc_pos, PointType::Straight);
                }
            },
        }
    }

    /// A click on the one selected path.
    pub fn path_click(
        &self,
        click: Click,
        alt: bool,
        doc_pos: Pos2<S>,
        origin: Pos2<S>,
        history: &mut History<S>,
        tool: Tool,
        selection: &Vec<LayerId>,
    )
        requires
            old(history)@.current.wf(),
        ensures
            final(history)@ == path_clicked(
                self@,
                old(history)@,
                tool,
                selection@,
                click,
                alt,
                doc_pos,
                origin,
            ),
    {
        if tool != Tool::Select || selection.len() != 1 {
            return;
        }
        match click {
            Click::Double => {
                if !self.try_convert_anchor_to_curve(history, selection, doc_pos, origin) {
                    self.try_insert_path_point(history, selection, doc_pos, origin);
                }
            },
            Click::Single => {
                if alt {
                    self.try_delete_path_point(history, selection, doc_pos, origin);
                }
            },
        }
    }

    /// A number key while points of the one selected path are selected: they take a type.
    pub fn point_type_key(
        &self,
        key: u8,
        history: &mut History<S>,
        tool: Tool,
        selection: &Vec<LayerId>,
    )
        requires
            old(history)@.current.wf(),
        ensures
            final(history)@ == (if tool == Tool::Select && selection@.len() == 1
                && self@.selected_points.len() > 0 && type_of_key(key) is Some {
                old(history)@.after_snapshot().with_layers(
                    points_retyped(
                        old(history)@.layers(),
                        selection@[0],
                        self@.selected_points,
                        type_of_key(key)->0,
                    ),
                )
            } else {
                old(history)@
            }),
    {
        if tool != Tool::Select || selection.len() != 1 || self.selected_points.len() == 0 {
            return;
        }
        let t = match key {
            1 => PointType::Straight,
            2 => PointType::Mirror,
            3 => PointType::Asymmetric,
            4 => PointType::Disconnected,
            _ => {
                return;
            },
        };
        self.apply_point_type(history, selection[0], t);
    }

    /// A double click with the selection tool.
    pub fn double_click(
        &mut self,
        doc_pos: Pos2<S>,
        history: &mut History<S>,
        tool: Tool,
        selection: &mut Vec<LayerId>,
        coverage: &Coverage,
        source: &mut IdSource,
    )
        requires
            old(history)@.current.wf(),
            old(source).next < u64::MAX - 1,
        ensures
            session(*final(self), *final(history), tool, *final(selection), *final(source))
                == double_clicked(
                session(*old(self), *old(history), tool, *old(selection), *old(source)),
                hit(
                    old(history)@.layers(),
                    old(history)@.layers().len(),
                    doc_pos,
                    coverage.solid@,
                    coverage.revealing@,
                ),
            ),
    {
        if tool != Tool::Select {
            return;
        }
        let page = history.page();
        if let Some(id) = hit_test(page, doc_pos, coverage) {
            let mut text = false;
            let mut shape = false;
            if let Some(layer) = page.find(id) {
                match &layer.kind {
                    LayerKind::Text { .. } => {
                        text = true;
                    },
                    LayerKind::Rectangle { .. } | LayerKind::Oval => {
                        shape = true;
                    },
                    _ => {},
                }
            }
            if text {
                *selection = vec![id];
                assert(selection@ =~= seq![id]);
                self.start_editing_text(history, id);
            } else if shape {
                if let Some(text_id) = self.add_shape_label(history, id, source) {
                    *selection = vec![text_id];
                    assert(selection@ =~= seq![text_id]);
                }
            }
        }
    }

    /// Selects all points of the one selected path.
    pub fn select_all_points(&mut self, history: &History<S>, tool: Tool, selection: &Vec<LayerId>)
        requires
            history@.current.wf(),
        ensures
            ({
                let placed = placed_layers(history@.layers(), selection@);
                final(self)@ == if tool == Tool::Select && is_single_path(placed) {
                    CanvasView {
                        selected_points: all_points_of(placed[0].0.kind->Path_points.len()),
                        ..old(self)@
                    }
                } else {
                    old(self)@
                }
            }),
    {
        if tool != Tool::Select {
            return;
        }
        let placed = crate::hover::selected_layers(history.page(), selection);
        let ghost all = crate::hover::placed_views(placed@);
        if placed.len() == 1 {
            assert(all[0].0 == placed@[0].0@);
            if let LayerKind::Path { points, .. } = &placed[0].0.kind {
                let mut r: Vec<usize> = Vec::new();
                let mut i: usize = 0;
                while i < points.len()
                    invariant
                        i <= points.len(),
                        r@ == all_points_of(i as nat),
                    decreases points.len() - i,
                {
                    r.push(i);
                    i += 1;
                    assert(r@ =~= all_points_of(i as nat));
                }
                self.selected_points = r;
            }
        }
    }

    /// A click on a point of the one selected path.
    pub fn point_click(
        &mut self,
        tool: Tool,
        hover: &Hover<S>,
        click: Click,
        modifiers: Modifiers,
    )
        ensures
            final(self)@ == (CanvasView {
                selected_points: point_clicked(
                    old(self)@.selected_points,
                    tool,
                    hover@,
                    click,
                    modifiers,
                ),
                ..old(self)@
            }),
    {
        if let Some((i, part)) = hover.point {
            if tool == Tool::Select && click == Click::Single && part == PathPart::Anchor
                && !modifiers.alt {
                if modifiers.shift {
                    let mut k: usize = 0;
                    let n = self.selected_points.len();
                    while k < n && self.selected_points[k] != i
                        invariant
                            k <= n,
                            n == self.selected_points.len(),
                            forall|j: int| 0 <= j < k ==> #[trigger] self.selected_points@[j] != i,
                        decreases n - k,
                    {
                        k += 1;
                    }
                    let ghost before = self.selected_points@;
                    if k < n {
                        proof {
                            assert(before[k as int] == i);
                            before.index_of_first_ensures(i);
                            let f = before.index_of_first(i)->0;
                            assert(f == k) by {
                                if f < k {
                                    assert(before[f] != i);
                                }
                            }
                        }
                        self.selected_points.remove(k);
                    } else {
                        assert(!before.contains(i));
                        self.selected_points.push(i);
                    }
                } else {
                    self.selected_points = vec![i];
                    assert(self.selected_points@ =~= seq![i]);
                }
            }
        }
    }

    /// A click that selects layers.
    pub fn click_select(
        &mut self,
        doc_pos: Pos2<S>,
        history: &History<S>,
        tool: Tool,
        selection: &mut Vec<LayerId>,
        hover: &Hover<S>,
        click: Click,
        shift: bool,
        coverage: &Coverage,
    )
        requires
            history@.current.wf(),
        ensures
            ({
                let under = hit(
                    history@.layers(),
                    history@.layers().len(),
                    doc_pos,
                    coverage.solid@,
                    coverage.revealing@,
                );
                let after = clicked(old(self)@, old(selection)@, under, shift);
                if click_selects(
                    old(self)@,
                    history@.layers(),
                    tool,
                    old(selection)@,
                    hover@,
                    click,
                ) {
                    final(self)@ == after.0 && final(selection)@ == after.1
                } else {
                    *final(self) == *old(self) && *final(selection) == *old(selection)
                }
            }),
    {
        if tool != Tool::Select || click != Click::Single || self.image_edit.is_some()
            || hover.point.is_some()
            || hover.handle.is_some() || hover.rotate_corner.is_some() || hover.gap.is_some()
            || crate::press::single_path(history.page(), selection).is_some() {
            return;
        }
        match hit_test(history.page(), doc_pos, coverage) {
            Some(id) => {
                if shift {
                    if has_id(selection, id) {
                        *selection = drop_id(selection, id);
                    } else {
                        selection.push(id);
                    }
                } else if selection.len() == 1 && selection[0] == id {
                    self.toggle_reference(id);
                } else {
                    *selection = vec![id];
                    assert(selection@ =~= seq![id]);
                    self.reference_layer = None;
                }
            },
            None => {
                self.scaling = None;
                if !shift {
                    *selection = Vec::new();
                }
            },
        }
    }

    /// A right click.
    pub fn right_click(
        &mut self,
        at: Pos2<S>,
        origin: Pos2<S>,
        history: &History<S>,
        tool: Tool,
        selection: &Vec<LayerId>,
        shift: bool,
    )
        requires
            history@.current.wf(),
        ensures
            final(self)@ == right_clicked(
                old(self)@,
                history@.layers(),
                tool,
                selection@,
                at,
                origin,
                shift,
            ),
    {
        if tool != Tool::Select {
            return;
        }
        match self.hit_test_path_anchor(history, selection, origin, at) {
            Some((layer_id, index)) => {
                if !has_index(&self.selected_points, index) {
                    self.selected_points = vec![index];
                    assert(self.selected_points@ =~= seq![index]);
                }
                self.point_type_menu = Some((at, layer_id));
                self.canvas_menu = None;
                self.overlap_menu = None;
            },
            None => {
                self.point_type_menu = None;
                if shift {
                    let mut hits: Vec<LayerId> = Vec::new();
                    let doc_pos = self.to_doc(origin, at);
                    layers_at_point(&history.page().layers, Vec2::zero(), doc_pos, &mut hits);
                    assert(hits@ =~= stacked(history@.layers(), Vec2::spec_zero(), doc_pos));
                    self.overlap_menu = if hits.len() == 0 {
                        None
                    } else {
                        Some((at, hits))
                    };
                    self.canvas_menu = None;
                } else {
                    self.canvas_menu = Some(at);
                    self.overlap_menu = None;
                }
            },
        }
    }

    /// A layer was chosen from the menu of overlapping layers.
    pub fn choose_overlapping(&mut self, id: LayerId, selection: &mut Vec<LayerId>)
        ensures
            final(self)@ == (CanvasView { overlap_menu: None, ..old(self)@ }),
            final(selection)@ == seq![id],
    {
        *selection = vec![id];
        assert(selection@ =~= seq![id]);
        self.overlap_menu = None;
    }

    /// A point type was chosen from the menu of point types.
    pub fn choose_point_type(&mut self, history: &mut History<S>, t: PointType)
        requires
            old(history)@.current.wf(),
        ensures
            final(self)@ == (CanvasView { point_type_menu: None, ..old(self)@ }),
            match old(self)@.point_type_menu {
                Some((at, id)) => final(history)@ == old(history)@.after_snapshot().with_layers(
                    points_retyped(
                        old(history)@.layers(),
                        id,
                        old(self)@.selected_points,
                        t,
                    ),
                ),
                None => *final(history) == *old(history),
            },
    {
        if let Some((_, layer_id)) = self.point_type_menu {
            self.apply_point_type(history, layer_id, t);
        }
        self.point_type_menu = None;
    }

    /// A click elsewhere, or Escape, closes every menu.
    pub fn dismiss_menus(&mut self)
        ensures
            final(self)@ == (CanvasView {
                canvas_menu: None,
                overlap_menu: None,
                point_type_menu: None,
                ..old(self)@
            }),
    {
        self.canvas_menu = None;
        self.overlap_menu = None;
        self.point_type_menu = None;
    }

    /// The wheel turned, or a pinch.
    pub fn wheel(&mut self, scroll: Vec2<S>, zoom_delta: S)
        ensures
            final(self)@ == wheeled(old(self)@, scroll, zoom_delta),
    {
        if !zoom_delta.is_same(S::ratio(1, 1)) {
            self.zoom = clamped(self.zoom.times(zoom_delta), S::ratio(1, 10), S::ratio(8, 1));
        } else {
            self.pan = self.pan.plus(scroll);
        }
    }

    /// Puts images that were dropped onto the canvas on the page, and selects them.
    pub fn drop_layers(
        &mut self,
        new: Vec<Layer<S>>,
        doc_pos: Pos2<S>,
        history: &mut History<S>,
        selection: &mut Vec<LayerId>,
    )
        requires
            old(history)@.current.wf(),
        ensures
            new@.len() == 0 ==> {
                &&& *final(self) == *old(self)
                &&& *final(history) == *old(history)
                &&& *final(selection) == *old(selection)
            },
            new@.len() > 0 ==> {
                &&& final(self)@ == (CanvasView { insert_hint_parent: None, ..old(self)@ })
                &&& final(history)@ == old(history)@.after_snapshot().with_layers(
                    all_inserted(
                        old(history)@.layers(),
                        views(new@),
                        doc_pos,
                        old(self)@.insert_hint_parent,
                    ),
                )
                &&& final(selection)@ == crate::grouping::ids_of(views(new@))
            },
    {
        if new.len() == 0 {
            return;
        }
        history.snapshot();
        *selection = crate::grouping::list_ids(&new);
        let hint = self.insert_hint_parent;
        self.insert_hint_parent = None;
        insert_all(history, new, doc_pos, hint);
    }
}

/// The path whose points can be selected.
pub fn find_editable_path<S: Scalar>(history: &History<S>, tool: Tool, selection: &Vec<LayerId>) -> (r:
    Option<LayerId>)
    requires
        history@.current.wf(),
    ensures
        r == editable_path(history@.layers(), tool, selection@),
{
    if tool == Tool::Select && selection.len() == 1 {
        if let Some(layer) = history.page().find(selection[0]) {
            if let LayerKind::Path { .. } = &layer.kind {
                return Some(selection[0]);
            }
        }
    }
    None
}

/// Whether the page has an image with the given id.
fn is_image<S: Scalar>(history: &History<S>, id: LayerId) -> (r: bool)
    requires
        history@.current.wf(),
    ensures
        r == (crate::tree::find(history@.layers(), id) matches Some(v) && v.kind is Image),
{
    match history.page().find(id) {
        Some(layer) => match &layer.kind {
            LayerKind::Image { .. } => true,
            _ => false,
        },
        None => false,
    }
}

/// Puts new layers on the page one by one.
pub fn insert_all<S: Scalar>(
    history: &mut History<S>,
    new: Vec<Layer<S>>,
    doc_pos: Pos2<S>,
    hint: Option<LayerId>,
)
    requires
        old(history)@.current.wf(),
    ensures
        final(history)@ == old(history)@.with_layers(
            all_inserted(old(history)@.layers(), views(new@), doc_pos, hint),
        ),
{
    let ghost s = history@.layers();
    let ghost all = views(new@);
    let n = new.len();
    let mut rest = new;
    let page = history.page_mut();
    let ghost before = page@;
    let mut k: usize = 0;
    assert(all.take(0) =~= Seq::empty());
    assert(all.skip(0) =~= all);
    assert(before.with_layers(s) == before);
    while rest.len() > 0
        invariant
            k + rest.len() == n,
            n == all.len(),
            n <= usize::MAX,
            views(rest@) == all.skip(k as int),
            page@ == before.with_layers(all_inserted(s, all.take(k as int), doc_pos, hint)),
        decreases rest.len(),
    {
        assert(views(rest@)[0] == all[k as int]);
        assert(views(rest@)[0] == rest@[0]@);
        assert(all.take(k + 1).drop_last() =~= all.take(k as int));
        assert(all.take(k + 1).last() == all[k as int]);
        let ghost left = views(rest@);
        let layer = rest.remove(0);
        assert(views(rest@) =~= left.drop_first());
        assert(views(rest@) =~= all.skip(k + 1));
        insert_layer(page, layer, doc_pos, hint);
        k += 1;
    }
    assert(all.take(k as int) =~= all);
}

} // verus!
