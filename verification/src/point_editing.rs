//! Clicks and keys that edit the points of a path: curving, inserting, removing, retyping, rounding,
//! cutting, and drawing with the pen.
use vstd::prelude::*;

use crate::canvas::{
    path_at, read_path, repointed, reshaped, selected_path, session, set_path, with_points,
    CanvasView, CanvasWidget, DragState, DragView, Session,
};
use crate::document::{find_from, PageView};
use crate::geometry::{Pos2, Vec2};
use crate::grouping::{find_common_parent_list, group_layers, parent_and_index};
use crate::color::Color32;
use crate::history::History;
use crate::model::{
    group_views, views, Frame, IdSource, KindView, Layer, LayerId, LayerKind, LayerView, PathPoint,
    PointType,
};
use crate::path_edit::{
    anchor_bounds, build_path_layer, corner_at, count_distinct, default_curve_handle_out,
    new_corner, path_layer, points_without, rebase, round_to_max, set_point_types, set_radius,
    PathCut, PathCutView, PathOnScreen, ScreenPathView,
};
use crate::placement::{insert_layer, inserted_layer, Tool};
use crate::scalar::Scalar;
use crate::style::Paint;
use crate::text::{TextAlign, TextBlock, TextBlockView, TextResize, VerticalAlign};
use crate::tree::position_of;

verus! {

broadcast use group_views;

/// The point of the one selected path that is nearest to a point of the screen, within reach.
pub open spec fn anchor_under<S: Scalar>(
    c: CanvasView<S>,
    s: Seq<LayerView<S>>,
    selection: Seq<LayerId>,
    origin: Pos2<S>,
    at: Pos2<S>,
) -> Option<int> {
    match selected_path(s, selection) {
        Some(p) => match c.shows(origin, p).nearest_anchor(at) {
            Some((k, d)) => if d.spec_le(S::spec_ratio(8, 1)) {
                Some(k)
            } else {
                None
            },
            None => None,
        },
        None => None,
    }
}

/// What a double click on a point of the one selected path does: the point, and the handle that
/// makes it a curve. Only a corner without handles is curved.
pub open spec fn curving<S: Scalar>(
    c: CanvasView<S>,
    s: Seq<LayerView<S>>,
    selection: Seq<LayerId>,
    doc_pos: Pos2<S>,
    origin: Pos2<S>,
) -> Option<(int, Vec2<S>)> {
    match selected_path(s, selection) {
        Some(p) => match c.shows(origin, p).nearest_anchor(c.to_screen(origin, doc_pos)) {
            Some((k, d)) => if S::spec_ratio(8, 1).spec_lt(d) || p.points[k].handle_in is Some
                || p.points[k].handle_out is Some {
                None
            } else {
                match crate::path_edit::default_handle(p.points, k, p.closed) {
                    Some(h) => Some((k, h)),
                    None => None,
                }
            },
            None => None,
        },
        None => None,
    }
}

/// The layers after a double click on a segment of the one selected path put a corner there; none
/// where no segment is near.
pub open spec fn with_new_corner<S: Scalar>(
    c: CanvasView<S>,
    s: Seq<LayerView<S>>,
    selection: Seq<LayerId>,
    doc_pos: Pos2<S>,
    origin: Pos2<S>,
) -> Option<Seq<LayerView<S>>> {
    match selected_path(s, selection) {
        Some(p) => match c.shows(origin, p).nearest_segment(c.to_screen(origin, doc_pos)) {
            Some(k) => Some(
                repointed(
                    s,
                    selection[0],
                    p.points.insert(
                        k + 1,
                        corner_at(
                            doc_pos.spec_minus(p.pos.spec_to_vec2()).spec_minus(p.outer),
                        ),
                    ),
                    p.closed,
                ),
            ),
            None => None,
        },
        None => None,
    }
}

/// The layers after a click took a point out of the one selected path; none where no point is
/// under it, or only two points are left.
pub open spec fn with_point_removed<S: Scalar>(
    c: CanvasView<S>,
    s: Seq<LayerView<S>>,
    selection: Seq<LayerId>,
    doc_pos: Pos2<S>,
    origin: Pos2<S>,
) -> Option<Seq<LayerView<S>>> {
    match selected_path(s, selection) {
        Some(p) => if p.points.len() <= 2 {
            None
        } else {
            match c.shows(origin, p).first_anchor(c.to_screen(origin, doc_pos), 0) {
                Some(k) => Some(reshaped(s, selection[0], p.points.remove(k), p.closed)),
                None => None,
            }
        },
        None => None,
    }
}

/// The ids without one of them.
pub open spec fn ids_without(ids: Seq<LayerId>, id: LayerId) -> Seq<LayerId> {
    ids.filter(|x: LayerId| x != id)
}

/// The ids without one of them.
pub fn drop_id(ids: &Vec<LayerId>, id: LayerId) -> (r: Vec<LayerId>)
    ensures
        r@ == ids_without(ids@, id),
{
    let mut r: Vec<LayerId> = Vec::new();
    let mut i: usize = 0;
    proof {
        reveal(Seq::filter);
        assert(ids@.take(0) =~= Seq::empty());
    }
    while i < ids.len()
        invariant
            i <= ids.len(),
            r@ == ids_without(ids@.take(i as int), id),
        decreases ids.len() - i,
    {
        proof {
            reveal(Seq::filter);
            assert(ids@.take(i + 1).drop_last() =~= ids@.take(i as int));
            assert(ids@.take(i + 1).last() == ids@[i as int]);
        }
        if ids[i] != id {
            r.push(ids[i]);
        }
        i += 1;
    }
    assert(ids@.take(i as int) =~= ids@);
    r
}

/// A path drawn with the pen, framed by the box of its anchors.
pub open spec fn pen_layer<S: Scalar>(id: LayerId, points: Seq<PathPoint<S>>, closed: bool) -> LayerView<
    S,
> {
    let b = crate::path_edit::anchor_box(points, Pos2::spec_zero());
    Layer::<S>::spec_new(
        id,
        "Path"@,
        Frame { pos: b.min, size: b.spec_size(), rotation: S::spec_ratio(0, 1) },
        KindView::Path {
            points: crate::path_edit::rebased(points, Pos2::spec_zero(), b.min),
            closed,
        },
        Seq::empty(),
    )
}

impl<S: Scalar> CanvasWidget<S> {
    /// The point of the one selected path under a point of the screen, and that path.
    pub fn hit_test_path_anchor(
        &self,
        history: &History<S>,
        selection: &Vec<LayerId>,
        origin: Pos2<S>,
        screen_pos: Pos2<S>,
    ) -> (r: Option<(LayerId, usize)>)
        requires
            history@.current.wf(),
        ensures
            match anchor_under(self@, history@.layers(), selection@, origin, screen_pos) {
                Some(k) => r == Some((selection@[0], k as usize)) && 0 <= k < selected_path(
                    history@.layers(),
                    selection@,
                )->0.points.len(),
                None => r is None,
            },
    {
        if selection.len() != 1 {
            return None;
        }
        match read_path(history, selection[0]) {
            Some((pos, outer, points, closed)) => {
                let shown = PathOnScreen {
                    points: &points,
                    closed,
                    base: pos.to_vec2(),
                    outer,
                    viewport: self.viewport(),
                    origin,
                };
                match shown.nearest_anchor(screen_pos) {
                    Some((k, d)) => if d.is_le(S::ratio(8, 1)) {
                        Some((selection[0], k))
                    } else {
                        None
                    },
                    None => None,
                }
            },
            None => None,
        }
    }

    /// Makes a corner of the one selected path a curve, where the click is on one without handles.
    pub fn try_convert_anchor_to_curve(
        &self,
        history: &mut History<S>,
        selection: &Vec<LayerId>,
        doc_pos: Pos2<S>,
        origin: Pos2<S>,
    ) -> (r: bool)
        requires
            old(history)@.current.wf(),
        ensures
            match curving(self@, old(history)@.layers(), selection@, doc_pos, origin) {
                Some((k, h)) => {
                    let p = selected_path(old(history)@.layers(), selection@)->0;
                    &&& r
                    &&& final(history)@ == old(history)@.after_snapshot().with_layers(
                        repointed(
                            old(history)@.layers(),
                            selection@[0],
                            p.points.update(k, crate::path_edit::mirrored(p.points[k], h)),
                            p.closed,
                        ),
                    )
                },
                None => !r && *final(history) == *old(history),
            },
    {
        if selection.len() != 1 {
            return false;
        }
        match read_path(history, selection[0]) {
            Some((pos, outer, mut points, closed)) => {
                let shown = PathOnScreen {
                    points: &points,
                    closed,
                    base: pos.to_vec2(),
                    outer,
                    viewport: self.viewport(),
                    origin,
                };
                match shown.nearest_anchor(self.to_screen(origin, doc_pos)) {
                    Some((k, d)) => {
                        if S::ratio(8, 1).is_lt(d) || points[k].handle_in.is_some()
                            || points[k].handle_out.is_some() {
                            return false;
                        }
                        match default_curve_handle_out(&points, k, closed) {
                            Some(h) => {
                                let mut p = points[k];
                                p.point_type = PointType::Mirror;
                                p.handle_out = Some(h);
                                p.handle_in = Some(h.negated());
                                points.set(k, p);
                                history.snapshot();
                                set_path(history, selection[0], points, closed, false);
                                true
                            },
                            None => false,
                        }
                    },
                    None => false,
                }
            },
            None => false,
        }
    }

    /// Puts a corner into the one selected path, where the click is near one of its segments.
    pub fn try_insert_path_point(
        &self,
        history: &mut History<S>,
        selection: &Vec<LayerId>,
        doc_pos: Pos2<S>,
        origin: Pos2<S>,
    )
        requires
            old(history)@.current.wf(),
        ensures
            match with_new_corner(self@, old(history)@.layers(), selection@, doc_pos, origin) {
                Some(layers) => final(history)@ == old(history)@.after_snapshot().with_layers(
                    layers,
                ),
                None => *final(history) == *old(history),
            },
    {
        if selection.len() != 1 {
            return;
        }
        if let Some((pos, outer, mut points, closed)) = read_path(history, selection[0]) {
            let shown = PathOnScreen {
                points: &points,
                closed,
                base: pos.to_vec2(),
                outer,
                viewport: self.viewport(),
                origin,
            };
            let n = points.len();
            if let Some(k) = shown.nearest_segment(self.to_screen(origin, doc_pos)) {
                assert(k < n);
                points.insert(k + 1, new_corner(doc_pos.minus(pos.to_vec2()).minus(outer)));
                history.snapshot();
                set_path(history, selection[0], points, closed, false);
            }
        }
    }

    /// Takes the clicked point out of the one selected path; two points always stay.
    pub fn try_delete_path_point(
        &self,
        history: &mut History<S>,
        selection: &Vec<LayerId>,
        doc_pos: Pos2<S>,
        origin: Pos2<S>,
    )
        requires
            old(history)@.current.wf(),
        ensures
            match with_point_removed(self@, old(history)@.layers(), selection@, doc_pos, origin) {
                Some(layers) => final(history)@ == old(history)@.after_snapshot().with_layers(
                    layers,
                ),
                None => *final(history) == *old(history),
            },
    {
        if selection.len() != 1 {
            return;
        }
        if let Some((pos, outer, mut points, closed)) = read_path(history, selection[0]) {
            if points.len() <= 2 {
                return;
            }
            let shown = PathOnScreen {
                points: &points,
                closed,
                base: pos.to_vec2(),
                outer,
                viewport: self.viewport(),
                origin,
            };
            if let Some(k) = shown.first_anchor(self.to_screen(origin, doc_pos)) {
                points.remove(k);
                history.snapshot();
                set_path(history, selection[0], points, closed, true);
            }
        }
    }

    /// Deletes the selected points; the whole path goes where fewer than two would be left.
    pub fn delete_selected_points(&mut self, history: &mut History<S>, selection: &mut Vec<LayerId>)
        requires
            old(history)@.current.wf(),
        ensures
            match points_deleted(old(self)@, old(history)@.layers(), old(selection)@) {
                Some((c, layers, left)) => {
                    &&& final(self)@ == c
                    &&& final(history)@ == old(history)@.after_snapshot().with_layers(layers)
                    &&& final(selection)@ == left
                },
                None => {
                    &&& *final(self) == *old(self)
                    &&& *final(history) == *old(history)
                    &&& *final(selection) == *old(selection)
                },
            },
    {
        let layer_id = match self.point_edit_layer {
            Some(id) => id,
            None => {
                return;
            },
        };
        if self.selected_points.len() == 0 {
            return;
        }
        if let Some((_, _, points, closed)) = read_path(history, layer_id) {
            let picked = count_distinct(&self.selected_points);
            history.snapshot();
            if points.len() < picked || points.len() - picked < 2 {
                let gone = history.page_mut().remove(layer_id);
                *selection = drop_id(selection, layer_id);
                self.point_edit_layer = None;
            } else {
                let left = points_without(&points, &self.selected_points);
                set_path(history, layer_id, left, closed, true);
            }
            self.selected_points = Vec::new();
        }
    }

    /// Gives the selected points of a path a type.
    pub fn apply_point_type(&self, history: &mut History<S>, layer_id: LayerId, t: PointType)
        requires
            old(history)@.current.wf(),
        ensures
            final(history)@ == old(history)@.after_snapshot().with_layers(
                points_retyped(old(history)@.layers(), layer_id, self@.selected_points, t),
            ),
    {
        history.snapshot();
        proof {
            crate::history::lemma_unedited(history@);
            crate::tree::lemma_replace_same(history@.layers(), layer_id);
        }
        if let Some(layer) = history.page_mut().find_mut(layer_id) {
            if let LayerKind::Path { points, closed } = &mut layer.kind {
                set_point_types(points, *closed, &self.selected_points, t);
            }
        }
    }

    /// The corner radius of the first selected point of a path, on whatever page it is.
    pub fn selected_point_corner_radius(&self, history: &History<S>, layer_id: LayerId) -> (r: Option<
        S,
    >)
        ensures
            r == first_radius(history@.current.pages, layer_id, self@.selected_points),
    {
        if self.selected_points.len() == 0 {
            return None;
        }
        let index = self.selected_points[0];
        match history.get().find(layer_id) {
            Some(layer) => match &layer.kind {
                LayerKind::Path { points, .. } => if index < points.len() {
                    Some(points[index].corner_radius)
                } else {
                    None
                },
                _ => None,
            },
            None => None,
        }
    }

    /// Gives the selected points of a path a corner radius. The caller takes the snapshot, once
    /// for a whole drag.
    pub fn apply_corner_radius(&self, history: &mut History<S>, layer_id: LayerId, radius: S)
        requires
            old(history)@.current.wf(),
        ensures
            final(history)@ == old(history)@.with_layers(
                points_rounded(
                    old(history)@.layers(),
                    layer_id,
                    self@.selected_points,
                    Some(radius),
                ),
            ),
    {
        proof {
            crate::history::lemma_unedited(history@);
            crate::tree::lemma_replace_same(history@.layers(), layer_id);
        }
        if let Some(layer) = history.page_mut().find_mut(layer_id) {
            if let LayerKind::Path { points, .. } = &mut layer.kind {
                set_radius(points, &self.selected_points, radius);
            }
        }
    }

    /// Gives each selected point of a path the largest radius that its segments allow.
    pub fn apply_max_corner_radius(&self, history: &mut History<S>, layer_id: LayerId)
        requires
            old(history)@.current.wf(),
        ensures
            final(history)@ == old(history)@.after_snapshot().with_layers(
                points_rounded(
                    old(history)@.layers(),
                    layer_id,
                    self@.selected_points,
                    None,
                ),
            ),
    {
        history.snapshot();
        proof {
            crate::history::lemma_unedited(history@);
            crate::tree::lemma_replace_same(history@.layers(), layer_id);
        }
        if let Some(layer) = history.page_mut().find_mut(layer_id) {
            if let LayerKind::Path { points, closed } = &mut layer.kind {
                round_to_max(points, *closed, &self.selected_points);
            }
        }
    }
}

/// What deleting the selected points leads to: the canvas, the layers and the selection; none
/// where no point of a path is selected.
pub open spec fn points_deleted<S: Scalar>(
    c: CanvasView<S>,
    s: Seq<LayerView<S>>,
    selection: Seq<LayerId>,
) -> Option<(CanvasView<S>, Seq<LayerView<S>>, Seq<LayerId>)> {
    match c.point_edit_layer {
        Some(id) => match path_at(s, id) {
            Some(p) => if c.selected_points.len() == 0 {
                None
            } else if p.points.len() < c.selected_points.to_set().len() + 2 {
                Some(
                    (
                        CanvasView {
                            selected_points: Seq::empty(),
                            point_edit_layer: None,
                            ..c
                        },
                        crate::document::without(s, id),
                        ids_without(selection, id),
                    ),
                )
            } else {
                Some(
                    (
                        CanvasView { selected_points: Seq::empty(), ..c },
                        reshaped(
                            s,
                            id,
                            crate::path_edit::unpicked(
                                p.points,
                                c.selected_points,
                                p.points.len(),
                            ),
                            p.closed,
                        ),
                        selection,
                    ),
                )
            },
            None => None,
        },
        None => None,
    }
}

/// The layers after some points of a path took a type.
pub open spec fn points_retyped<S: Scalar>(
    s: Seq<LayerView<S>>,
    id: LayerId,
    indices: Seq<usize>,
    t: PointType,
) -> Seq<LayerView<S>> {
    match crate::tree::find(s, id) {
        Some(v) => match v.kind {
            KindView::Path { points, closed } => crate::tree::replace(
                s,
                id,
                with_points(v, crate::path_edit::retyped(points, closed, indices, t), closed),
            ),
            _ => s,
        },
        None => s,
    }
}

/// The layers after some points of a path took a radius, or without one the largest they can have.
pub open spec fn points_rounded<S: Scalar>(
    s: Seq<LayerView<S>>,
    id: LayerId,
    indices: Seq<usize>,
    radius: Option<S>,
) -> Seq<LayerView<S>> {
    match crate::tree::find(s, id) {
        Some(v) => match v.kind {
            KindView::Path { points, closed } => crate::tree::replace(
                s,
                id,
                with_points(
                    v,
                    match radius {
                        Some(r) => crate::path_edit::with_radius(points, indices, r),
                        None => crate::path_edit::max_rounded(points, closed, indices),
                    },
                    closed,
                ),
            ),
            _ => s,
        },
        None => s,
    }
}

/// The corner radius of the first of some points of a path, on whatever page it is.
pub open spec fn first_radius<S: Scalar>(
    pages: Seq<PageView<S>>,
    id: LayerId,
    indices: Seq<usize>,
) -> Option<S> {
    match find_from(pages, id, 0) {
        Some(v) => match v.kind {
            KindView::Path { points, .. } => if indices.len() > 0 && indices[0] < points.len() {
                Some(points[indices[0] as int].corner_radius)
            } else {
                None
            },
            _ => None,
        },
        None => None,
    }
}

/// What cutting the one selected path leads to: the layers, the selection and the next unused id;
/// none where the click cuts nothing.
pub open spec fn scissored<S: Scalar>(
    c: CanvasView<S>,
    s: Seq<LayerView<S>>,
    selection: Seq<LayerId>,
    doc_pos: Pos2<S>,
    origin: Pos2<S>,
    next: LayerId,
) -> Option<(Seq<LayerView<S>>, Seq<LayerId>, int)> {
    match selected_path(s, selection) {
        Some(p) => {
            let shown = ScreenPathView {
                base: p.pos.spec_to_vec2().spec_plus(p.outer),
                outer: Vec2::spec_zero(),
                ..c.shows(origin, p)
            };
            match shown.scissored(doc_pos) {
                PathCutView::Miss => None,
                PathCutView::Opened { points } => Some(
                    (reshaped(s, selection[0], points, false), selection, next as int),
                ),
                PathCutView::Split { first, second } => Some(
                    (
                        split_in_two(s, selection[0], first, second, next),
                        seq![next, (next + 1) as u64],
                        next + 2,
                    ),
                ),
            }
        },
        None => None,
    }
}

/// The layers with two open paths in place of one.
pub open spec fn split_in_two<S: Scalar>(
    s: Seq<LayerView<S>>,
    id: LayerId,
    first: Seq<PathPoint<S>>,
    second: Seq<PathPoint<S>>,
    next: LayerId,
) -> Seq<LayerView<S>> {
    match (crate::tree::find(s, id), crate::tree::home(s, seq![id])) {
        (Some(v), Some(p)) => {
            let list = crate::tree::list_at(s, p);
            let k = crate::tree::position(list, id);
            let a = path_layer(next, v.name, v.style, v.frame.pos, v.frame.rotation, first);
            let b = path_layer(
                (next + 1) as u64,
                v.name,
                v.style,
                v.frame.pos,
                v.frame.rotation,
                second,
            );
            crate::tree::with_list_at(s, p, list.update(k, a).insert(k + 1, b))
        },
        _ => s,
    }
}

/// Puts two open paths in the place of one, and selects them.
fn replace_with_split_paths<S: Scalar>(
    history: &mut History<S>,
    selection: &mut Vec<LayerId>,
    layer_id: LayerId,
    first: Vec<PathPoint<S>>,
    second: Vec<PathPoint<S>>,
    source: &mut IdSource,
)
    requires
        old(history)@.current.wf(),
        crate::tree::find(old(history)@.layers(), layer_id) is Some,
        first.len() > 0,
        second.len() > 0,
        old(source).next < u64::MAX - 1,
    ensures
        final(history)@ == old(history)@.after_snapshot().with_layers(
            split_in_two(old(history)@.layers(), layer_id, first@, second@, old(source).next),
        ),
        final(selection)@ == seq![old(source).next, (old(source).next + 1) as u64],
        final(source).next == old(source).next + 2,
{
    history.snapshot();
    let page = history.page_mut();
    let ghost s = page@.layers;
    let wanted: Vec<LayerId> = vec![layer_id];
    assert(wanted@ =~= seq![layer_id]);
    proof {
        crate::tree::lemma_found_has_home(page.layers@, layer_id);
    }
    let (layer_a, layer_b) = match page.find(layer_id) {
        Some(layer) => {
            let id_a = source.fresh();
            let id_b = source.fresh();
            let name = layer.name.as_str();
            let pos = layer.frame.pos;
            let turn = layer.frame.rotation;
            (
                build_path_layer(id_a, name, &layer.style, pos, turn, &first),
                build_path_layer(id_b, name, &layer.style, pos, turn, &second),
            )
        },
        None => vstd::pervasive::unreached(),
    };
    *selection = vec![layer_a.id, layer_b.id];
    assert(selection@ =~= seq![old(source).next, (old(source).next + 1) as u64]);
    match find_common_parent_list(&mut page.layers, &wanted) {
        Some(parent) => {
            let ghost list = views(parent@);
            assert(crate::tree::holds(list, wanted@[0]));
            match position_of(parent, layer_id) {
                Some(k) => {
                    let ghost a = layer_a@;
                    let ghost b = layer_b@;
                    let gone = parent.remove(k);
                    parent.insert(k, layer_b);
                    parent.insert(k, layer_a);
                    assert(views(parent@) =~= list.update(k as int, a).insert(k + 1, b));
                },
                None => {
                    vstd::pervasive::unreached()
                },
            }
        },
        None => {
            vstd::pervasive::unreached()
        },
    }
}

/// The text of a shape's label.
pub open spec fn label_text<S: Scalar>() -> TextBlockView<S> {
    TextBlockView {
        content: ""@,
        align: TextAlign::Center,
        vertical_align: VerticalAlign::Middle,
        ..crate::placement::new_text(TextResize::Fixed)
    }
}

/// An empty, centred, black text over a frame.
pub open spec fn label_layer<S: Scalar>(id: LayerId, frame: Frame<S>) -> LayerView<S> {
    LayerView {
        style: crate::placement::black_fill(),
        ..Layer::<S>::spec_new(
            id,
            "Text"@,
            frame,
            KindView::Text { text: label_text() },
            Seq::empty(),
        )
    }
}

/// Whether a shape can be given a label: it exists, is no mask, and is no operand of a boolean
/// group, both of which have to stay where they are.
pub open spec fn can_be_labelled<S>(s: Seq<LayerView<S>>, id: LayerId) -> bool {
    &&& crate::tree::find(s, id) matches Some(v)
    &&& !v.is_mask
    &&& !(crate::grouping::place_of(s, id) matches Some((Some(parent), _)) && (crate::tree::find(
        s,
        parent,
    ) matches Some(q) && q.kind is BooleanGroup))
}

/// The layers after a shape and its new label became a group.
pub open spec fn labelled<S: Scalar>(s: Seq<LayerView<S>>, id: LayerId, next: LayerId) -> Seq<
    LayerView<S>,
> {
    match (crate::tree::find(s, id), crate::tree::home(s, seq![id])) {
        (Some(v), Some(p)) => {
            let list = crate::tree::list_at(s, p);
            let k = crate::tree::position(list, id);
            let t = crate::tree::with_list_at(
                s,
                p,
                list.insert(k + 1, label_layer(next, v.frame)),
            );
            match crate::grouping::grouped(t, seq![id, next], (next + 1) as u64) {
                Some(u) => u,
                None => t,
            }
        },
        _ => s,
    }
}

/// Whether finding a home for the shape and its label together succeeds.
pub open spec fn label_is_grouped<S: Scalar>(
    s: Seq<LayerView<S>>,
    id: LayerId,
    next: LayerId,
) -> bool {
    match (crate::tree::find(s, id), crate::tree::home(s, seq![id])) {
        (Some(v), Some(p)) => {
            let list = crate::tree::list_at(s, p);
            let k = crate::tree::position(list, id);
            let t = crate::tree::with_list_at(
                s,
                p,
                list.insert(k + 1, label_layer(next, v.frame)),
            );
            crate::tree::home(t, seq![id, next]) is Some
        },
        _ => false,
    }
}

impl<S: Scalar> CanvasWidget<S> {
    /// Cuts the one selected path at the clicked point or segment.
    pub fn try_scissor_path(
        &self,
        history: &mut History<S>,
        selection: &mut Vec<LayerId>,
        doc_pos: Pos2<S>,
        origin: Pos2<S>,
        source: &mut IdSource,
    )
        requires
            old(history)@.current.wf(),
            old(source).next < u64::MAX - 1,
        ensures
            match scissored(
                self@,
                old(history)@.layers(),
                old(selection)@,
                doc_pos,
                origin,
                old(source).next,
            ) {
                Some((layers, picked, next)) => {
                    &&& final(history)@ == old(history)@.after_snapshot().with_layers(layers)
                    &&& final(selection)@ == picked
                    &&& final(source).next == next
                },
                None => {
                    &&& *final(history) == *old(history)
                    &&& *final(selection) == *old(selection)
                    &&& *final(source) == *old(source)
                },
            },
    {
        if selection.len() != 1 {
            return;
        }
        let layer_id = selection[0];
        if let Some((pos, outer, points, closed)) = read_path(history, layer_id) {
            let shown = PathOnScreen {
                points: &points,
                closed,
                base: pos.to_vec2().plus(outer),
                outer: Vec2::zero(),
                viewport: self.viewport(),
                origin,
            };
            match shown.scissored(doc_pos) {
                PathCut::Miss => {},
                PathCut::Opened { points: opened } => {
                    history.snapshot();
                    set_path(history, layer_id, opened, false, true);
                },
                PathCut::Split { first, second } => {
                    replace_with_split_paths(history, selection, layer_id, first, second, source);
                },
            }
        }
    }

    /// Ends the path that is drawn with the pen and puts it on the page, unless it has but one
    /// point.
    pub fn finish_pen_path(
        &mut self,
        history: &mut History<S>,
        selection: &mut Vec<LayerId>,
        tool: &mut Tool,
        closed: bool,
        source: &mut IdSource,
    )
        requires
            old(history)@.current.wf(),
            old(source).next < u64::MAX,
        ensures
            pen_finished(
                session(*old(self), *old(history), *old(tool), *old(selection), *old(source)),
                closed,
            ) == session(
                *final(self),
                *final(history),
                *final(tool),
                *final(selection),
                *final(source),
            ),
    {
        let points = match self.pen.take() {
            Some(points) => points,
            None => {
                return;
            },
        };
        self.drag = DragState::Idle;
        if points.len() < 2 {
            return;
        }
        let b = anchor_bounds(&points, Pos2::zero());
        let kind = LayerKind::Path { points: rebase(&points, Pos2::zero(), b.min), closed };
        assert(views(kind.inside()) =~= Seq::empty());
        let frame = Frame { pos: b.min, size: b.size(), rotation: S::ratio(0, 1) };
        let id = source.fresh();
        let layer = Layer::new(id, "Path", frame, kind);
        history.snapshot();
        insert_layer(history.page_mut(), layer, b.min, None);
        *selection = vec![id];
        assert(selection@ =~= seq![id]);
        if *tool == Tool::Pen {
            *tool = Tool::Select;
        }
    }

    /// Closes the path that is drawn with the pen, where the click is on its first point.
    pub fn try_close_pen_path(
        &mut self,
        doc_pos: Pos2<S>,
        origin: Pos2<S>,
        history: &mut History<S>,
        selection: &mut Vec<LayerId>,
        tool: &mut Tool,
        source: &mut IdSource,
    ) -> (r: bool)
        requires
            old(history)@.current.wf(),
            old(source).next < u64::MAX,
        ensures
            r == on_first_pen_point(old(self)@, doc_pos, origin),
            !r ==> {
                &&& *final(self) == *old(self)
                &&& *final(history) == *old(history)
                &&& *final(selection) == *old(selection)
                &&& *final(tool) == *old(tool)
                &&& *final(source) == *old(source)
            },
            r ==> pen_finished(
                session(*old(self), *old(history), *old(tool), *old(selection), *old(source)),
                true,
            ) == session(
                *final(self),
                *final(history),
                *final(tool),
                *final(selection),
                *final(source),
            ),
    {
        match &self.pen {
            Some(points) => {
                if points.len() < 2 {
                    return false;
                }
                let first = self.to_screen(origin, points[0].anchor);
                let here = self.to_screen(origin, doc_pos);
                if S::ratio(8, 1).is_lt(first.distance(here)) {
                    return false;
                }
            },
            None => {
                return false;
            },
        }
        self.finish_pen_path(history, selection, tool, true, source);
        true
    }

    /// Gives a shape a label: an empty text over it, grouped with it and edited at once. Returns
    /// the label's id, or `None` with everything as it was where the shape can have no label.
    #[verifier::rlimit(50)]
    pub fn add_shape_label(
        &mut self,
        history: &mut History<S>,
        shape_id: LayerId,
        source: &mut IdSource,
    ) -> (r: Option<LayerId>)
        requires
            old(history)@.current.wf(),
            old(source).next < u64::MAX - 1,
        ensures
            can_be_labelled(old(history)@.layers(), shape_id) ==> {
                &&& r == Some(old(source).next)
                &&& final(self)@ == old(self)@.editing(old(source).next)
                &&& final(history)@ == old(history)@.after_snapshot().with_layers(
                    labelled(old(history)@.layers(), shape_id, old(source).next),
                )
                &&& final(source).next == old(source).next + (if label_is_grouped(
                    old(history)@.layers(),
                    shape_id,
                    old(source).next,
                ) {
                    2int
                } else {
                    1int
                })
            },
            !can_be_labelled(old(history)@.layers(), shape_id) ==> {
                &&& r is None
                &&& *final(self) == *old(self)
                &&& *final(history) == *old(history)
                &&& *final(source) == *old(source)
            },
    {
        let page = history.page();
        let frame = match page.find(shape_id) {
            Some(shape) => {
                if shape.is_mask {
                    return None;
                }
                shape.frame
            },
            None => {
                return None;
            },
        };
        if let Some((Some(parent_id), _)) = parent_and_index(&page.layers, shape_id) {
            if let Some(parent) = page.find(parent_id) {
                if let LayerKind::BooleanGroup { .. } = &parent.kind {
                    return None;
                }
            }
        }
        history.snapshot();
        let page = history.page_mut();
        let ghost s = page@.layers;
        let wanted: Vec<LayerId> = vec![shape_id];
        assert(wanted@ =~= seq![shape_id]);
        proof {
            crate::tree::lemma_found_has_home(page.layers@, shape_id);
        }
        let text_id = source.fresh();
        let mut text = TextBlock::plain("".to_owned(), S::ratio(24, 1));
        text.align = TextAlign::Center;
        text.vertical_align = VerticalAlign::Middle;
        text.resize = TextResize::Fixed;
        assert(text@ =~= label_text::<S>());
        let kind = LayerKind::Text { text };
        assert(views(kind.inside()) =~= Seq::empty());
        let mut label = Layer::new(text_id, "Text", frame, kind);
        label.style.fill = Some(Paint::Solid(Color32 { r: 0, g: 0, b: 0, a: 255 }));
        assert(label@ =~= label_layer(text_id, frame));
        match find_common_parent_list(&mut page.layers, &wanted) {
            Some(siblings) => {
                assert(crate::tree::holds(views(siblings@), wanted@[0]));
                match position_of(siblings, shape_id) {
                    Some(k) => {
                        siblings.insert(k + 1, label);
                    },
                    None => {
                        vstd::pervasive::unreached()
                    },
                }
            },
            None => {
                vstd::pervasive::unreached()
            },
        }
        let pair: Vec<LayerId> = vec![shape_id, text_id];
        assert(pair@ =~= seq![shape_id, text_id]);
        let grouped = group_layers(page, &pair, source);
        self.editing_text = Some(text_id);
        self.editing_text_just_started = true;
        Some(text_id)
    }
}

/// Whether a click is on the first point of a path drawn with the pen that can be closed.
pub open spec fn on_first_pen_point<S: Scalar>(
    c: CanvasView<S>,
    doc_pos: Pos2<S>,
    origin: Pos2<S>,
) -> bool {
    c.pen matches Some(points) && points.len() >= 2 && !S::spec_ratio(8, 1).spec_lt(
        c.to_screen(origin, points[0].anchor).spec_distance(c.to_screen(origin, doc_pos)),
    )
}

/// The session after the path that was drawn with the pen ended.
pub open spec fn pen_finished<S: Scalar>(s: Session<S>, closed: bool) -> Session<S> {
    match s.canvas.pen {
        None => s,
        Some(points) => {
            let canvas = CanvasView { pen: None, drag: DragView::Idle, ..s.canvas };
            if points.len() < 2 {
                Session { canvas, ..s }
            } else {
                let v = pen_layer(s.next as u64, points, closed);
                Session {
                    canvas,
                    history: s.history.after_snapshot().with_layers(
                        inserted_layer(s.history.layers(), v, v.frame.pos, None),
                    ),
                    tool: if s.tool == Tool::Pen {
                        Tool::Select
                    } else {
                        s.tool
                    },
                    selection: seq![s.next as u64],
                    next: s.next + 1,
                }
            }
        },
    }
}

} // verus!
