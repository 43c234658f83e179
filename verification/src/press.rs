//! What a press, a click or a key on the canvas begins.
use vstd::prelude::*;

use crate::canvas::{
    clear_mask_of, session, CanvasView, CanvasWidget, DragState, DragView, HandleSide, PathPart, Session,
};
use crate::document::{GuideOrientation, Page};
use crate::geometry::{Pos2, Rect, Vec2};
use crate::grouping::{can_copy_all, copied, duplicate_layers, has_id};
use crate::history::History;
use crate::hit_test::{hit, hit_is_within_selection, hit_test, inside_selection, move_starts, starts_of, Coverage};
use crate::hover::{
    hovered, is_single_line, is_single_path, overall_bounds, overall_box, placed_layers,
    placed_views, selected_layers, shown_gaps,
};
use crate::model::{
    group_views, IdSource, Layer, LayerId, LayerKind, LayerView, PathPoint, PointType,
};
use crate::path_edit::has_index;
use crate::placement::Tool;
use crate::point_editing::{drop_id, ids_without, on_first_pen_point, pen_finished};
use crate::scalar::Scalar;
use crate::style::copy_vec;
use crate::transform::{
    collect_resizable_leaves, collect_rotatable_leaves, resizable_leaves, resize_infos,
    rotatable_leaves, rotate_infos, Handle, ResizeInfoView, ResizeLayerInfo, RotateInfoView,
    RotateLayerInfo,
};

verus! {

broadcast use group_views;

/// The keys held during a gesture.
#[derive(Clone, Copy, Debug, PartialEq, Eq, Structural)]
pub struct Modifiers {
    pub shift: bool,
    pub alt: bool,
    pub command: bool,
}

/// Where on the screen a press happens, and what is held.
#[derive(Debug, PartialEq)]
pub struct Press<S> {
    pub mouse: Pos2<S>,
    /// Where the canvas begins.
    pub origin: Pos2<S>,
    pub canvas_rect: Rect<S>,
    pub modifiers: Modifiers,
}

impl<S: Scalar> Clone for Press<S> {
    fn clone(&self) -> (r: Self)
        ensures
            r == *self,
    {
        *self
    }
}

impl<S: Scalar> Copy for Press<S> {

}

/// The leaves of all placed layers, as a rotation records them.
pub open spec fn turning_leaves<S: Scalar>(placed: Seq<(LayerView<S>, Vec2<S>)>) -> Seq<
    RotateInfoView<S>,
>
    decreases placed.len(),
{
    if placed.len() == 0 {
        Seq::empty()
    } else {
        turning_leaves(placed.drop_last()) + rotatable_leaves(placed.last().0, placed.last().1)
    }
}

/// The leaves of all placed layers, as a resize records them.
pub open spec fn stretching_leaves<S: Scalar>(placed: Seq<(LayerView<S>, Vec2<S>)>) -> Seq<
    ResizeInfoView<S>,
>
    decreases placed.len(),
{
    if placed.len() == 0 {
        Seq::empty()
    } else {
        stretching_leaves(placed.drop_last()) + resizable_leaves(placed.last().0, placed.last().1)
    }
}

/// The box around some leaves.
pub open spec fn leaves_box<S: Scalar>(leaves: Seq<ResizeInfoView<S>>) -> Rect<S>
    decreases leaves.len(),
{
    if leaves.len() <= 1 {
        leaves.last().abs_bounds
    } else {
        leaves_box(leaves.drop_last()).spec_union(leaves.last().abs_bounds)
    }
}

/// The positions of the named layers that exist.
pub open spec fn positions_of<S>(s: Seq<LayerView<S>>, ids: Seq<LayerId>) -> Seq<Pos2<S>>
    decreases ids.len(),
{
    if ids.len() == 0 {
        Seq::empty()
    } else {
        let rest = positions_of(s, ids.drop_last());
        match crate::tree::find(s, ids.last()) {
            Some(v) => rest.push(v.frame.pos),
            None => rest,
        }
    }
}

pub open spec fn order_ids<S>(order: Seq<(LayerId, Rect<S>)>) -> Seq<LayerId> {
    Seq::new(order.len(), |i: int| order[i].0)
}

/// The points selected once the point `i` is taken hold of: a selected one keeps the selection,
/// another joins it with Shift or replaces it.
pub open spec fn points_taken(selected: Seq<usize>, i: usize, shift: bool) -> Seq<usize> {
    if selected.contains(i) {
        selected
    } else if shift {
        selected.push(i)
    } else {
        seq![i]
    }
}

pub open spec fn anchors_at<S>(points: Seq<PathPoint<S>>, indices: Seq<usize>) -> Seq<Pos2<S>> {
    Seq::new(indices.len(), |i: int| points[indices[i] as int].anchor)
}

/// The session with a drag begun, from a snapshot.
pub open spec fn grabbed<S: Scalar>(s: Session<S>, drag: DragView<S>) -> Session<S> {
    Session {
        canvas: CanvasView { drag, ..s.canvas },
        history: s.history.after_snapshot(),
        ..s
    }
}

/// The session with a drag begun.
pub open spec fn dragging<S: Scalar>(s: Session<S>, drag: DragView<S>) -> Session<S> {
    Session { canvas: CanvasView { drag, ..s.canvas }, ..s }
}

/// The session with its selection being moved, from a snapshot.
pub open spec fn moving<S: Scalar>(s: Session<S>, doc_pos: Pos2<S>) -> Session<S> {
    grabbed(
        s,
        DragView::MovingSelection {
            start_doc: doc_pos,
            starts: starts_of(s.history.layers(), s.selection),
        },
    )
}

/// A press on a point of the one selected path.
#[verifier::opaque]
pub open spec fn point_pressed<S: Scalar>(
    s: Session<S>,
    point: (usize, PathPart),
    doc_pos: Pos2<S>,
    shift: bool,
) -> Session<S> {
    let (v, outer) = placed_layers(s.history.layers(), s.selection)[0];
    match point.1 {
        PathPart::Anchor => {
            let taken = points_taken(s.canvas.selected_points, point.0, shift);
            grabbed(
                Session { canvas: CanvasView { selected_points: taken, ..s.canvas }, ..s },
                DragView::EditingPathAnchor {
                    layer_id: v.id,
                    point_indices: taken,
                    start_doc: doc_pos,
                    start_anchors: anchors_at(v.kind->Path_points, taken),
                },
            )
        },
        PathPart::HandleIn => grabbed(
            s,
            DragView::EditingPathHandle {
                layer_id: v.id,
                parent_offset: outer,
                point_index: point.0,
                side: HandleSide::In,
            },
        ),
        PathPart::HandleOut => grabbed(
            s,
            DragView::EditingPathHandle {
                layer_id: v.id,
                parent_offset: outer,
                point_index: point.0,
                side: HandleSide::Out,
            },
        ),
    }
}

/// A press on a gap of the last distribution.
#[verifier::opaque]
pub open spec fn gap_pressed<S: Scalar>(s: Session<S>, gap_index: usize, doc_pos: Pos2<S>) -> Session<
    S,
> {
    match shown_gaps(s.canvas, s.history.layers(), s.tool, s.selection) {
        Some((boxes, axis)) => {
            let order = order_ids(boxes);
            let places = positions_of(s.history.layers(), order);
            if places.len() == order.len() {
                grabbed(
                    s,
                    DragView::AdjustingDistributionGap {
                        start_doc: doc_pos,
                        axis,
                        gap_index,
                        order,
                        places,
                    },
                )
            } else {
                s
            }
        },
        None => s,
    }
}

/// A press outside of a corner of the selection.
#[verifier::opaque]
pub open spec fn corner_pressed<S: Scalar>(s: Session<S>, doc_pos: Pos2<S>) -> Session<S> {
    let placed = placed_layers(s.history.layers(), s.selection);
    let pivot = overall_box(placed).spec_center();
    let leaves = turning_leaves(placed);
    if placed.len() > 0 && leaves.len() > 0 {
        grabbed(
            s,
            DragView::Rotating {
                pivot,
                start_angle: doc_pos.spec_from(pivot).spec_angle(),
                leaves,
            },
        )
    } else {
        s
    }
}

/// A press on a grip of the selection.
#[verifier::opaque]
pub open spec fn grip_pressed<S: Scalar>(s: Session<S>, handle: Handle) -> Session<S> {
    let placed = placed_layers(s.history.layers(), s.selection);
    if is_single_line(placed) {
        grabbed(
            s,
            DragView::ResizingLine {
                id: s.selection[0],
                handle,
                parent_offset: match crate::document::offset_of(
                    s.history.layers(),
                    s.selection[0],
                    Vec2::spec_zero(),
                ) {
                    Some(outer) => outer,
                    None => Vec2::spec_zero(),
                },
            },
        )
    } else {
        let layers = stretching_leaves(placed);
        if layers.len() > 0 {
            grabbed(
                s,
                DragView::ResizingGroup {
                    handle,
                    start_overall_bounds: leaves_box(layers),
                    layers,
                    scale_style: s.canvas.scaling is Some,
                    scale_anchor: s.canvas.scale_anchor,
                },
            )
        } else {
            s
        }
    }
}

/// The selection that a press with Option copies.
pub open spec fn copied_selection(selection: Seq<LayerId>, id: LayerId) -> Seq<LayerId> {
    if selection.contains(id) {
        selection
    } else {
        seq![id]
    }
}

/// The canvas after the one selected layer was clicked again: it becomes the reference layer, or
/// stops being it.
pub open spec fn reference_toggled<S>(c: CanvasView<S>, id: LayerId) -> CanvasView<S> {
    CanvasView {
        reference_layer: if c.reference_layer == Some(id) {
            None
        } else {
            Some(id)
        },
        ..c
    }
}

/// A press on a layer: with Shift it leaves the selection or joins it, with Option the selection
/// is copied and the copies move, and else the layer is selected, unless it is already or is
/// inside what is, and the selection moves.
#[verifier::opaque]
pub open spec fn layer_pressed<S: Scalar>(
    s: Session<S>,
    id: LayerId,
    doc_pos: Pos2<S>,
    modifiers: Modifiers,
) -> Session<S> {
    if modifiers.shift {
        if s.selection.contains(id) {
            Session { selection: ids_without(s.selection, id), ..s }
        } else {
            moving(Session { selection: s.selection.push(id), ..s }, doc_pos)
        }
    } else if modifiers.alt {
        let ids = copied_selection(s.selection, id);
        let (layers, made, next) = copied(
            s.history.layers(),
            ids,
            Vec2::spec_zero(),
            false,
            s.next,
        );
        let history = s.history.after_snapshot().with_layers(layers);
        if made.len() > 0 {
            Session {
                canvas: CanvasView {
                    drag: DragView::MovingSelection {
                        start_doc: doc_pos,
                        starts: starts_of(layers, made),
                    },
                    ..s.canvas
                },
                history,
                selection: made,
                next,
                ..s
            }
        } else {
            Session { history, selection: ids, next, ..s }
        }
    } else if s.selection.len() == 1 && s.selection[0] == id {
        moving(Session { canvas: reference_toggled(s.canvas, id), ..s }, doc_pos)
    } else if inside_selection(s.history.layers(), s.selection, id) {
        moving(s, doc_pos)
    } else {
        moving(
            Session {
                canvas: CanvasView { reference_layer: None, ..s.canvas },
                selection: seq![id],
                ..s
            },
            doc_pos,
        )
    }
}

/// A press on nothing: scaling ends, and a rubber band begins.
#[verifier::opaque]
pub open spec fn ground_pressed<S: Scalar>(
    s: Session<S>,
    doc_pos: Pos2<S>,
    modifiers: Modifiers,
) -> Session<S> {
    let selection = if modifiers.shift {
        s.selection
    } else {
        Seq::empty()
    };
    Session {
        canvas: CanvasView {
            scaling: None,
            drag: DragView::Marquee {
                start_doc: doc_pos,
                additive: modifiers.shift,
                base_selection: selection,
                contained_only: modifiers.alt,
                ignore_groups: modifiers.command,
                invert: modifiers.command && modifiers.shift,
            },
            ..s.canvas
        },
        selection,
        ..s
    }
}

/// What the selection tool can take hold of.
#[derive(Clone, Copy, Debug, PartialEq, Eq, Structural)]
pub enum SelectGrab {
    /// A point of the one selected path.
    Point { index: usize, part: PathPart },
    /// A gap of the last distribution.
    Gap { index: usize },
    /// The outside of a corner of the selection.
    Corner,
    Grip { handle: Handle },
    /// A rubber band for the points of the one selected path.
    PointBand,
    /// The selection, wherever it is.
    Selection,
    Layer { id: LayerId },
    /// Nothing: a rubber band for layers.
    Ground,
}

/// What the selection tool takes hold of, first come first served: a point of the selected path,
/// a gap, the outside of a corner, a grip; then, beside the one selected path, a rubber band for
/// its points; then the selection wherever it is, with Command and Option; then a layer.
pub open spec fn select_grab<S: Scalar>(
    c: CanvasView<S>,
    layers: Seq<LayerView<S>>,
    tool: Tool,
    selection: Seq<LayerId>,
    press: Press<S>,
    under: Option<LayerId>,
) -> SelectGrab {
    let placed = placed_layers(layers, selection);
    let hover = hovered(c, layers, tool, selection, press.origin, Some(press.mouse));
    if hover.point is Some && is_single_path(placed) {
        SelectGrab::Point { index: (hover.point->0).0, part: (hover.point->0).1 }
    } else if hover.gap is Some {
        SelectGrab::Gap { index: hover.gap->0 }
    } else if hover.rotate_corner is Some {
        SelectGrab::Corner
    } else if hover.handle is Some {
        SelectGrab::Grip { handle: hover.handle->0 }
    } else if is_single_path(placed) && under != Some(placed[0].0.id) {
        SelectGrab::PointBand
    } else if press.modifiers.command && press.modifiers.alt && selection.len() > 0 {
        SelectGrab::Selection
    } else {
        match under {
            Some(id) => SelectGrab::Layer { id },
            None => SelectGrab::Ground,
        }
    }
}

/// A rubber band for the points of the one selected path begins.
#[verifier::opaque]
pub open spec fn band_pressed<S: Scalar>(s: Session<S>, doc_pos: Pos2<S>, shift: bool) -> Session<S> {
    let placed = placed_layers(s.history.layers(), s.selection);
    let kept = if shift {
        s.canvas.selected_points
    } else {
        Seq::empty()
    };
    Session {
        canvas: CanvasView {
            selected_points: kept,
            drag: DragView::MarqueePoints {
                layer_id: placed[0].0.id,
                start_doc: doc_pos,
                additive: shift,
                base_points: kept,
            },
            ..s.canvas
        },
        ..s
    }
}

/// A press with the selection tool.
#[verifier::opaque]
pub open spec fn select_pressed<S: Scalar>(
    s: Session<S>,
    press: Press<S>,
    under: Option<LayerId>,
) -> Session<S> {
    let doc_pos = s.canvas.to_doc(press.origin, press.mouse);
    let shift = press.modifiers.shift;
    match select_grab(s.canvas, s.history.layers(), s.tool, s.selection, press, under) {
        SelectGrab::Point { index, part } => point_pressed(s, (index, part), doc_pos, shift),
        SelectGrab::Gap { index } => gap_pressed(s, index, doc_pos),
        SelectGrab::Corner => corner_pressed(s, doc_pos),
        SelectGrab::Grip { handle } => grip_pressed(s, handle),
        SelectGrab::PointBand => band_pressed(s, doc_pos, shift),
        SelectGrab::Selection => moving(s, doc_pos),
        SelectGrab::Layer { id } => layer_pressed(s, id, doc_pos, press.modifiers),
        SelectGrab::Ground => ground_pressed(s, doc_pos, press.modifiers),
    }
}

/// A press with the pen: the path is closed on its first point, or else gets another.
#[verifier::opaque]
pub open spec fn pen_pressed<S: Scalar>(s: Session<S>, press: Press<S>) -> Session<S> {
    let doc_pos = s.canvas.to_doc(press.origin, press.mouse);
    if on_first_pen_point(s.canvas, doc_pos, press.origin) {
        pen_finished(s, true)
    } else {
        let points = pen_points(s.canvas).push(pen_point(doc_pos, PointType::Mirror));
        Session {
            canvas: CanvasView {
                pen: Some(points),
                drag: DragView::DrawingPenHandle { point_index: (points.len() - 1) as usize },
                ..s.canvas
            },
            ..s
        }
    }
}

/// The points drawn so far.
pub open spec fn pen_points<S>(c: CanvasView<S>) -> Seq<PathPoint<S>> {
    match c.pen {
        Some(points) => points,
        None => Seq::empty(),
    }
}

/// A new point without handles.
pub open spec fn pen_point<S: Scalar>(anchor: Pos2<S>, point_type: PointType) -> PathPoint<S> {
    PathPoint {
        anchor,
        handle_in: None,
        handle_out: None,
        point_type,
        corner_radius: S::spec_ratio(0, 1),
    }
}

/// Whether the press is on the ruler along the top, or on that along the left.
pub open spec fn on_top_ruler<S: Scalar>(c: CanvasView<S>, press: Press<S>) -> bool {
    c.show_rulers && press.mouse.y.spec_lt(press.canvas_rect.min.y)
        && press.canvas_rect.min.x.spec_le(press.mouse.x)
}

pub open spec fn on_left_ruler<S: Scalar>(c: CanvasView<S>, press: Press<S>) -> bool {
    c.show_rulers && press.mouse.x.spec_lt(press.canvas_rect.min.x)
        && press.canvas_rect.min.y.spec_le(press.mouse.y)
}

/// The guide that the selection tool takes hold of.
pub open spec fn guide_grabbed<S: Scalar>(s: Session<S>, press: Press<S>) -> Option<int> {
    let hover = hovered(
        s.canvas,
        s.history.layers(),
        s.tool,
        s.selection,
        press.origin,
        Some(press.mouse),
    );
    if s.tool == Tool::Select && press.canvas_rect.spec_contains(press.mouse) && hover.point is None
        && hover.handle is None {
        crate::canvas::guide_under(
            s.canvas,
            press.origin,
            s.history.current.page().guides,
            press.mouse,
            0,
        )
    } else {
        None
    }
}

/// What a press can take hold of.
#[derive(Clone, Copy, Debug, PartialEq, Eq, Structural)]
pub enum Grab {
    /// Pixels of the image that is edited.
    Image,
    /// A new guide, out of a ruler.
    Ruler { orientation: GuideOrientation },
    Guide { index: usize },
    View,
    Select,
    Pen,
    Nothing,
    /// A new shape.
    Shape,
}

/// What a press takes hold of: everything goes to the image while one is edited; then come the
/// rulers, a guide, and what the tool does.
pub open spec fn grab_at<S: Scalar>(s: Session<S>, press: Press<S>) -> Grab {
    let top = on_top_ruler(s.canvas, press);
    let left = on_left_ruler(s.canvas, press);
    if s.canvas.image_edit is Some {
        Grab::Image
    } else if top && !left {
        Grab::Ruler { orientation: GuideOrientation::Horizontal }
    } else if left && !top {
        Grab::Ruler { orientation: GuideOrientation::Vertical }
    } else if guide_grabbed(s, press) is Some {
        Grab::Guide { index: guide_grabbed(s, press)->0 as usize }
    } else {
        match s.tool {
            Tool::Pan => Grab::View,
            Tool::Select => Grab::Select,
            Tool::Pen => Grab::Pen,
            Tool::Scissors => Grab::Nothing,
            _ => Grab::Shape,
        }
    }
}

/// The mask that a drag in the image that is edited starts from: what is selected with Shift or
/// Option, and else nothing.
pub open spec fn starting_mask<S>(c: CanvasView<S>, modifiers: Modifiers) -> Seq<bool> {
    let mask = c.image_edit->0.mask;
    if !modifiers.alt && !modifiers.shift {
        Seq::new(mask.len(), |i: int| false)
    } else {
        mask
    }
}

/// The session after a press that becomes a drag.
pub open spec fn pressed<S: Scalar>(
    s: Session<S>,
    press: Press<S>,
    under: Option<LayerId>,
) -> Session<S> {
    let doc_pos = s.canvas.to_doc(press.origin, press.mouse);
    match grab_at(s, press) {
        Grab::Image => dragging(
            s,
            DragView::ImageEditDrag {
                start_doc: doc_pos,
                subtract: press.modifiers.alt,
                base_mask: starting_mask(s.canvas, press.modifiers),
            },
        ),
        Grab::Ruler { orientation } => dragging(s, DragView::CreatingGuide { orientation }),
        Grab::Guide { index } => dragging(
            s,
            DragView::MovingGuide {
                index,
                orientation: s.history.current.page().guides[index as int].orientation,
            },
        ),
        Grab::View => dragging(
            s,
            DragView::PanningView { start_mouse: press.mouse, start_pan: s.canvas.pan },
        ),
        Grab::Select => select_pressed(s, press, under),
        Grab::Pen => pen_pressed(s, press),
        Grab::Nothing => s,
        Grab::Shape => grabbed(s, DragView::CreatingShape { start_doc: doc_pos }),
    }
}

/// The layer under a press, with what the outside knows about coverage.
pub open spec fn under_press<S: Scalar>(
    s: Session<S>,
    press: Press<S>,
    solid: Seq<LayerId>,
    revealing: Seq<LayerId>,
) -> Option<LayerId> {
    hit(
        s.history.layers(),
        s.history.layers().len(),
        s.canvas.to_doc(press.origin, press.mouse),
        solid,
        revealing,
    )
}

/// Whether the selected points are points of the one selected path.
pub open spec fn points_exist<S: Scalar>(s: Session<S>) -> bool {
    let placed = placed_layers(s.history.layers(), s.selection);
    is_single_path(placed) ==> forall|i: int|
        0 <= i < s.canvas.selected_points.len() ==> #[trigger] s.canvas.selected_points[i]
            < placed[0].0.kind->Path_points.len()
}

/// Records the leaves of all placed layers for a rotation.
fn record_turning<S: Scalar>(placed: &Vec<(&Layer<S>, Vec2<S>)>) -> (r: Vec<RotateLayerInfo<S>>)
    ensures
        rotate_infos(r@) == turning_leaves(placed_views(placed@)),
{
    let ghost all = placed_views(placed@);
    let mut r: Vec<RotateLayerInfo<S>> = Vec::new();
    let mut i: usize = 0;
    assert(all.take(0) =~= Seq::empty());
    assert(rotate_infos(r@) =~= Seq::empty());
    while i < placed.len()
        invariant
            i <= placed.len(),
            all == placed_views(placed@),
            rotate_infos(r@) == turning_leaves(all.take(i as int)),
        decreases placed.len() - i,
    {
        assert(all.take(i + 1).drop_last() =~= all.take(i as int));
        assert(all.take(i + 1).last() == all[i as int]);
        collect_rotatable_leaves(placed[i].0, placed[i].1, &mut r);
        i += 1;
    }
    assert(all.take(i as int) =~= all);
    r
}

/// Records the leaves of all placed layers for a resize.
fn record_stretching<S: Scalar>(placed: &Vec<(&Layer<S>, Vec2<S>)>) -> (r: Vec<ResizeLayerInfo<S>>)
    ensures
        resize_infos(r@) == stretching_leaves(placed_views(placed@)),
{
    let ghost all = placed_views(placed@);
    let mut r: Vec<ResizeLayerInfo<S>> = Vec::new();
    let mut i: usize = 0;
    assert(all.take(0) =~= Seq::empty());
    assert(resize_infos(r@) =~= Seq::empty());
    while i < placed.len()
        invariant
            i <= placed.len(),
            all == placed_views(placed@),
            resize_infos(r@) == stretching_leaves(all.take(i as int)),
        decreases placed.len() - i,
    {
        assert(all.take(i + 1).drop_last() =~= all.take(i as int));
        assert(all.take(i + 1).last() == all[i as int]);
        collect_resizable_leaves(placed[i].0, placed[i].1, &mut r);
        i += 1;
    }
    assert(all.take(i as int) =~= all);
    r
}

/// The box around some recorded leaves.
fn box_of_leaves<S: Scalar>(leaves: &Vec<ResizeLayerInfo<S>>) -> (r: Rect<S>)
    requires
        leaves.len() > 0,
    ensures
        r == leaves_box(resize_infos(leaves@)),
{
    let ghost all = resize_infos(leaves@);
    let mut b = leaves[0].abs_bounds;
    let mut i: usize = 1;
    assert(all.take(1).last() == all[0]);
    while i < leaves.len()
        invariant
            1 <= i <= leaves.len(),
            all == resize_infos(leaves@),
            b == leaves_box(all.take(i as int)),
        decreases leaves.len() - i,
    {
        assert(all.take(i + 1).drop_last() =~= all.take(i as int));
        assert(all.take(i + 1).last() == all[i as int]);
        b = b.union(leaves[i].abs_bounds);
        i += 1;
    }
    assert(all.take(i as int) =~= all);
    b
}

/// The positions of the named layers that exist.
fn find_positions<S: Scalar>(page: &Page<S>, ids: &Vec<LayerId>) -> (r: Vec<Pos2<S>>)
    ensures
        r@ == positions_of(page@.layers, ids@),
{
    let mut r: Vec<Pos2<S>> = Vec::new();
    let mut k: usize = 0;
    assert(ids@.take(0) =~= Seq::empty());
    while k < ids.len()
        invariant
            k <= ids.len(),
            r@ == positions_of(page@.layers, ids@.take(k as int)),
        decreases ids.len() - k,
    {
        assert(ids@.take(k + 1).drop_last() =~= ids@.take(k as int));
        if let Some(layer) = page.find(ids[k]) {
            r.push(layer.frame.pos);
        }
        k += 1;
    }
    assert(ids@.take(k as int) =~= ids@);
    r
}

/// The points selected once the point `i` is taken hold of.
fn take_point(selected: &Vec<usize>, i: usize, shift: bool) -> (r: Vec<usize>)
    ensures
        r@ == points_taken(selected@, i, shift),
{
    if has_index(selected, i) {
        copy_vec(selected)
    } else if shift {
        let mut r = copy_vec(selected);
        r.push(i);
        r
    } else {
        let r: Vec<usize> = vec![i];
        assert(r@ =~= seq![i]);
        r
    }
}

impl<S: Scalar> CanvasWidget<S> {
    /// Starts to move the selection.
    fn start_moving(
        &mut self,
        history: &mut History<S>,
        tool: &Tool,
        selection: &Vec<LayerId>,
        source: &IdSource,
        doc_pos: Pos2<S>,
    )
        requires
            old(history)@.current.wf(),
        ensures
            session(*final(self), *final(history), *tool, *selection, *source) == moving(
                session(*old(self), *old(history), *tool, *selection, *source),
                doc_pos,
            ),
    {
        let starts = move_starts(history.page(), selection);
        self.drag = DragState::MovingSelection { start_doc: doc_pos, starts };
        history.snapshot();
    }

    fn press_point(
        &mut self,
        history: &mut History<S>,
        tool: &Tool,
        selection: &Vec<LayerId>,
        source: &IdSource,
        point: (usize, PathPart),
        doc_pos: Pos2<S>,
        shift: bool,
    )
        requires
            old(history)@.current.wf(),
            is_single_path(placed_layers(old(history)@.layers(), selection@)),
            points_exist(session(*old(self), *old(history), *tool, *selection, *source)),
            point.0 < placed_layers(
                old(history)@.layers(),
                selection@,
            )[0].0.kind->Path_points.len(),
        ensures
            session(*final(self), *final(history), *tool, *selection, *source) == point_pressed(
                session(*old(self), *old(history), *tool, *selection, *source),
                point,
                doc_pos,
                shift,
            ),
    {
        proof {
            reveal(point_pressed);
        }
        let placed = selected_layers(history.page(), selection);
        let ghost all = placed_views(placed@);
        let layer = placed[0].0;
        assert(all[0] == (layer@, placed@[0].1));
        let layer_id = layer.id;
        let parent_offset = placed[0].1;
        match point.1 {
            PathPart::Anchor => {
                let taken = take_point(&self.selected_points, point.0, shift);
                let mut start_anchors: Vec<Pos2<S>> = Vec::new();
                if let LayerKind::Path { points, .. } = &layer.kind {
                    let mut i: usize = 0;
                    assert forall|j: int| 0 <= j < taken@.len() implies #[trigger] taken@[j]
                        < points@.len() by {
                        if taken@ == self.selected_points@ {
                            assert(self@.selected_points[j] < points@.len());
                        } else if taken@ == self.selected_points@.push(point.0) {
                            if j < self.selected_points@.len() {
                                assert(self@.selected_points[j] < points@.len());
                            }
                        }
                    }
                    while i < taken.len()
                        invariant
                            i <= taken.len(),
                            start_anchors.len() == i,
                            forall|j: int|
                                0 <= j < taken@.len() ==> #[trigger] taken@[j] < points@.len(),
                            forall|j: int|
                                0 <= j < i ==> #[trigger] start_anchors@[j]
                                    == points@[taken@[j] as int].anchor,
                        decreases taken.len() - i,
                    {
                        start_anchors.push(points[taken[i]].anchor);
                        i += 1;
                    }
                }
                assert(start_anchors@ =~= anchors_at(layer@.kind->Path_points, taken@));
                self.selected_points = copy_vec(&taken);
                self.drag = DragState::EditingPathAnchor {
                    layer_id,
                    point_indices: taken,
                    start_doc: doc_pos,
                    start_anchors,
                };
            },
            PathPart::HandleIn => {
                self.drag = DragState::EditingPathHandle {
                    layer_id,
                    parent_offset,
                    point_index: point.0,
                    side: HandleSide::In,
                };
            },
            PathPart::HandleOut => {
                self.drag = DragState::EditingPathHandle {
                    layer_id,
                    parent_offset,
                    point_index: point.0,
                    side: HandleSide::Out,
                };
            },
        }
        history.snapshot();
    }

    fn press_gap(
        &mut self,
        history: &mut History<S>,
        tool: &Tool,
        selection: &Vec<LayerId>,
        source: &IdSource,
        gap_index: usize,
        doc_pos: Pos2<S>,
    )
        requires
            old(history)@.current.wf(),
        ensures
            session(*final(self), *final(history), *tool, *selection, *source) == gap_pressed(
                session(*old(self), *old(history), *tool, *selection, *source),
                gap_index,
                doc_pos,
            ),
    {
        proof {
            reveal(gap_pressed);
        }
        let (boxes, axis) = match self.gap_order(history.page(), *tool, selection) {
            Some(shown) => shown,
            None => {
                return;
            },
        };
        let mut order: Vec<LayerId> = Vec::new();
        let mut i: usize = 0;
        while i < boxes.len()
            invariant
                i <= boxes.len(),
                order.len() == i,
                forall|j: int| 0 <= j < i ==> #[trigger] order@[j] == boxes@[j].0,
            decreases boxes.len() - i,
        {
            order.push(boxes[i].0);
            i += 1;
        }
        assert(order@ =~= order_ids(boxes@));
        let places = find_positions(history.page(), &order);
        if places.len() == order.len() {
            self.drag = DragState::AdjustingDistributionGap {
                start_doc: doc_pos,
                axis,
                gap_index,
                order,
                places,
            };
            history.snapshot();
        }
    }

    fn press_corner(
        &mut self,
        history: &mut History<S>,
        tool: &Tool,
        selection: &Vec<LayerId>,
        source: &IdSource,
        doc_pos: Pos2<S>,
    )
        requires
            old(history)@.current.wf(),
        ensures
            session(*final(self), *final(history), *tool, *selection, *source) == corner_pressed(
                session(*old(self), *old(history), *tool, *selection, *source),
                doc_pos,
            ),
    {
        proof {
            reveal(corner_pressed);
        }
        let placed = selected_layers(history.page(), selection);
        assert(placed_views(placed@).len() == placed@.len());
        if placed.len() == 0 {
            return;
        }
        let pivot = overall_bounds(&placed).center();
        let leaves = record_turning(&placed);
        assert(rotate_infos(leaves@).len() == leaves@.len());
        if leaves.len() > 0 {
            let start_angle = doc_pos.from(pivot).angle();
            self.drag = DragState::Rotating { pivot, start_angle, leaves };
            history.snapshot();
        }
    }

    #[verifier::rlimit(50)]
    fn press_grip(
        &mut self,
        history: &mut History<S>,
        tool: &Tool,
        selection: &Vec<LayerId>,
        source: &IdSource,
        handle: Handle,
    )
        requires
            old(history)@.current.wf(),
            selection.len() > 0,
        ensures
            session(*final(self), *final(history), *tool, *selection, *source) == grip_pressed(
                session(*old(self), *old(history), *tool, *selection, *source),
                handle,
            ),
    {
        proof {
            reveal(grip_pressed);
        }
        let page = history.page();
        let placed = selected_layers(page, selection);
        let ghost all = placed_views(placed@);
        let mut line = false;
        if placed.len() == 1 {
            assert(all[0].0 == placed@[0].0@);
            line = match &placed[0].0.kind {
                LayerKind::Line | LayerKind::Arrow { .. } => true,
                _ => false,
            };
        }
        if line {
            let id = selection[0];
            let parent_offset = match page.absolute_offset(id) {
                Some(outer) => outer,
                None => Vec2::zero(),
            };
            self.drag = DragState::ResizingLine { id, handle, parent_offset };
            history.snapshot();
        } else {
            let layers = record_stretching(&placed);
            assert(resize_infos(layers@).len() == layers@.len());
            if layers.len() > 0 {
                self.drag = DragState::ResizingGroup {
                    handle,
                    start_overall_bounds: box_of_leaves(&layers),
                    layers,
                    scale_style: self.scaling.is_some(),
                    scale_anchor: self.scale_anchor,
                };
                history.snapshot();
            }
        }
    }

    fn press_layer(
        &mut self,
        history: &mut History<S>,
        tool: &Tool,
        selection: &mut Vec<LayerId>,
        source: &mut IdSource,
        id: LayerId,
        doc_pos: Pos2<S>,
        modifiers: Modifiers,
    )
        requires
            old(history)@.current.wf(),
            modifiers.alt && !modifiers.shift ==> can_copy_all(
                old(history)@.layers(),
                copied_selection(old(selection)@, id),
                Vec2::spec_zero(),
                false,
                old(source).next as int,
            ),
        ensures
            session(*final(self), *final(history), *tool, *final(selection), *final(source))
                == layer_pressed(
                session(*old(self), *old(history), *tool, *old(selection), *old(source)),
                id,
                doc_pos,
                modifiers,
            ),
    {
        proof {
            reveal(layer_pressed);
        }
        if modifiers.shift {
            if has_id(selection, id) {
                *selection = drop_id(selection, id);
            } else {
                selection.push(id);
                self.start_moving(history, tool, selection, source, doc_pos);
            }
        } else if modifiers.alt {
            if !has_id(selection, id) {
                *selection = vec![id];
                assert(selection@ =~= seq![id]);
            }
            assert(selection@ == copied_selection(old(selection)@, id));
            history.snapshot();
            let made = duplicate_layers(history.page_mut(), selection, Vec2::zero(), source);
            if made.len() > 0 {
                *selection = made;
                let starts = move_starts(history.page(), selection);
                self.drag = DragState::MovingSelection { start_doc: doc_pos, starts };
            }
        } else {
            if selection.len() == 1 && selection[0] == id {
                self.toggle_reference(id);
            } else if !hit_is_within_selection(history.page(), selection, id) {
                *selection = vec![id];
                assert(selection@ =~= seq![id]);
                self.reference_layer = None;
            }
            self.start_moving(history, tool, selection, source, doc_pos);
        }
    }

    /// Makes a layer the reference layer, or takes that from it.
    pub fn toggle_reference(&mut self, id: LayerId)
        ensures
            final(self)@ == reference_toggled(old(self)@, id),
    {
        let was = match self.reference_layer {
            Some(r) => r == id,
            None => false,
        };
        self.reference_layer = if was {
            None
        } else {
            Some(id)
        };
    }

    /// What the selection tool takes hold of.
    pub fn select_grab(
        &self,
        page: &Page<S>,
        tool: Tool,
        selection: &Vec<LayerId>,
        press: Press<S>,
        under: Option<LayerId>,
    ) -> (r: SelectGrab)
        ensures
            r == select_grab(self@, page@.layers, tool, selection@, press, under),
            r matches SelectGrab::Point { index, .. } ==> is_single_path(
                placed_layers(page@.layers, selection@),
            ) && index < placed_layers(page@.layers, selection@)[0].0.kind->Path_points.len(),
            r is Grip ==> selection@.len() > 0,
            r is PointBand ==> is_single_path(placed_layers(page@.layers, selection@)),
    {
        let hover = self.hover(page, tool, selection, press.origin, Some(press.mouse));
        let path_id = single_path(page, selection);
        if let Some((index, part)) = hover.point {
            if path_id.is_some() {
                return SelectGrab::Point { index, part };
            }
        }
        if let Some(index) = hover.gap {
            return SelectGrab::Gap { index };
        }
        if hover.rotate_corner.is_some() {
            return SelectGrab::Corner;
        }
        if let Some(handle) = hover.handle {
            proof {
                lemma_placed_needs_ids(page@.layers, selection@);
            }
            return SelectGrab::Grip { handle };
        }
        if let Some(layer_id) = path_id {
            let on_path = match under {
                Some(id) => id == layer_id,
                None => false,
            };
            if !on_path {
                return SelectGrab::PointBand;
            }
        }
        if press.modifiers.command && press.modifiers.alt && selection.len() > 0 {
            return SelectGrab::Selection;
        }
        match under {
            Some(id) => SelectGrab::Layer { id },
            None => SelectGrab::Ground,
        }
    }

    fn press_band(
        &mut self,
        history: &History<S>,
        tool: &Tool,
        selection: &Vec<LayerId>,
        source: &IdSource,
        doc_pos: Pos2<S>,
        shift: bool,
    )
        requires
            history@.current.wf(),
            is_single_path(placed_layers(history@.layers(), selection@)),
        ensures
            session(*final(self), *history, *tool, *selection, *source) == band_pressed(
                session(*old(self), *history, *tool, *selection, *source),
                doc_pos,
                shift,
            ),
    {
        proof {
            reveal(band_pressed);
        }
        let layer_id = match single_path(history.page(), selection) {
            Some(id) => id,
            None => vstd::pervasive::unreached(),
        };
        if !shift {
            self.selected_points = Vec::new();
        }
        self.drag = DragState::MarqueePoints {
            layer_id,
            start_doc: doc_pos,
            additive: shift,
            base_points: copy_vec(&self.selected_points),
        };
    }

    fn press_ground(
        &mut self,
        history: &History<S>,
        tool: &Tool,
        selection: &mut Vec<LayerId>,
        source: &IdSource,
        doc_pos: Pos2<S>,
        modifiers: Modifiers,
    )
        ensures
            session(*final(self), *history, *tool, *final(selection), *source) == ground_pressed(
                session(*old(self), *history, *tool, *old(selection), *source),
                doc_pos,
                modifiers,
            ),
    {
        proof {
            reveal(ground_pressed);
        }
        self.scaling = None;
        if !modifiers.shift {
            *selection = Vec::new();
        }
        self.drag = DragState::Marquee {
            start_doc: doc_pos,
            additive: modifiers.shift,
            base_selection: copy_vec(selection),
            contained_only: modifiers.alt,
            ignore_groups: modifiers.command,
            invert: modifiers.command && modifiers.shift,
        };
    }

    fn press_select(
        &mut self,
        press: Press<S>,
        history: &mut History<S>,
        tool: &Tool,
        selection: &mut Vec<LayerId>,
        source: &mut IdSource,
        under: Option<LayerId>,
    )
        requires
            old(history)@.current.wf(),
            points_exist(session(*old(self), *old(history), *tool, *old(selection), *old(source))),
            press.modifiers.alt && !press.modifiers.shift && under is Some ==> can_copy_all(
                old(history)@.layers(),
                copied_selection(old(selection)@, under->0),
                Vec2::spec_zero(),
                false,
                old(source).next as int,
            ),
        ensures
            session(*final(self), *final(history), *tool, *final(selection), *final(source))
                == select_pressed(
                session(*old(self), *old(history), *tool, *old(selection), *old(source)),
                press,
                under,
            ),
    {
        proof {
            reveal(select_pressed);
        }
        let doc_pos = self.to_doc(press.origin, press.mouse);
        let shift = press.modifiers.shift;
        match self.select_grab(history.page(), *tool, selection, press, under) {
            SelectGrab::Point { index, part } => {
                let point = (index, part);
                self.press_point(history, tool, selection, source, point, doc_pos, shift)
            },
            SelectGrab::Gap { index } => {
                self.press_gap(history, tool, selection, source, index, doc_pos)
            },
            SelectGrab::Corner => { self.press_corner(history, tool, selection, source, doc_pos) },
            SelectGrab::Grip { handle } => {
                self.press_grip(history, tool, selection, source, handle)
            },
            SelectGrab::PointBand => {
                self.press_band(history, tool, selection, source, doc_pos, shift)
            },
            SelectGrab::Selection => {
                self.start_moving(history, tool, selection, source, doc_pos)
            },
            SelectGrab::Layer { id } => {
                self.press_layer(history, tool, selection, source, id, doc_pos, press.modifiers)
            },
            SelectGrab::Ground => {
                self.press_ground(history, tool, selection, source, doc_pos, press.modifiers)
            },
        }
    }

    fn press_pen(
        &mut self,
        press: Press<S>,
        history: &mut History<S>,
        tool: &mut Tool,
        selection: &mut Vec<LayerId>,
        source: &mut IdSource,
    )
        requires
            old(history)@.current.wf(),
            old(source).next < u64::MAX,
        ensures
            session(
                *final(self),
                *final(history),
                *final(tool),
                *final(selection),
                *final(source),
            ) == pen_pressed(
                session(*old(self), *old(history), *old(tool), *old(selection), *old(source)),
                press,
            ),
    {
        proof {
            reveal(pen_pressed);
        }
        let doc_pos = self.to_doc(press.origin, press.mouse);
        if self.try_close_pen_path(doc_pos, press.origin, history, selection, tool, source) {
            return;
        }
        self.push_pen_point(doc_pos, PointType::Mirror);
        let n: usize = match &self.pen {
            Some(points) => points.len(),
            None => vstd::pervasive::unreached(),
        };
        self.drag = DragState::DrawingPenHandle { point_index: n - 1 };
    }

    /// What a press takes hold of.
    fn grab_at(
        &self,
        press: Press<S>,
        history: &History<S>,
        tool: Tool,
        selection: &Vec<LayerId>,
        Ghost(source): Ghost<IdSource>,
    ) -> (r: Grab)
        requires
            history@.current.wf(),
        ensures
            r == grab_at(session(*self, *history, tool, *selection, source), press),
            r is Image ==> self@.image_edit is Some,
            r matches Grab::Guide { index } ==> index < history@.current.page().guides.len(),
    {
        if self.image_edit.is_some() {
            return Grab::Image;
        }
        let rect = press.canvas_rect;
        let top = self.show_rulers && press.mouse.y.is_lt(rect.min.y) && rect.min.x.is_le(
            press.mouse.x,
        );
        let left = self.show_rulers && press.mouse.x.is_lt(rect.min.x) && rect.min.y.is_le(
            press.mouse.y,
        );
        if top && !left {
            return Grab::Ruler { orientation: GuideOrientation::Horizontal };
        }
        if left && !top {
            return Grab::Ruler { orientation: GuideOrientation::Vertical };
        }
        if tool == Tool::Select && rect.contains(press.mouse) {
            let page = history.page();
            let hover = self.hover(page, tool, selection, press.origin, Some(press.mouse));
            if hover.point.is_none() && hover.handle.is_none() {
                let n = page.guides.len();
                if let Some(k) = self.hovered_guide_index(press.origin, &page.guides, press.mouse) {
                    assert(k < n);
                    return Grab::Guide { index: k };
                }
            }
        }
        match tool {
            Tool::Pan => Grab::View,
            Tool::Select => Grab::Select,
            Tool::Pen => Grab::Pen,
            Tool::Scissors => Grab::Nothing,
            _ => Grab::Shape,
        }
    }

    /// Takes hold of what is under a press that becomes a drag.
    pub fn drag_started(
        &mut self,
        press: Press<S>,
        history: &mut History<S>,
        tool: &mut Tool,
        selection: &mut Vec<LayerId>,
        coverage: &Coverage,
        source: &mut IdSource,
    )
        requires
            old(history)@.current.wf(),
            old(source).next < u64::MAX,
            points_exist(
                session(*old(self), *old(history), *old(tool), *old(selection), *old(source)),
            ),
            press.modifiers.alt && !press.modifiers.shift ==> (under_press(
                session(*old(self), *old(history), *old(tool), *old(selection), *old(source)),
                press,
                coverage.solid@,
                coverage.revealing@,
            ) matches Some(id) ==> can_copy_all(
                old(history)@.layers(),
                copied_selection(old(selection)@, id),
                Vec2::spec_zero(),
                false,
                old(source).next as int,
            )),
        ensures
            ({
                let before = session(
                    *old(self),
                    *old(history),
                    *old(tool),
                    *old(selection),
                    *old(source),
                );
                session(
                    *final(self),
                    *final(history),
                    *final(tool),
                    *final(selection),
                    *final(source),
                ) == pressed(
                    before,
                    press,
                    under_press(before, press, coverage.solid@, coverage.revealing@),
                )
            }),
    {
        let doc_pos = self.to_doc(press.origin, press.mouse);
        let ghost ids = *source;
        match self.grab_at(press, history, *tool, selection, Ghost(ids)) {
            Grab::Image => {
                let base_mask = match &self.image_edit {
                    Some(edit) => if !press.modifiers.alt && !press.modifiers.shift {
                        clear_mask_of(edit.mask.len())
                    } else {
                        copy_vec(&edit.mask)
                    },
                    None => vstd::pervasive::unreached(),
                };
                self.drag = DragState::ImageEditDrag {
                    start_doc: doc_pos,
                    subtract: press.modifiers.alt,
                    base_mask,
                };
            },
            Grab::Ruler { orientation } => {
                self.drag = DragState::CreatingGuide { orientation };
            },
            Grab::Guide { index } => {
                let orientation = history.page().guides[index].orientation;
                self.drag = DragState::MovingGuide { index, orientation };
            },
            Grab::View => {
                self.drag = DragState::PanningView {
                    start_mouse: press.mouse,
                    start_pan: self.pan,
                };
            },
            Grab::Select => {
                let under = hit_test(history.page(), doc_pos, coverage);
                let held = *tool;
                self.press_select(press, history, &held, selection, source, under);
            },
            Grab::Pen => {
                self.press_pen(press, history, tool, selection, source);
            },
            Grab::Nothing => {},
            Grab::Shape => {
                self.drag = DragState::CreatingShape { start_doc: doc_pos };
                history.snapshot();
            },
        }
    }

    /// Puts another point to the path that is drawn with the pen.
    pub fn push_pen_point(&mut self, anchor: Pos2<S>, point_type: PointType)
        ensures
            final(self)@ == (CanvasView {
                pen: Some(pen_points(old(self)@).push(pen_point(anchor, point_type))),
                ..old(self)@
            }),
    {
        let mut points = match self.pen.take() {
            Some(points) => points,
            None => Vec::new(),
        };
        points.push(
            PathPoint {
                anchor,
                handle_in: None,
                handle_out: None,
                point_type,
                corner_radius: S::ratio(0, 1),
            },
        );
        self.pen = Some(points);
    }
}

/// The one selected path.
pub fn single_path<S: Scalar>(page: &Page<S>, selection: &Vec<LayerId>) -> (r: Option<LayerId>)
    ensures
        ({
            let placed = placed_layers(page@.layers, selection@);
            r == (if is_single_path(placed) {
                Some(placed[0].0.id)
            } else {
                None
            })
        }),
{
    let placed = selected_layers(page, selection);
    let ghost all = placed_views(placed@);
    if placed.len() == 1 {
        assert(all[0].0 == placed@[0].0@);
        match &placed[0].0.kind {
            LayerKind::Path { .. } => Some(placed[0].0.id),
            _ => None,
        }
    } else {
        None
    }
}

/// Layers are placed only for ids.
proof fn lemma_placed_needs_ids<S: Scalar>(s: Seq<LayerView<S>>, ids: Seq<LayerId>)
    ensures
        placed_layers(s, ids).len() <= ids.len(),
    decreases ids.len(),
{
    if ids.len() > 0 {
        lemma_placed_needs_ids(s, ids.drop_last());
    }
}

} // verus!
