//! What a drag does while the pointer moves.
use vstd::prelude::*;

use crate::alignment::DistributeAxis;
use crate::canvas::{CanvasView, CanvasWidget, DragState, DragView, HandleSide};
use crate::document::{GuideOrientation, Page, PageView};
use crate::geometry::{Pos2, Rect, Vec2};
use crate::history::History;
use crate::marks::{
    draw_guide_line, draw_snap_lines, guide_mark, snap_lines, Ink, Mark, Screen,
};
use crate::model::{
    group_views, Frame, KindView, LayerId, LayerKind, LayerView, PathPoint, PointType,
};
use crate::placement::Tool;
use crate::press::Press;
use crate::scalar::Scalar;
use crate::shapes::ellipse_points;
use crate::snapping::{
    build_snap_candidates, snap_bounds_delta, snap_guide_axis, snap_point, snap_xs, snap_ys,
    snapped_guide, snapped_move, snapped_point,
};
use crate::transform::{
    apply_resize_delta, apply_rotation_delta, resize_infos, stretched, turned, Handle,
    Rescale, ResizeInfoView, ResizeLayerInfo, ScaleAnchor,
};

verus! {

broadcast use group_views;

pub open spec fn start_ids<S>(starts: Seq<(LayerId, Pos2<S>)>) -> Seq<LayerId> {
    Seq::new(starts.len(), |i: int| starts[i].0)
}

/// The layers that a drag moves, which it does not snap to.
pub open spec fn excluded<S>(drag: DragView<S>) -> Seq<LayerId> {
    match drag {
        DragView::MovingSelection { starts, .. } => start_ids(starts),
        DragView::ResizingLine { id, .. } => seq![id],
        DragView::ResizingGroup { layers, .. } => Seq::new(layers.len(), |i: int| layers[i].id),
        DragView::Rotating { leaves, .. } => Seq::new(leaves.len(), |i: int| leaves[i].id),
        _ => Seq::empty(),
    }
}

/// The layers that a drag moves, which it does not snap to.
pub fn drag_exclude_ids<S: Scalar>(drag: &DragState<S>) -> (r: Vec<LayerId>)
    ensures
        r@ == excluded(drag@),
{
    let mut r: Vec<LayerId> = Vec::new();
    match drag {
        DragState::MovingSelection { starts, .. } => {
            let mut i: usize = 0;
            while i < starts.len()
                invariant
                    i <= starts.len(),
                    r.len() == i,
                    forall|j: int| 0 <= j < i ==> #[trigger] r@[j] == starts@[j].0,
                decreases starts.len() - i,
            {
                r.push(starts[i].0);
                i += 1;
            }
        },
        DragState::ResizingLine { id, .. } => {
            r.push(*id);
        },
        DragState::ResizingGroup { layers, .. } => {
            let mut i: usize = 0;
            while i < layers.len()
                invariant
                    i <= layers.len(),
                    r.len() == i,
                    forall|j: int| 0 <= j < i ==> #[trigger] r@[j] == layers@[j].id,
                decreases layers.len() - i,
            {
                r.push(layers[i].id);
                i += 1;
            }
        },
        DragState::Rotating { leaves, .. } => {
            let mut i: usize = 0;
            while i < leaves.len()
                invariant
                    i <= leaves.len(),
                    r.len() == i,
                    forall|j: int| 0 <= j < i ==> #[trigger] r@[j] == leaves@[j].id,
                decreases leaves.len() - i,
            {
                r.push(leaves[i].id);
                i += 1;
            }
        },
        _ => {},
    }
    assert(r@ =~= excluded(drag@));
    r
}

/// A layer moved to `pos`.
pub open spec fn at_pos<S>(v: LayerView<S>, pos: Pos2<S>) -> LayerView<S> {
    LayerView { frame: Frame { pos, ..v.frame }, ..v }
}

/// The layers after some of them were moved, one by one.
pub open spec fn repositioned<S>(
    s: Seq<LayerView<S>>,
    targets: Seq<(LayerId, Pos2<S>)>,
) -> Seq<LayerView<S>>
    decreases targets.len(),
{
    if targets.len() == 0 {
        s
    } else {
        let t = repositioned(s, targets.drop_last());
        match crate::tree::find(t, targets.last().0) {
            Some(v) => crate::tree::replace(t, targets.last().0, at_pos(v, targets.last().1)),
            None => t,
        }
    }
}

/// Moves layers to given positions.
pub fn reposition<S: Scalar>(page: &mut Page<S>, targets: &Vec<(LayerId, Pos2<S>)>)
    ensures
        final(page)@ == old(page)@.with_layers(repositioned(old(page)@.layers, targets@)),
{
    let ghost s = page@.layers;
    let mut i: usize = 0;
    assert(targets@.take(0) =~= Seq::empty());
    while i < targets.len()
        invariant
            i <= targets.len(),
            page@ == old(page)@.with_layers(repositioned(s, targets@.take(i as int))),
        decreases targets.len() - i,
    {
        assert(targets@.take(i + 1).drop_last() =~= targets@.take(i as int));
        assert(targets@.take(i + 1).last() == targets@[i as int]);
        let (id, pos) = targets[i];
        if let Some(layer) = page.find_mut(id) {
            layer.frame.pos = pos;
        }
        i += 1;
    }
    assert(targets@.take(i as int) =~= targets@);
}

/// The way of a move; with Shift, only along the axis on which it is longer.
pub open spec fn move_delta<S: Scalar>(from: Pos2<S>, to: Pos2<S>, shift: bool) -> Vec2<S> {
    let d = to.spec_from(from);
    if !shift {
        d
    } else if d.y.spec_magnitude().spec_le(d.x.spec_magnitude()) {
        Vec2 { y: S::spec_ratio(0, 1), ..d }
    } else {
        Vec2 { x: S::spec_ratio(0, 1), ..d }
    }
}

/// The box around where the moved layers that exist began.
pub open spec fn start_box<S: Scalar>(
    s: Seq<LayerView<S>>,
    starts: Seq<(LayerId, Pos2<S>)>,
) -> Option<Rect<S>>
    decreases starts.len(),
{
    if starts.len() == 0 {
        None
    } else {
        let rest = start_box(s, starts.drop_last());
        match crate::tree::find(s, starts.last().0) {
            Some(v) => {
                let p = starts.last().1;
                let b = Rect::spec_from_two_pos(p, p.spec_plus(v.frame.size));
                match rest {
                    Some(r) => Some(r.spec_union(b)),
                    None => Some(b),
                }
            },
            None => rest,
        }
    }
}

/// The snapped way of the layers that are moved, and what it was snapped to.
pub open spec fn moved_by<S: Scalar>(
    c: CanvasView<S>,
    page: PageView<S>,
    start_doc: Pos2<S>,
    starts: Seq<(LayerId, Pos2<S>)>,
    doc_pos: Pos2<S>,
    shift: bool,
) -> (Vec2<S>, Option<S>, Option<S>) {
    let raw = move_delta(start_doc, doc_pos, shift);
    match start_box(page.layers, starts) {
        Some(b) => snapped_move(
            b,
            raw,
            snap_xs(page, start_ids(starts)),
            snap_ys(page, start_ids(starts)),
            c.zoom,
            c.snap_enabled,
            c.show_grid,
        ),
        None => (raw, None, None),
    }
}

pub open spec fn shifted<S: Scalar>(starts: Seq<(LayerId, Pos2<S>)>, by: Vec2<S>) -> Seq<
    (LayerId, Pos2<S>),
> {
    Seq::new(starts.len(), |i: int| (starts[i].0, starts[i].1.spec_plus(by)))
}

/// Where the layers behind a gap go: those from `gap_index + 1` on, along the axis.
pub open spec fn beyond_gap<S: Scalar>(
    order: Seq<LayerId>,
    places: Seq<Pos2<S>>,
    gap_index: int,
    by: Vec2<S>,
) -> Seq<(LayerId, Pos2<S>)>
    decreases order.len(),
{
    if order.len() == 0 || places.len() < order.len() || order.len() <= gap_index + 1 {
        Seq::empty()
    } else {
        let k = order.len() - 1;
        beyond_gap(order.drop_last(), places, gap_index, by).push(
            (order[k], places[k].spec_plus(by)),
        )
    }
}

/// The way along one axis.
pub open spec fn along<S: Scalar>(d: Vec2<S>, axis: DistributeAxis) -> Vec2<S> {
    match axis {
        DistributeAxis::Horizontal => Vec2 { x: d.x, y: S::spec_ratio(0, 1) },
        DistributeAxis::Vertical => Vec2 { x: S::spec_ratio(0, 1), y: d.y },
    }
}

/// A line with one end at `p`, inside its parent.
pub open spec fn end_moved<S: Scalar>(v: LayerView<S>, handle: Handle, p: Pos2<S>) -> LayerView<S> {
    let frame = v.frame;
    let (a, b) = if handle == Handle::TopLeft {
        (p, frame.spec_end())
    } else {
        (frame.spec_start(), p)
    };
    LayerView { frame: Frame { pos: a, size: b.spec_from(a), rotation: frame.rotation }, ..v }
}

/// The layers after the first one with the given id was changed; as they were where there is none.
pub open spec fn with_layer<S>(
    s: Seq<LayerView<S>>,
    id: LayerId,
    f: spec_fn(LayerView<S>) -> LayerView<S>,
) -> Seq<LayerView<S>> {
    match crate::tree::find(s, id) {
        Some(v) => crate::tree::replace(s, id, f(v)),
        None => s,
    }
}

/// One factor of a resize: one where the old size is next to nothing.
pub open spec fn factor<S: Scalar>(old: S, new: S) -> S {
    if S::spec_ratio(1, 1000000).spec_lt(old.spec_magnitude()) {
        new.spec_over(old)
    } else {
        S::spec_ratio(1, 1)
    }
}

fn factor_of<S: Scalar>(before: S, after: S) -> (r: S)
    ensures
        r == factor(before, after),
{
    if S::ratio(1, 1000000).is_lt(before.magnitude()) {
        after.over(before)
    } else {
        S::ratio(1, 1)
    }
}

/// The turn in whose space a resize happens: that of a single leaf, none for several.
pub open spec fn resize_turn<S: Scalar>(layers: Seq<ResizeInfoView<S>>) -> S {
    if layers.len() == 1 {
        layers[0].original_rotation
    } else {
        S::spec_ratio(0, 1)
    }
}

/// The box that a grip dragged to `p` makes of `start`.
pub open spec fn resized_box<S: Scalar>(
    handle: Handle,
    start: Rect<S>,
    anchor: ScaleAnchor,
    turn: S,
    p: Pos2<S>,
) -> Rect<S> {
    let local = if turn.spec_same(S::spec_ratio(0, 1)) {
        p
    } else {
        p.spec_rotated(start.spec_center(), turn.spec_negated())
    };
    let b = handle.spec_resize(start, local);
    if anchor == ScaleAnchor::Center {
        Rect::spec_from_center_size(start.spec_center(), b.spec_size())
    } else {
        b
    }
}

/// The map from one box to another.
pub open spec fn rescale<S: Scalar>(old: Rect<S>, new: Rect<S>) -> Rescale<S> {
    Rescale {
        old_anchor: old.min,
        new_anchor: new.min,
        scale: Vec2 {
            x: factor(old.spec_width(), new.spec_width()),
            y: factor(old.spec_height(), new.spec_height()),
        },
    }
}

/// The one factor that stands for both axes.
pub open spec fn uniform_factor<S: Scalar>(map: Rescale<S>) -> S {
    map.scale.x.spec_magnitude().spec_plus(map.scale.y.spec_magnitude()).spec_over(
        S::spec_ratio(2, 1),
    )
}

/// The angle of a turn, in degrees; with Shift, in steps of fifteen.
pub open spec fn turn_angle<S: Scalar>(pivot: Pos2<S>, start_angle: S, p: Pos2<S>, shift: bool) -> S {
    let d = p.spec_from(pivot).spec_angle().spec_minus(start_angle).spec_to_degrees();
    let step = S::spec_ratio(15, 1);
    if shift {
        d.spec_over(step).spec_rounded().spec_times(step)
    } else {
        d
    }
}

/// The points drawn with the pen, with the handles of one pulled out.
pub open spec fn handle_pulled<S: Scalar>(points: Seq<PathPoint<S>>, i: int, p: Pos2<S>) -> Seq<
    PathPoint<S>,
> {
    if 0 <= i < points.len() {
        let d = p.spec_from(points[i].anchor);
        points.update(
            i,
            PathPoint {
                handle_out: Some(d),
                handle_in: Some(d.spec_negated()),
                ..points[i]
            },
        )
    } else {
        points
    }
}

/// The points after the first `n` of some anchors were moved from where they began.
pub open spec fn anchors_moved<S: Scalar>(
    points: Seq<PathPoint<S>>,
    indices: Seq<usize>,
    starts: Seq<Pos2<S>>,
    by: Vec2<S>,
    n: nat,
) -> Seq<PathPoint<S>>
    decreases n,
{
    if n == 0 {
        points
    } else {
        let t = anchors_moved(points, indices, starts, by, (n - 1) as nat);
        let i = indices[n - 1] as int;
        if i < t.len() {
            t.update(i, PathPoint { anchor: starts[n - 1].spec_plus(by), ..t[i] })
        } else {
            t
        }
    }
}

/// A point with one handle set, and the other following as its type asks.
pub open spec fn handle_set<S: Scalar>(p: PathPoint<S>, side: HandleSide, d: Vec2<S>) -> PathPoint<S> {
    let other = match side {
        HandleSide::In => p.handle_out,
        HandleSide::Out => p.handle_in,
    };
    let follows = match p.point_type {
        PointType::Mirror => Some(d.spec_negated()),
        PointType::Asymmetric => Some(
            d.spec_unit().spec_negated().spec_scaled(
                match other {
                    Some(h) => h.spec_length(),
                    None => d.spec_length(),
                },
            ),
        ),
        _ => other,
    };
    match side {
        HandleSide::In => PathPoint { handle_in: Some(d), handle_out: follows, ..p },
        HandleSide::Out => PathPoint { handle_out: Some(d), handle_in: follows, ..p },
    }
}

/// A path layer with one handle dragged to a point of the page.
pub open spec fn handle_dragged<S: Scalar>(
    v: LayerView<S>,
    parent_offset: Vec2<S>,
    i: int,
    side: HandleSide,
    doc_pos: Pos2<S>,
) -> LayerView<S> {
    match v.kind {
        KindView::Path { points, closed } => if 0 <= i < points.len() {
            let anchor = v.frame.pos.spec_plus(parent_offset).spec_plus(
                points[i].anchor.spec_to_vec2(),
            );
            crate::canvas::with_points(
                v,
                points.update(i, handle_set(points[i], side, doc_pos.spec_from(anchor))),
                closed,
            )
        } else {
            v
        },
        _ => v,
    }
}

/// A path layer with some anchors moved.
pub open spec fn anchors_dragged<S: Scalar>(
    v: LayerView<S>,
    indices: Seq<usize>,
    starts: Seq<Pos2<S>>,
    by: Vec2<S>,
) -> LayerView<S> {
    match v.kind {
        KindView::Path { points, closed } => crate::canvas::with_points(
            v,
            anchors_moved(
                points,
                indices,
                starts,
                by,
                if indices.len() <= starts.len() {
                    indices.len()
                } else {
                    starts.len()
                },
            ),
            closed,
        ),
        _ => v,
    }
}

/// A dragged point of the page after snapping, and what it was snapped to.
pub open spec fn snapped_drag<S: Scalar>(c: CanvasView<S>, page: PageView<S>, p: Pos2<S>) -> (
    Pos2<S>,
    Option<S>,
    Option<S>,
) {
    let ids = excluded(c.drag);
    snapped_point(
        p,
        snap_xs(page, ids),
        snap_ys(page, ids),
        c.zoom,
        c.snap_enabled,
        c.show_grid,
    )
}

/// The canvas after the pointer was dragged on.
pub open spec fn canvas_dragged<S: Scalar>(c: CanvasView<S>, press: Press<S>) -> CanvasView<S> {
    match c.drag {
        DragView::PanningView { start_mouse, start_pan } => CanvasView {
            pan: start_pan.spec_plus(press.mouse.spec_from(start_mouse)),
            ..c
        },
        DragView::DrawingPenHandle { point_index } => CanvasView {
            pen: match c.pen {
                Some(points) => Some(
                    handle_pulled(
                        points,
                        point_index as int,
                        c.to_doc(press.origin, press.mouse),
                    ),
                ),
                None => None,
            },
            ..c
        },
        _ => c,
    }
}

/// The layers after the pointer was dragged on.
pub open spec fn layers_dragged<S: Scalar>(
    c: CanvasView<S>,
    page: PageView<S>,
    press: Press<S>,
) -> Seq<LayerView<S>> {
    let s = page.layers;
    let doc_pos = c.to_doc(press.origin, press.mouse);
    let at = snapped_drag(c, page, doc_pos).0;
    let shift = press.modifiers.shift;
    match c.drag {
        DragView::MovingSelection { start_doc, starts } => repositioned(
            s,
            shifted(starts, moved_by(c, page, start_doc, starts, doc_pos, shift).0),
        ),
        DragView::AdjustingDistributionGap { start_doc, axis, gap_index, order, places } =>
            repositioned(
            s,
            beyond_gap(
                zipped_order(order, places),
                places,
                gap_index as int,
                along(doc_pos.spec_from(start_doc), axis),
            ),
        ),
        DragView::ResizingLine { id, handle, parent_offset } => with_layer(
            s,
            id,
            |v: LayerView<S>| end_moved(v, handle, at.spec_minus(parent_offset)),
        ),
        DragView::ResizingGroup {
            handle,
            start_overall_bounds,
            layers,
            scale_style,
            scale_anchor,
        } => {
            let new = resized_box(
                handle,
                start_overall_bounds,
                scale_anchor,
                resize_turn(layers),
                at,
            );
            let map = rescale(start_overall_bounds, new);
            stretched(
                s,
                layers,
                map,
                if scale_style {
                    Some(uniform_factor(map))
                } else {
                    None
                },
            )
        },
        DragView::Rotating { pivot, start_angle, leaves } => turned(
            s,
            leaves,
            pivot,
            turn_angle(pivot, start_angle, doc_pos, shift),
        ),
        DragView::EditingPathAnchor { layer_id, point_indices, start_doc, start_anchors } =>
            with_layer(
            s,
            layer_id,
            |v: LayerView<S>|
                anchors_dragged(v, point_indices, start_anchors, doc_pos.spec_from(start_doc)),
        ),
        DragView::EditingPathHandle { layer_id, parent_offset, point_index, side } => with_layer(
            s,
            layer_id,
            |v: LayerView<S>| handle_dragged(v, parent_offset, point_index as int, side, doc_pos),
        ),
        _ => s,
    }
}

/// As many of the distributed layers as have a recorded place.
pub open spec fn zipped_order<S>(order: Seq<LayerId>, places: Seq<Pos2<S>>) -> Seq<LayerId> {
    if order.len() <= places.len() {
        order
    } else {
        order.take(places.len() as int)
    }
}

/// The shape that a tool draws while it is dragged from `a` to `b` on the screen.
pub open spec fn draft_marks<S: Scalar>(tool: Tool, a: Pos2<S>, b: Pos2<S>) -> Seq<Mark<S>> {
    if tool == Tool::Line || tool == Tool::Arrow {
        seq![Mark::Line { from: a, to: b, width: S::spec_ratio(2, 1), ink: Ink::Draft }]
    } else {
        seq![
            Mark::Panel {
                rect: Rect::spec_from_two_pos(a, b),
                ink: Ink::DraftFill,
                width: S::spec_ratio(1, 1),
                rim: Ink::Draft,
            },
        ]
    }
}

/// The rubber band from `a` to `b` on the screen.
pub open spec fn band_mark<S: Scalar>(a: Pos2<S>, b: Pos2<S>) -> Mark<S> {
    Mark::Panel {
        rect: Rect::spec_from_two_pos(a, b),
        ink: Ink::SelectionWash,
        width: S::spec_ratio(1, 1),
        rim: Ink::Selection,
    }
}

/// What is drawn over the page during a drag.
pub open spec fn drag_marks<S: Scalar>(
    c: CanvasView<S>,
    page: PageView<S>,
    tool: Tool,
    press: Press<S>,
) -> Seq<Mark<S>> {
    let doc_pos = c.to_doc(press.origin, press.mouse);
    let screen = Screen {
        viewport: c.viewport(),
        origin: press.origin,
        canvas_rect: press.canvas_rect,
    };
    let at = snapped_drag(c, page, doc_pos);
    match c.drag {
        DragView::CreatingShape { start_doc } => snap_lines(screen, at.1, at.2) + draft_marks(
            tool,
            c.to_screen(press.origin, start_doc),
            c.to_screen(press.origin, at.0),
        ),
        DragView::Marquee { start_doc, .. }
        | DragView::MarqueePoints { start_doc, .. }
        | DragView::ImageEditDrag { start_doc, .. } => seq![
            band_mark(
                c.to_screen(press.origin, start_doc),
                c.to_screen(press.origin, doc_pos),
            ),
        ],
        DragView::MovingSelection { start_doc, starts } => {
            let by = moved_by(c, page, start_doc, starts, doc_pos, press.modifiers.shift);
            snap_lines(screen, by.1, by.2)
        },
        DragView::ResizingLine { .. } | DragView::ResizingGroup { .. } => snap_lines(
            screen,
            at.1,
            at.2,
        ),
        DragView::CreatingGuide { orientation } => seq![
            guide_mark(screen, orientation, dragged_guide(c, page, orientation, doc_pos)),
        ],
        DragView::MovingGuide { orientation, .. } => if press.canvas_rect.spec_contains(
            press.mouse,
        ) {
            seq![guide_mark(screen, orientation, dragged_guide(c, page, orientation, doc_pos))]
        } else {
            Seq::empty()
        },
        _ => Seq::empty(),
    }
}

/// Where a dragged guide comes to lie.
pub open spec fn dragged_guide<S: Scalar>(
    c: CanvasView<S>,
    page: PageView<S>,
    orientation: GuideOrientation,
    doc_pos: Pos2<S>,
) -> S {
    snapped_guide(
        orientation,
        doc_pos,
        snap_xs(page, Seq::empty()),
        snap_ys(page, Seq::empty()),
        c.zoom,
        c.snap_enabled,
        c.show_grid,
    )
}

/// The oval that is drawn over its box while it is being made; none with other tools.
pub open spec fn draft_oval<S: Scalar>(
    c: CanvasView<S>,
    page: PageView<S>,
    tool: Tool,
    press: Press<S>,
) -> Seq<Pos2<S>> {
    match c.drag {
        DragView::CreatingShape { start_doc } => if tool == Tool::Oval {
            let at = snapped_drag(c, page, c.to_doc(press.origin, press.mouse)).0;
            let b = Rect::spec_from_two_pos(
                c.to_screen(press.origin, start_doc),
                c.to_screen(press.origin, at),
            );
            let two = S::spec_ratio(2, 1);
            crate::shapes::ellipse(
                b.spec_center(),
                b.spec_width().spec_over(two),
                b.spec_height().spec_over(two),
            )
        } else {
            Seq::empty()
        },
        _ => Seq::empty(),
    }
}

/// The way of a move; with Shift, only along the axis on which it is longer.
fn delta_of_move<S: Scalar>(from: Pos2<S>, to: Pos2<S>, shift: bool) -> (r: Vec2<S>)
    ensures
        r == move_delta(from, to, shift),
{
    let d = to.from(from);
    if !shift {
        d
    } else if d.y.magnitude().is_le(d.x.magnitude()) {
        Vec2 { x: d.x, y: S::ratio(0, 1) }
    } else {
        Vec2 { x: S::ratio(0, 1), y: d.y }
    }
}

/// The box around where the moved layers that exist began.
fn box_of_starts<S: Scalar>(page: &Page<S>, starts: &Vec<(LayerId, Pos2<S>)>) -> (r: Option<Rect<S>>)
    ensures
        r == start_box(page@.layers, starts@),
{
    let mut r: Option<Rect<S>> = None;
    let mut i: usize = 0;
    assert(starts@.take(0) =~= Seq::empty());
    while i < starts.len()
        invariant
            i <= starts.len(),
            r == start_box(page@.layers, starts@.take(i as int)),
        decreases starts.len() - i,
    {
        assert(starts@.take(i + 1).drop_last() =~= starts@.take(i as int));
        assert(starts@.take(i + 1).last() == starts@[i as int]);
        let (id, p) = starts[i];
        if let Some(layer) = page.find(id) {
            let b = Rect::from_two_pos(p, p.plus(layer.frame.size));
            r = match r {
                Some(x) => Some(x.union(b)),
                None => Some(b),
            };
        }
        i += 1;
    }
    assert(starts@.take(i as int) =~= starts@);
    r
}

/// Moves the first `n` anchors from where they began.
fn move_anchors<S: Scalar>(
    points: &mut Vec<PathPoint<S>>,
    indices: &Vec<usize>,
    starts: &Vec<Pos2<S>>,
    by: Vec2<S>,
    n: usize,
)
    requires
        n <= indices.len(),
        n <= starts.len(),
    ensures
        final(points)@ == anchors_moved(old(points)@, indices@, starts@, by, n as nat),
{
    let ghost before = points@;
    let mut k: usize = 0;
    while k < n
        invariant
            k <= n,
            n <= indices.len(),
            n <= starts.len(),
            points@ == anchors_moved(before, indices@, starts@, by, k as nat),
        decreases n - k,
    {
        let i = indices[k];
        if i < points.len() {
            let mut p = points[i];
            p.anchor = starts[k].plus(by);
            points.set(i, p);
        }
        k += 1;
    }
}

/// A point with one handle set, and the other following as its type asks.
fn set_handle<S: Scalar>(p: PathPoint<S>, side: HandleSide, d: Vec2<S>) -> (r: PathPoint<S>)
    ensures
        r == handle_set(p, side, d),
{
    let other = match side {
        HandleSide::In => p.handle_out,
        HandleSide::Out => p.handle_in,
    };
    let follows = match p.point_type {
        PointType::Mirror => Some(d.negated()),
        PointType::Asymmetric => {
            let len = match other {
                Some(h) => h.length(),
                None => d.length(),
            };
            Some(d.unit().negated().scaled(len))
        },
        _ => other,
    };
    let mut r = p;
    match side {
        HandleSide::In => {
            r.handle_in = Some(d);
            r.handle_out = follows;
        },
        HandleSide::Out => {
            r.handle_out = Some(d);
            r.handle_in = follows;
        },
    }
    r
}

/// Drags one end of a line.
fn drag_end<S: Scalar>(page: &mut Page<S>, id: LayerId, handle: Handle, p: Pos2<S>)
    ensures
        final(page)@ == old(page)@.with_layers(
            with_layer(old(page)@.layers, id, |v: LayerView<S>| end_moved(v, handle, p)),
        ),
{
    if let Some(layer) = page.find_mut(id) {
        let rotation = layer.frame.rotation;
        layer.frame = if handle == Handle::TopLeft {
            Frame::from_two_points(p, layer.frame.end())
        } else {
            Frame::from_two_points(layer.frame.start(), p)
        };
        layer.frame.rotation = rotation;
    }
}

/// Drags some anchors of a path.
fn drag_anchors<S: Scalar>(
    page: &mut Page<S>,
    id: LayerId,
    indices: &Vec<usize>,
    starts: &Vec<Pos2<S>>,
    by: Vec2<S>,
)
    ensures
        final(page)@ == old(page)@.with_layers(
            with_layer(
                old(page)@.layers,
                id,
                |v: LayerView<S>| anchors_dragged(v, indices@, starts@, by),
            ),
        ),
{
    if let Some(layer) = page.find_mut(id) {
        if let LayerKind::Path { points, .. } = &mut layer.kind {
            let n: usize = if indices.len() <= starts.len() {
                indices.len()
            } else {
                starts.len()
            };
            move_anchors(points, indices, starts, by, n);
        }
    }
}

/// Drags one handle of a path's point.
fn drag_handle<S: Scalar>(
    page: &mut Page<S>,
    id: LayerId,
    parent_offset: Vec2<S>,
    i: usize,
    side: HandleSide,
    doc_pos: Pos2<S>,
)
    ensures
        final(page)@ == old(page)@.with_layers(
            with_layer(
                old(page)@.layers,
                id,
                |v: LayerView<S>| handle_dragged(v, parent_offset, i as int, side, doc_pos),
            ),
        ),
{
    if let Some(layer) = page.find_mut(id) {
        let pos = layer.frame.pos;
        if let LayerKind::Path { points, .. } = &mut layer.kind {
            if i < points.len() {
                let p = points[i];
                let anchor = pos.plus(parent_offset).plus(p.anchor.to_vec2());
                points.set(i, set_handle(p, side, doc_pos.from(anchor)));
            }
        }
    }
}

impl<S: Scalar> CanvasWidget<S> {
    /// A dragged point of the page after snapping, and what it was snapped to.
    fn snap_drag(&self, page: &Page<S>, p: Pos2<S>) -> (r: (Pos2<S>, Option<S>, Option<S>))
        ensures
            r == snapped_drag(self@, page@, p),
    {
        let ids = drag_exclude_ids(&self.drag);
        let candidates = build_snap_candidates(page, &ids);
        snap_point(p, &candidates, self.zoom, self.snap_enabled, self.show_grid)
    }

    /// The snapped way of the layers that are moved, and what it was snapped to.
    fn snap_move(
        &self,
        page: &Page<S>,
        start_doc: Pos2<S>,
        starts: &Vec<(LayerId, Pos2<S>)>,
        doc_pos: Pos2<S>,
        shift: bool,
    ) -> (r: (Vec2<S>, Option<S>, Option<S>))
        ensures
            r == moved_by(self@, page@, start_doc, starts@, doc_pos, shift),
    {
        let raw = delta_of_move(start_doc, doc_pos, shift);
        match box_of_starts(page, starts) {
            Some(b) => {
                let mut ids: Vec<LayerId> = Vec::new();
                let mut i: usize = 0;
                while i < starts.len()
                    invariant
                        i <= starts.len(),
                        ids.len() == i,
                        forall|j: int| 0 <= j < i ==> #[trigger] ids@[j] == starts@[j].0,
                    decreases starts.len() - i,
                {
                    ids.push(starts[i].0);
                    i += 1;
                }
                assert(ids@ =~= start_ids(starts@));
                let candidates = build_snap_candidates(page, &ids);
                snap_bounds_delta(
                    b,
                    raw,
                    &candidates,
                    self.zoom,
                    self.snap_enabled,
                    self.show_grid,
                )
            },
            None => (raw, None, None),
        }
    }

    /// Where a dragged guide comes to lie.
    pub fn guide_at(&self, page: &Page<S>, orientation: GuideOrientation, doc_pos: Pos2<S>) -> (r: S)
        ensures
            r == dragged_guide(self@, page@, orientation, doc_pos),
    {
        let none: Vec<LayerId> = Vec::new();
        let candidates = build_snap_candidates(page, &none);
        snap_guide_axis(
            orientation,
            doc_pos,
            &candidates,
            self.zoom,
            self.snap_enabled,
            self.show_grid,
        )
    }

    /// Changes the layers as the drag asks.
    #[verifier::rlimit(50)]
    fn drag_layers(&self, page: &mut Page<S>, press: Press<S>)
        ensures
            final(page)@ == old(page)@.with_layers(layers_dragged(self@, old(page)@, press)),
    {
        let doc_pos = self.to_doc(press.origin, press.mouse);
        let shift = press.modifiers.shift;
        match &self.drag {
            DragState::MovingSelection { start_doc, starts } => {
                let (by, _, _) = self.snap_move(page, *start_doc, starts, doc_pos, shift);
                let mut targets: Vec<(LayerId, Pos2<S>)> = Vec::new();
                let mut i: usize = 0;
                while i < starts.len()
                    invariant
                        i <= starts.len(),
                        targets.len() == i,
                        forall|j: int|
                            0 <= j < i ==> #[trigger] targets@[j] == shifted(starts@, by)[j],
                    decreases starts.len() - i,
                {
                    targets.push((starts[i].0, starts[i].1.plus(by)));
                    i += 1;
                }
                assert(targets@ =~= shifted(starts@, by));
                reposition(page, &targets);
            },
            DragState::AdjustingDistributionGap { start_doc, axis, gap_index, order, places } => {
                let d = doc_pos.from(*start_doc);
                let by = match axis {
                    DistributeAxis::Horizontal => Vec2 { x: d.x, y: S::ratio(0, 1) },
                    DistributeAxis::Vertical => Vec2 { x: S::ratio(0, 1), y: d.y },
                };
                let targets = targets_beyond(order, places, *gap_index, by);
                reposition(page, &targets);
            },
            DragState::ResizingLine { id, handle, parent_offset } => {
                let (at, _, _) = self.snap_drag(page, doc_pos);
                drag_end(page, *id, *handle, at.minus(*parent_offset));
            },
            DragState::ResizingGroup {
                handle,
                start_overall_bounds,
                layers,
                scale_style,
                scale_anchor,
            } => {
                let (at, _, _) = self.snap_drag(page, doc_pos);
                resize_leaves(
                    page,
                    *handle,
                    *start_overall_bounds,
                    layers,
                    *scale_style,
                    *scale_anchor,
                    at,
                );
            },
            DragState::Rotating { pivot, start_angle, leaves } => {
                let angle = doc_pos.from(*pivot).angle().minus(*start_angle).to_degrees();
                let step = S::ratio(15, 1);
                let degrees = if shift {
                    angle.over(step).rounded().times(step)
                } else {
                    angle
                };
                apply_rotation_delta(page, *pivot, degrees, leaves);
            },
            DragState::EditingPathAnchor { layer_id, point_indices, start_doc, start_anchors } => {
                let by = doc_pos.from(*start_doc);
                drag_anchors(page, *layer_id, point_indices, start_anchors, by);
            },
            DragState::EditingPathHandle { layer_id, parent_offset, point_index, side } => {
                drag_handle(page, *layer_id, *parent_offset, *point_index, *side, doc_pos);
            },
            _ => {},
        }
    }

    /// Changes the canvas itself as the drag asks.
    fn drag_canvas(&mut self, press: Press<S>)
        ensures
            final(self)@ == canvas_dragged(old(self)@, press),
    {
        let doc_pos = self.to_doc(press.origin, press.mouse);
        match &self.drag {
            DragState::PanningView { start_mouse, start_pan } => {
                self.pan = start_pan.plus(press.mouse.from(*start_mouse));
            },
            DragState::DrawingPenHandle { point_index } => {
                let i = *point_index;
                if let Some(points) = &mut self.pen {
                    if i < points.len() {
                        let mut p = points[i];
                        let d = doc_pos.from(p.anchor);
                        p.handle_out = Some(d);
                        p.handle_in = Some(d.negated());
                        points.set(i, p);
                    }
                }
            },
            _ => {},
        }
    }

    /// What is drawn over the page during the drag.
    #[verifier::rlimit(50)]
    pub fn drag_marks(&self, page: &Page<S>, tool: Tool, press: Press<S>) -> (r: Vec<Mark<S>>)
        ensures
            r@ == drag_marks(self@, page@, tool, press),
    {
        let doc_pos = self.to_doc(press.origin, press.mouse);
        let screen = Screen {
            viewport: self.viewport(),
            origin: press.origin,
            canvas_rect: press.canvas_rect,
        };
        match &self.drag {
            DragState::CreatingShape { start_doc } => {
                let (at, x, y) = self.snap_drag(page, doc_pos);
                let a = self.to_screen(press.origin, *start_doc);
                let b = self.to_screen(press.origin, at);
                let mut r = draw_snap_lines(screen, x, y);
                let ghost lines = r@;
                r.push(
                    if tool == Tool::Line || tool == Tool::Arrow {
                        Mark::Line { from: a, to: b, width: S::ratio(2, 1), ink: Ink::Draft }
                    } else {
                        Mark::Panel {
                            rect: Rect::from_two_pos(a, b),
                            ink: Ink::DraftFill,
                            width: S::ratio(1, 1),
                            rim: Ink::Draft,
                        }
                    },
                );
                assert(r@ =~= lines + draft_marks(tool, a, b));
                r
            },
            DragState::Marquee { start_doc, .. }
            | DragState::MarqueePoints { start_doc, .. }
            | DragState::ImageEditDrag { start_doc, .. } => {
                let a = self.to_screen(press.origin, *start_doc);
                let b = self.to_screen(press.origin, doc_pos);
                let mut r: Vec<Mark<S>> = Vec::new();
                r.push(
                    Mark::Panel {
                        rect: Rect::from_two_pos(a, b),
                        ink: Ink::SelectionWash,
                        width: S::ratio(1, 1),
                        rim: Ink::Selection,
                    },
                );
                assert(r@ =~= seq![band_mark(a, b)]);
                r
            },
            DragState::MovingSelection { start_doc, starts } => {
                let (_, x, y) = self.snap_move(
                    page,
                    *start_doc,
                    starts,
                    doc_pos,
                    press.modifiers.shift,
                );
                draw_snap_lines(screen, x, y)
            },
            DragState::ResizingLine { .. } | DragState::ResizingGroup { .. } => {
                let (_, x, y) = self.snap_drag(page, doc_pos);
                draw_snap_lines(screen, x, y)
            },
            DragState::CreatingGuide { orientation } => {
                let v = self.guide_at(page, *orientation, doc_pos);
                let mut r: Vec<Mark<S>> = Vec::new();
                r.push(draw_guide_line(screen, *orientation, v));
                assert(r@ =~= seq![guide_mark(screen, *orientation, v)]);
                r
            },
            DragState::MovingGuide { orientation, .. } => {
                let mut r: Vec<Mark<S>> = Vec::new();
                if press.canvas_rect.contains(press.mouse) {
                    let v = self.guide_at(page, *orientation, doc_pos);
                    r.push(draw_guide_line(screen, *orientation, v));
                    assert(r@ =~= seq![guide_mark(screen, *orientation, v)]);
                }
                r
            },
            _ => Vec::new(),
        }
    }

    /// The oval that is drawn over its box while it is being made.
    pub fn draft_oval(&self, page: &Page<S>, tool: Tool, press: Press<S>) -> (r: Vec<Pos2<S>>)
        ensures
            r@ == draft_oval(self@, page@, tool, press),
    {
        match &self.drag {
            DragState::CreatingShape { start_doc } => {
                if tool == Tool::Oval {
                    let doc_pos = self.to_doc(press.origin, press.mouse);
                    let (at, _, _) = self.snap_drag(page, doc_pos);
                    let b = Rect::from_two_pos(
                        self.to_screen(press.origin, *start_doc),
                        self.to_screen(press.origin, at),
                    );
                    let two = S::ratio(2, 1);
                    ellipse_points(b.center(), b.width().over(two), b.height().over(two))
                } else {
                    Vec::new()
                }
            },
            _ => Vec::new(),
        }
    }

    /// Carries the drag on to where the pointer is; returns what is drawn over the page.
    pub fn dragged(&mut self, press: Press<S>, history: &mut History<S>, tool: Tool) -> (r: Vec<
        Mark<S>,
    >)
        requires
            old(history)@.current.wf(),
        ensures
            final(self)@ == canvas_dragged(old(self)@, press),
            final(history)@ == old(history)@.with_layers(
                layers_dragged(old(self)@, old(history)@.current.page(), press),
            ),
            r@ == drag_marks(old(self)@, old(history)@.current.page(), tool, press),
    {
        let marks = self.drag_marks(history.page(), tool, press);
        self.drag_layers(history.page_mut(), press);
        self.drag_canvas(press);
        marks
    }
}

/// Where the layers behind a gap go.
fn targets_beyond<S: Scalar>(
    order: &Vec<LayerId>,
    places: &Vec<Pos2<S>>,
    gap_index: usize,
    by: Vec2<S>,
) -> (r: Vec<(LayerId, Pos2<S>)>)
    ensures
        r@ == beyond_gap(zipped_order(order@, places@), places@, gap_index as int, by),
{
    let ghost z = zipped_order(order@, places@);
    let n: usize = if order.len() <= places.len() {
        order.len()
    } else {
        places.len()
    };
    let mut r: Vec<(LayerId, Pos2<S>)> = Vec::new();
    let mut i: usize = 0;
    assert(z.take(0) =~= Seq::empty());
    while i < n
        invariant
            i <= n,
            n == z.len(),
            n <= places.len(),
            n <= order.len(),
            z == zipped_order(order@, places@),
            r@ == beyond_gap(z.take(i as int), places@, gap_index as int, by),
        decreases n - i,
    {
        assert(z.take(i + 1).drop_last() =~= z.take(i as int));
        if i > gap_index {
            r.push((order[i], places[i].plus(by)));
        } else {
            assert(beyond_gap(z.take(i as int), places@, gap_index as int, by) =~= Seq::empty());
        }
        i += 1;
    }
    assert(z.take(i as int) =~= z);
    r
}

/// Resizes the recorded leaves as a grip dragged to `p` asks.
fn resize_leaves<S: Scalar>(
    page: &mut Page<S>,
    handle: Handle,
    start: Rect<S>,
    layers: &Vec<ResizeLayerInfo<S>>,
    scale_style: bool,
    scale_anchor: ScaleAnchor,
    p: Pos2<S>,
)
    ensures
        ({
            let infos = resize_infos(layers@);
            let new = resized_box(handle, start, scale_anchor, resize_turn(infos), p);
            let map = rescale(start, new);
            final(page)@ == old(page)@.with_layers(
                stretched(
                    old(page)@.layers,
                    infos,
                    map,
                    if scale_style {
                        Some(uniform_factor(map))
                    } else {
                        None
                    },
                ),
            )
        }),
{
    let ghost infos = resize_infos(layers@);
    let zero = S::ratio(0, 1);
    let turn = if layers.len() == 1 {
        assert(infos[0] == layers@[0]@);
        layers[0].original_rotation
    } else {
        zero
    };
    let local = if turn.is_same(zero) {
        p
    } else {
        p.rotated(start.center(), turn.negated())
    };
    let grown = handle.resize(start, local);
    let new = if scale_anchor == ScaleAnchor::Center {
        Rect::from_center_size(start.center(), grown.size())
    } else {
        grown
    };
    let map = Rescale {
        old_anchor: start.min,
        new_anchor: new.min,
        scale: Vec2 {
            x: factor_of(start.width(), new.width()),
            y: factor_of(start.height(), new.height()),
        },
    };
    let style_factor = if scale_style {
        Some(map.scale.x.magnitude().plus(map.scale.y.magnitude()).over(S::ratio(2, 1)))
    } else {
        None
    };
    apply_resize_delta(page, layers, map, style_factor);
}

} // verus!
