//! What drags, commands and the pointer over the canvas do to a document as a whole.
use vstd::prelude::*;

use crate::app::{
    preset_inserted, selection_aligned, selection_copied, selection_deleted, selection_distributed,
    selection_edited, selection_grouped, selection_tidied, selection_ungrouped, siblings_selected,
};
use crate::canvas::{CanvasView, DragView, HandleSide, PathPart, Session};
use crate::clipboard::{frame_union, turned_union};
use crate::document::{find_from, offset_of, PageView};
use crate::dragging::{
    canvas_dragged, draft_marks, band_mark, end_moved, excluded, handle_dragged, layers_dragged,
    moved_by, resize_turn, shifted, snapped_drag, uniform_factor, with_layer,
};
use crate::edits::EditView;
use crate::fixed::Fixed;
use crate::geometry::{Pos2, Rect, Vec2};
use crate::gripping::{around, lemma_around, lemma_put};
use crate::grouping::union_bounds;
use crate::hover::{
    corner_near, grip_marks, grip_under, overall_box, placed_layers, point_on_screen, point_under,
    turned_box,
};
use crate::marks::Mark;
use crate::model::{KindView, LayerId, LayerView, PathPoint};
use crate::placement::Tool;
use crate::plane::{near, near_point};
use crate::press::{leaves_box, Press};
use crate::records::{is_shallow, lemma_changed_layer};
use crate::scalar::Scalar;
use crate::shortcuts::{commanded, delete_pressed, entered, nudged, Command};
use crate::transform::{shown_bounds, Handle, Rescale, ResizeInfoView};
use crate::tree::find;

verus! {

/// While the view is dragged the page goes with the pointer, and nothing else changes.
pub proof fn law_the_page_goes_with_the_pointer(
    c: CanvasView<Fixed>,
    press: Press<Fixed>,
    from: Pos2<Fixed>,
    pan: Vec2<Fixed>,
)
    requires
        c.drag == (DragView::PanningView { start_mouse: from, start_pan: pan }),
        near_point(press.mouse) && near_point(from),
        -0x2000_0000 <= pan.x.raw <= 0x2000_0000 && -0x2000_0000 <= pan.y.raw <= 0x2000_0000,
    ensures
        ({
            let d = canvas_dragged(c, press);
            &&& d.pan.x.raw - pan.x.raw == press.mouse.x.raw - from.x.raw
            &&& d.pan.y.raw - pan.y.raw == press.mouse.y.raw - from.y.raw
            &&& d == (CanvasView { pan: d.pan, ..c })
        }),
{
}

/// What is dragged does not attract itself.
pub proof fn law_dragged_layers_do_not_attract<S>(
    starts: Seq<(LayerId, Pos2<S>)>,
    start_doc: Pos2<S>,
    i: int,
    id: LayerId,
    handle: Handle,
    offset: Vec2<S>,
)
    requires
        0 <= i < starts.len(),
    ensures
        excluded(DragView::MovingSelection { start_doc, starts }).contains(starts[i].0),
        excluded(DragView::ResizingLine { id, handle, parent_offset: offset }) == seq![id],
        excluded(DragView::<S>::Idle).len() == 0,
{
    assert(excluded(DragView::MovingSelection { start_doc, starts })[i] == starts[i].0);
}

/// Layers that are dragged go as far as the pointer does, each from where it began; where nothing
/// attracts them, and without Shift.
pub proof fn law_dragged_layers_go_with_the_pointer(
    c: CanvasView<Fixed>,
    page: PageView<Fixed>,
    press: Press<Fixed>,
    from: Pos2<Fixed>,
    starts: Seq<(LayerId, Pos2<Fixed>)>,
    i: int,
)
    requires
        c.drag == (DragView::MovingSelection { start_doc: from, starts }),
        !c.snap_enabled,
        !press.modifiers.shift,
        0 <= i < starts.len(),
        forall|j: int, k: int|
            0 <= j < k < starts.len() ==> (#[trigger] starts[j]).0 != (#[trigger] starts[k]).0,
        near_point(from),
        near_point(c.to_doc(press.origin, press.mouse)),
        -0x2000_0000 <= starts[i].1.x.raw <= 0x2000_0000,
        -0x2000_0000 <= starts[i].1.y.raw <= 0x2000_0000,
        find(page.layers, starts[i].0) is Some,
    ensures
        ({
            let v = find(page.layers, starts[i].0)->0;
            let p = c.to_doc(press.origin, press.mouse);
            &&& find(layers_dragged(c, page, press), starts[i].0) matches Some(w)
            &&& w.frame.pos.x.raw - starts[i].1.x.raw == p.x.raw - from.x.raw
            &&& w.frame.pos.y.raw - starts[i].1.y.raw == p.y.raw - from.y.raw
            &&& w.frame.size == v.frame.size && w.frame.rotation == v.frame.rotation && w.kind
                == v.kind && w.style == v.style
        }),
{
    let p = c.to_doc(press.origin, press.mouse);
    let by = moved_by(c, page, from, starts, p, false).0;
    assert(by == p.spec_from(from));
    let targets = shifted(starts, by);
    assert forall|j: int, k: int| 0 <= j < k < targets.len() implies (#[trigger] targets[j]).0 != (
    #[trigger] targets[k]).0 by {
        assert(starts[j].0 != starts[k].0);
    }
    lemma_put(page.layers, targets, i);
    assert(targets[i].0 == starts[i].0);
}

/// The end of a line that is dragged goes to the pointer, where nothing attracts it; the rest of the page
/// stays as it is, apart from what holds the line.
pub proof fn law_dragged_ends_go_to_the_pointer<S: Scalar>(
    c: CanvasView<S>,
    page: PageView<S>,
    press: Press<S>,
    id: LayerId,
    handle: Handle,
    offset: Vec2<S>,
    other: LayerId,
)
    requires
        c.drag == (DragView::ResizingLine { id, handle, parent_offset: offset }),
        !c.snap_enabled,
        other != id,
    ensures
        ({
            let p = c.to_doc(press.origin, press.mouse);
            let t = layers_dragged(c, page, press);
            &&& find(page.layers, id) matches Some(v) ==> find(t, id) == Some(
                end_moved(v, handle, p.spec_minus(offset)),
            )
            &&& find(page.layers, other) matches Some(v) ==> (find(t, other) matches Some(w) && w
                == v.with_children(w.children))
        }),
{
    let p = c.to_doc(press.origin, press.mouse);
    let f = |v: LayerView<S>| end_moved(v, handle, p.spec_minus(offset));
    assert(is_shallow(f)) by {
        assert forall|v: LayerView<S>, k: Seq<LayerView<S>>| #[trigger]
            f(v.with_children(k)) == f(v).with_children(k) by {}
    }
    let at = snapped_drag(c, page, p).0;
    assert(at == p);
    let t = layers_dragged(c, page, press);
    assert(t == with_layer(page.layers, id, f));
    lemma_changed_layer(page.layers, id, f, id);
    lemma_changed_layer(page.layers, id, f, other);
}

/// A handle that is dragged ends under the pointer: as far from its anchor as the pointer is.
pub proof fn law_dragged_handles_go_to_the_pointer(
    v: LayerView<Fixed>,
    points: Seq<PathPoint<Fixed>>,
    closed: bool,
    offset: Vec2<Fixed>,
    i: int,
    p: Pos2<Fixed>,
)
    requires
        v.kind == (KindView::Path { points, closed }),
        0 <= i < points.len(),
        near_point(p),
        near_point(v.frame.pos.spec_plus(offset).spec_plus(points[i].anchor.spec_to_vec2())),
    ensures
        ({
            let anchor = v.frame.pos.spec_plus(offset).spec_plus(points[i].anchor.spec_to_vec2());
            let a = handle_dragged(v, offset, i, HandleSide::In, p);
            let b = handle_dragged(v, offset, i, HandleSide::Out, p);
            &&& a.kind matches KindView::Path { points: q, .. } && q[i].anchor == points[i].anchor && (
            q[i].handle_in matches Some(h) && anchor.spec_plus(h) == p)
            &&& b.kind matches KindView::Path { points: q, .. } && q[i].anchor == points[i].anchor && (
            q[i].handle_out matches Some(h) && anchor.spec_plus(h) == p)
            &&& a.frame == v.frame && b.frame == v.frame
        }),
{
}

/// A drag that is about the view, the selection or a new shape changes no layer.
pub proof fn law_other_drags_change_no_layer<S: Scalar>(
    c: CanvasView<S>,
    page: PageView<S>,
    press: Press<S>,
)
    requires
        c.drag is Idle || c.drag is PanningView || c.drag is CreatingShape || c.drag is Marquee
            || c.drag is MarqueePoints || c.drag is CreatingGuide || c.drag is MovingGuide
            || c.drag is ImageEditDrag || c.drag is DrawingPenHandle,
    ensures
        layers_dragged(c, page, press) == page.layers,
{
}

/// One layer is resized in its own turn, several upright; the one factor for strokes and corners is the
/// mean of both axes.
pub proof fn law_what_a_resize_goes_by(
    layers: Seq<ResizeInfoView<Fixed>>,
    map: Rescale<Fixed>,
)
    requires
        near(map.scale.x) && near(map.scale.y),
    ensures
        layers.len() == 1 ==> resize_turn(layers) == layers[0].original_rotation,
        layers.len() != 1 ==> resize_turn(layers).raw == 0,
        map.scale.x.raw >= 0 && map.scale.y.raw >= 0 ==> uniform_factor(map).raw == (
        map.scale.x.raw + map.scale.y.raw) / 2,
        map.scale.x == map.scale.y && map.scale.x.raw >= 0 ==> uniform_factor(map) == map.scale.x,
{
    assert(Fixed::spec_ratio(0, 1).raw == 0);
    if map.scale.x.raw >= 0 && map.scale.y.raw >= 0 {
        crate::plane::lemma_halved(map.scale.x, map.scale.y);
    }
}

/// While a line is drawn it is shown as a line from where the drag began to where it is, anything else as
/// a box between the two; so is a rubber band.
pub proof fn law_drafts_are_shown<S: Scalar>(a: Pos2<S>, b: Pos2<S>)
    ensures
        draft_marks(Tool::Line, a, b).len() == 1,
        draft_marks(Tool::Line, a, b)[0] matches Mark::Line { from, to, .. } && from == a && to == b,
        draft_marks(Tool::Arrow, a, b) == draft_marks(Tool::Line, a, b),
        draft_marks(Tool::Rectangle, a, b).len() == 1,
        draft_marks(Tool::Rectangle, a, b)[0] matches Mark::Panel { rect, .. } && rect
            == Rect::spec_from_two_pos(a, b),
        band_mark(a, b) matches Mark::Panel { rect, .. } && rect == Rect::spec_from_two_pos(a, b),
{
}

/// A command does what it is named for.
pub proof fn law_commands_do_what_they_name<S: Scalar>(s: Session<S>)
    ensures
        commanded(s, Command::Undo) == (Session { history: s.history.after_undo(), ..s }),
        commanded(s, Command::Redo) == (Session { history: s.history.after_redo(), ..s }),
        commanded(s, Command::Group) == selection_grouped(s),
        commanded(s, Command::Ungroup) == selection_ungrouped(s),
        commanded(s, Command::Duplicate { below: false }) == selection_copied(s, false),
        commanded(s, Command::Duplicate { below: true }) == selection_copied(s, true),
        commanded(s, Command::SelectSiblings) == siblings_selected(s),
        commanded(s, Command::ToggleMask) == selection_edited(s, EditView::ToggleMask),
        commanded(s, Command::ClearSelection).selection.len() == 0,
        commanded(s, Command::ClearSelection).history == s.history,
        commanded(s, Command::ToggleAspectLock).canvas.aspect_locked == !s.canvas.aspect_locked,
        commanded(s, Command::Enter) == entered(s),
        commanded(s, Command::Delete) == delete_pressed(s),
        s.selection.len() > 0 ==> commanded(s, Command::Scale).canvas.scaling == Some(s.selection),
        s.selection.len() == 0 ==> commanded(s, Command::Scale) == s,
        commanded(s, Command::Copy) == s,
        commanded(s, Command::Export) == s,
{
    reveal(commanded);
}

/// A nudge moves the selected layers, or resizes them with Command; while points are selected it is not
/// for layers.
pub proof fn law_nudges<S: Scalar>(s: Session<S>, dx: i32, dy: i32)
    ensures
        s.canvas.selected_points.len() > 0 ==> nudged(s, dx, dy, false) == s && nudged(
            s,
            dx,
            dy,
            true,
        ) == s,
        s.canvas.selected_points.len() == 0 ==> nudged(s, dx, dy, false) == selection_edited(
            s,
            EditView::Move(crate::shortcuts::nudge(dx, dy)),
        ),
        s.canvas.selected_points.len() == 0 ==> nudged(s, dx, dy, true) == selection_edited(
            s,
            EditView::Resize(crate::shortcuts::nudge(dx, dy)),
        ),
{
}

/// A command that needs layers does nothing where too few are selected: one to edit, copy or delete, two
/// to group, align or tidy, three to distribute, one alone to ungroup.
pub proof fn law_too_few_layers<S: Scalar>(
    s: Session<S>,
    edit: EditView<S>,
    edge: crate::alignment::AlignEdge,
    axis: crate::alignment::DistributeAxis,
    spacing: S,
    below: bool,
)
    ensures
        s.selection.len() == 0 ==> selection_edited(s, edit) == s && selection_copied(s, below) == s
            && selection_deleted(s) == s,
        s.selection.len() < 2 ==> selection_grouped(s) == s && selection_aligned(s, edge, false) == s
            && selection_tidied(s, spacing) == s,
        s.selection.len() < 3 ==> selection_distributed(s, axis) == s,
        s.selection.len() != 1 ==> selection_ungrouped(s) == s,
        s.selection.len() >= 3 ==> selection_distributed(s, axis).canvas.last_distributed == Some(
            (s.selection, axis),
        ),
{
}

/// A new artboard of a given size is on the page behind nothing, selected alone, and the tool is put back.
pub proof fn law_new_artboards_are_selected<S: Scalar>(s: Session<S>, size: Vec2<S>)
    requires
        s.history.current.wf(),
    ensures
        ({
            let t = preset_inserted(s, size);
            let all = t.history.layers();
            &&& t.selection == seq![s.next as u64] && t.tool == Tool::Select && t.next == s.next + 1
            &&& all.drop_last() == s.history.layers()
            &&& all.last().kind is Artboard && all.last().frame.size == size && all.last().id
                == s.next as u64 && all.last().frame.pos == crate::edits::insert_anchor(
                s.history.layers(),
            )
        }),
{
    let t = preset_inserted(s, size);
    assert(t.history.layers().drop_last() =~= s.history.layers());
}

/// Where a layer is found it has a place on the page, and only there.
pub proof fn law_found_layers_have_a_place<S: Scalar>(
    s: Seq<LayerView<S>>,
    id: LayerId,
    outer: Vec2<S>,
)
    ensures
        offset_of(s, id, outer) is Some <==> find(s, id) is Some,
    decreases s,
{
    if s.len() > 0 && s[0].id != id {
        law_found_layers_have_a_place(
            s[0].children,
            id,
            outer.spec_plus(s[0].frame.pos.spec_to_vec2()),
        );
        law_found_layers_have_a_place(s.drop_first(), id, outer);
    }
}

/// A layer of the page itself is as far from its corner as its frame says; a member of a layer as far as
/// that layer is, farther.
pub proof fn law_places_add_up<S: Scalar>(
    s: Seq<LayerView<S>>,
    v: LayerView<S>,
    id: LayerId,
    outer: Vec2<S>,
)
    requires
        v.id != id,
        find(v.children, id) is Some,
    ensures
        offset_of(seq![v] + s, v.id, outer) == Some(outer),
        offset_of(seq![v] + s, id, outer) == offset_of(
            v.children,
            id,
            (Vec2 {
                x: outer.x.spec_plus(v.frame.pos.x),
                y: outer.y.spec_plus(v.frame.pos.y),
            }),
        ),
{
    let t = seq![v] + s;
    assert(t[0] == v);
    law_found_layers_have_a_place(
        v.children,
        id,
        outer.spec_plus(v.frame.pos.spec_to_vec2()),
    );
}

/// A layer is found on the first page that holds it.
pub proof fn law_the_first_page_that_holds_it<S>(
    pages: Seq<PageView<S>>,
    id: LayerId,
    k: nat,
    j: int,
)
    requires
        k <= j < pages.len(),
        find(pages[j].layers, id) is Some,
        forall|i: int| k <= i < j ==> find((#[trigger] pages[i]).layers, id) is None,
    ensures
        find_from(pages, id, k) == find(pages[j].layers, id),
    decreases pages.len() - k,
{
    if k < j {
        assert(find(pages[k as int].layers, id) is None);
        law_the_first_page_that_holds_it(pages, id, k + 1, j);
    }
}

/// Whether a box holds all of some boxes and reaches no farther than they do.
pub open spec fn is_around(all: Rect<Fixed>, boxes: Seq<Rect<Fixed>>) -> bool {
    &&& forall|i: int|
        0 <= i < boxes.len() ==> all.min.x.raw <= (#[trigger] boxes[i]).min.x.raw && all.min.y.raw
            <= boxes[i].min.y.raw && boxes[i].max.x.raw <= all.max.x.raw && boxes[i].max.y.raw
            <= all.max.y.raw
    &&& exists|j: int| 0 <= j < boxes.len() && (#[trigger] boxes[j]).min.x == all.min.x
    &&& exists|j: int| 0 <= j < boxes.len() && (#[trigger] boxes[j]).min.y == all.min.y
    &&& exists|j: int| 0 <= j < boxes.len() && (#[trigger] boxes[j]).max.x == all.max.x
    &&& exists|j: int| 0 <= j < boxes.len() && (#[trigger] boxes[j]).max.y == all.max.y
}

proof fn lemma_is_around(boxes: Seq<Rect<Fixed>>)
    requires
        boxes.len() > 0,
    ensures
        is_around(around(boxes), boxes),
{
    assert forall|i: int| 0 <= i < boxes.len() implies around(boxes).min.x.raw <= (
    #[trigger] boxes[i]).min.x.raw && around(boxes).min.y.raw <= boxes[i].min.y.raw
        && boxes[i].max.x.raw <= around(boxes).max.x.raw && boxes[i].max.y.raw <= around(
        boxes,
    ).max.y.raw by {
        lemma_around(boxes, i);
    }
    lemma_around(boxes, 0);
}

/// The boxes that some layers take up on the page, turned as they are.
pub open spec fn turned_boxes(placed: Seq<(LayerView<Fixed>, Vec2<Fixed>)>) -> Seq<Rect<Fixed>> {
    Seq::new(
        placed.len(),
        |i: int| placed[i].0.frame.spec_rotated_bounds().spec_translate(placed[i].1),
    )
}

/// The box around what is selected, as what is measured from and pasted over, is that around the boxes
/// that the layers take up.
pub proof fn law_boxes_around_turned_layers(placed: Seq<(LayerView<Fixed>, Vec2<Fixed>)>)
    requires
        placed.len() > 0,
    ensures
        is_around(turned_box(placed), turned_boxes(placed)),
        is_around(turned_union(placed), turned_boxes(placed)),
{
    lemma_turned_boxes(placed);
    lemma_is_around(turned_boxes(placed));
}

proof fn lemma_turned_boxes(placed: Seq<(LayerView<Fixed>, Vec2<Fixed>)>)
    requires
        placed.len() > 0,
    ensures
        turned_box(placed) == around(turned_boxes(placed)),
        turned_union(placed) == around(turned_boxes(placed)),
    decreases placed.len(),
{
    if placed.len() > 1 {
        lemma_turned_boxes(placed.drop_last());
        assert(turned_boxes(placed.drop_last()) =~= turned_boxes(placed).drop_last());
    }
}

/// The boxes in which some layers are shown on the page.
pub open spec fn shown_boxes(placed: Seq<(LayerView<Fixed>, Vec2<Fixed>)>) -> Seq<Rect<Fixed>> {
    Seq::new(placed.len(), |i: int| shown_bounds(placed[i].0).spec_translate(placed[i].1))
}

/// The box with the grips is that around the boxes in which the selected layers are shown.
pub proof fn law_grips_are_around_the_selection(placed: Seq<(LayerView<Fixed>, Vec2<Fixed>)>)
    requires
        placed.len() > 0,
    ensures
        is_around(overall_box(placed), shown_boxes(placed)),
{
    lemma_shown_boxes(placed);
    lemma_is_around(shown_boxes(placed));
}

proof fn lemma_shown_boxes(placed: Seq<(LayerView<Fixed>, Vec2<Fixed>)>)
    requires
        placed.len() > 0,
    ensures
        overall_box(placed) == around(shown_boxes(placed)),
    decreases placed.len(),
{
    if placed.len() > 1 {
        lemma_shown_boxes(placed.drop_last());
        assert(shown_boxes(placed.drop_last()) =~= shown_boxes(placed).drop_last());
    }
}

/// The box that a group gets is that around the boxes that its members take up.
pub proof fn law_groups_are_around_their_members(s: Seq<LayerView<Fixed>>)
    requires
        s.len() > 0,
    ensures
        is_around(
            union_bounds(s),
            Seq::new(s.len(), |i: int| s[i].frame.spec_rotated_bounds()),
        ),
{
    lemma_union_bounds(s);
    lemma_is_around(Seq::new(s.len(), |i: int| s[i].frame.spec_rotated_bounds()));
}

proof fn lemma_union_bounds(s: Seq<LayerView<Fixed>>)
    requires
        s.len() > 0,
    ensures
        union_bounds(s) == around(Seq::new(s.len(), |i: int| s[i].frame.spec_rotated_bounds())),
    decreases s.len(),
{
    let boxes = Seq::new(s.len(), |i: int| s[i].frame.spec_rotated_bounds());
    if s.len() > 1 {
        let t = s.drop_last();
        lemma_union_bounds(t);
        assert(Seq::new(t.len(), |i: int| t[i].frame.spec_rotated_bounds()) =~= boxes.drop_last());
    }
}

/// The box of what is pasted is that around the frames of the layers.
pub proof fn law_pasted_boxes_are_around(s: Seq<LayerView<Fixed>>)
    requires
        s.len() > 0,
    ensures
        is_around(frame_union(s), Seq::new(s.len(), |i: int| s[i].frame.spec_bounds())),
{
    lemma_frame_union(s);
    lemma_is_around(Seq::new(s.len(), |i: int| s[i].frame.spec_bounds()));
}

proof fn lemma_frame_union(s: Seq<LayerView<Fixed>>)
    requires
        s.len() > 0,
    ensures
        frame_union(s) == around(Seq::new(s.len(), |i: int| s[i].frame.spec_bounds())),
    decreases s.len(),
{
    let boxes = Seq::new(s.len(), |i: int| s[i].frame.spec_bounds());
    if s.len() > 1 {
        let t = s.drop_last();
        lemma_frame_union(t);
        assert(Seq::new(t.len(), |i: int| t[i].frame.spec_bounds()) =~= boxes.drop_last());
    }
}

/// The box that a resize starts from is that around the boxes of what is resized.
pub proof fn law_a_resize_starts_from_all(leaves: Seq<ResizeInfoView<Fixed>>)
    requires
        leaves.len() > 0,
    ensures
        is_around(leaves_box(leaves), Seq::new(leaves.len(), |i: int| leaves[i].abs_bounds)),
{
    lemma_leaves_box(leaves);
    lemma_is_around(Seq::new(leaves.len(), |i: int| leaves[i].abs_bounds));
}

proof fn lemma_leaves_box(leaves: Seq<ResizeInfoView<Fixed>>)
    requires
        leaves.len() > 0,
    ensures
        leaves_box(leaves) == around(Seq::new(leaves.len(), |i: int| leaves[i].abs_bounds)),
    decreases leaves.len(),
{
    let boxes = Seq::new(leaves.len(), |i: int| leaves[i].abs_bounds);
    if leaves.len() > 1 {
        let t = leaves.drop_last();
        lemma_leaves_box(t);
        assert(Seq::new(t.len(), |i: int| t[i].abs_bounds) =~= boxes.drop_last());
    }
}

/// A layer is selected for a drag with its place on the page, where it is there.
pub proof fn law_selected_layers_have_their_place<S: Scalar>(
    s: Seq<LayerView<S>>,
    ids: Seq<LayerId>,
    id: LayerId,
)
    ensures
        find(s, id) is None ==> placed_layers(s, ids.push(id)) == placed_layers(s, ids),
        find(s, id) matches Some(v) ==> placed_layers(s, ids.push(id)) == placed_layers(s, ids).push(
            (v, offset_of(s, id, Vec2::spec_zero())->0),
        ),
{
    assert(ids.push(id).drop_last() =~= ids);
    law_found_layers_have_a_place(s, id, Vec2::spec_zero());
}

/// How near the pointer must be: eight pixels.
pub proof fn law_eight_pixels_are_near(p: Pos2<Fixed>, q: Pos2<Fixed>)
    ensures
        crate::hover::near(Some(p), q) <==> p.spec_distance(q).raw <= 8 * 65536,
        crate::hover::near(None, q) == false,
{
    assert(Fixed::spec_ratio(8, 1).raw == 8 * 65536);
}

/// The grip under the pointer is one that the pointer is near to; none where it is near to none.
pub proof fn law_grips_under_the_pointer<S: Scalar>(
    b: Rect<S>,
    turn: S,
    p: Option<Pos2<S>>,
    k: nat,
    i: int,
)
    requires
        0 <= i < k <= 8,
    ensures
        grip_under(b, turn, p, k) matches Some(h) ==> crate::hover::near(
            p,
            h.spec_pos(b).spec_rotated(b.spec_center(), turn),
        ),
        grip_under(b, turn, p, k) is None ==> !crate::hover::near(
            p,
            Handle::spec_all()[i].spec_pos(b).spec_rotated(b.spec_center(), turn),
        ),
        corner_near(b, turn, p, k) matches Some(h) ==> h.spec_is_corner() && !crate::hover::near(
            p,
            h.spec_pos(b).spec_rotated(b.spec_center(), turn),
        ) && (p matches Some(m) && m.spec_distance(
            h.spec_pos(b).spec_rotated(b.spec_center(), turn),
        ).spec_le(S::spec_ratio(20, 1))),
    decreases k,
{
    let j = (k - 1) as nat;
    if j > 0 {
        law_grips_under_the_pointer(b, turn, p, j, if i < j {
            i
        } else {
            0
        });
    } else {
        assert(grip_under(b, turn, p, 0) is None);
        assert(corner_near(b, turn, p, 0) is None);
    }
}

/// The grips of a selection are shown where they are, all eight of them.
pub proof fn law_grips_are_shown<S: Scalar>(b: Rect<S>, turn: S, k: nat, i: int)
    requires
        0 <= i < k <= 8,
    ensures
        grip_marks(b, turn, k).len() == k,
        grip_marks(b, turn, k)[i] matches Mark::Knob { center, .. } && center
            == Handle::spec_all()[i].spec_pos(b).spec_rotated(b.spec_center(), turn),
    decreases k,
{
    let j = (k - 1) as nat;
    if j > 0 {
        law_grips_are_shown(b, turn, j, if i < j {
            i
        } else {
            0
        });
    } else {
        assert(grip_marks(b, turn, 0).len() == 0);
    }
}

/// The part of a path under the pointer: an anchor or a handle that the pointer is near to, and none where
/// it is near to no anchor.
pub proof fn law_points_under_the_pointer<S: Scalar>(
    c: CanvasView<S>,
    origin: Pos2<S>,
    pos: Pos2<S>,
    outer: Vec2<S>,
    points: Seq<PathPoint<S>>,
    p: Option<Pos2<S>>,
    k: nat,
    i: int,
)
    requires
        0 <= i < k <= points.len() <= usize::MAX,
    ensures
        ({
            let r = point_under(c, origin, pos, outer, points, p, k);
            &&& r matches Some((j, part)) ==> j < k && (match part {
                PathPart::Anchor => crate::hover::near(
                    p,
                    point_on_screen(c, origin, pos, outer, points[j as int], None),
                ),
                PathPart::HandleIn => points[j as int].handle_in is Some && crate::hover::near(
                    p,
                    point_on_screen(
                        c,
                        origin,
                        pos,
                        outer,
                        points[j as int],
                        points[j as int].handle_in,
                    ),
                ),
                PathPart::HandleOut => points[j as int].handle_out is Some && crate::hover::near(
                    p,
                    point_on_screen(
                        c,
                        origin,
                        pos,
                        outer,
                        points[j as int],
                        points[j as int].handle_out,
                    ),
                ),
            })
            &&& r is None ==> !crate::hover::near(
                p,
                point_on_screen(c, origin, pos, outer, points[i], None),
            )
        }),
    decreases k,
{
    let j = (k - 1) as nat;
    if j > 0 {
        law_points_under_the_pointer(c, origin, pos, outer, points, p, j, if i < j {
            i
        } else {
            0
        });
    } else {
        assert(point_under(c, origin, pos, outer, points, p, 0) is None);
    }
}

/// A point of a path is shown where its layer, the layers around it and the point itself say; a handle as
/// far from it as it is long.
pub proof fn law_points_are_shown_in_place<S: Scalar>(
    c: CanvasView<S>,
    origin: Pos2<S>,
    pos: Pos2<S>,
    outer: Vec2<S>,
    p: PathPoint<S>,
    h: Vec2<S>,
)
    ensures
        ({
            let at = Pos2 {
                x: p.anchor.x.spec_plus(pos.x).spec_plus(outer.x),
                y: p.anchor.y.spec_plus(pos.y).spec_plus(outer.y),
            };
            &&& point_on_screen(c, origin, pos, outer, p, None) == c.to_screen(origin, at)
            &&& point_on_screen(c, origin, pos, outer, p, Some(h)) == c.to_screen(
                origin,
                at.spec_plus(h),
            )
        }),
{
}

} // verus!
