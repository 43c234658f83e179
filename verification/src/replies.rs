//! How the canvas and the panels answer: presses on marks, clicks, keys and what is picked in a panel.
use vstd::prelude::*;

use crate::app::{first_fill, selection_edited};
use crate::canvas::{
    selected_path, CanvasView, DragView, HandleSide, PathAt, PathPart, Session,
};
use crate::clicks::{
    double_clicked, pen_clicked, pen_keyed, point_clicked, right_clicked, settled, Click,
};
use crate::color::Color32;
use crate::document::Guide;
use crate::edits::EditView;
use crate::fixed::Fixed;
use crate::geometry::{Pos2, Rect, Vec2};
use crate::hit_test::stacked;
use crate::hover::{
    cursor_over, hovered, is_single_line, is_single_path, line_ends, measured_boxes, outline_mark,
    overall_box, placed_layers, selection_marks, turned_box, Cursor, HoverView,
};
use crate::marks::{Ink, Mark};
use crate::model::{Frame, LayerId, LayerView, PathPoint, PointType};
use crate::panel_actions::{palette_acted, PaletteAction};
use crate::path_edit::corner_at;
use crate::placement::Tool;
use crate::plane::{lemma_unturned, near_point};
use crate::point_editing::{
    anchor_under, on_first_pen_point, pen_finished, points_deleted, with_new_corner,
    with_point_removed,
};
use crate::press::{
    band_pressed, corner_pressed, grip_pressed, leaves_box, point_pressed, points_taken,
    stretching_leaves, turning_leaves, Modifiers,
};
use crate::scalar::Scalar;
use crate::transform::Handle;
use crate::tree::find;

verus! {

/// The ends of an upright line are shown where its frame begins and ends.
pub proof fn law_ends_of_lines_are_shown(
    c: CanvasView<Fixed>,
    origin: Pos2<Fixed>,
    f: Frame<Fixed>,
    outer: Vec2<Fixed>,
)
    requires
        f.rotation.raw == 0,
        near_point(c.to_screen(origin, f.pos.spec_plus(outer))),
        near_point(c.to_screen(origin, f.spec_end().spec_plus(outer))),
        near_point(c.to_screen(origin, f.spec_bounds().spec_translate(outer).spec_center())),
    ensures
        line_ends(c, origin, f, outer).0 == c.to_screen(origin, f.pos.spec_plus(outer)),
        line_ends(c, origin, f, outer).1 == c.to_screen(
            origin,
            f.pos.spec_plus(f.size).spec_plus(outer),
        ),
{
    let m = c.to_screen(origin, f.spec_bounds().spec_translate(outer).spec_center());
    assert(f.rotation == Fixed { raw: 0 });
    lemma_unturned(c.to_screen(origin, f.pos.spec_plus(outer)), m);
    lemma_unturned(c.to_screen(origin, f.spec_end().spec_plus(outer)), m);
}

/// Near the end of the one selected line its end is taken, near its beginning its beginning; a path has
/// no grips, and neither has nothing.
pub proof fn law_grips_of_lines<S: Scalar>(
    c: CanvasView<S>,
    s: Seq<LayerView<S>>,
    tool: Tool,
    selection: Seq<LayerId>,
    origin: Pos2<S>,
    p: Option<Pos2<S>>,
)
    ensures
        ({
            let placed = placed_layers(s, selection);
            let h = hovered(c, s, tool, selection, origin, p);
            let ends = line_ends(c, origin, placed[0].0.frame, placed[0].1);
            &&& is_single_line(placed) && crate::hover::near(p, ends.1) ==> h.handle == Some(
                Handle::BottomRight,
            )
            &&& is_single_line(placed) && !crate::hover::near(p, ends.1) && crate::hover::near(
                p,
                ends.0,
            ) ==> h.handle == Some(Handle::TopLeft)
            &&& is_single_line(placed) && !crate::hover::near(p, ends.1) && !crate::hover::near(
                p,
                ends.0,
            ) ==> h.handle is None
            &&& is_single_path(placed) || placed.len() == 0 ==> h.handle is None
                && h.rotate_corner is None
            &&& !is_single_path(placed) ==> h.point is None
        }),
{
    reveal(hovered);
}

/// A press on a grip begins a resize by that grip: of the line's end, or of all that is selected from the
/// box around it.
pub proof fn law_grips_begin_a_resize<S: Scalar>(s: Session<S>, handle: Handle)
    ensures
        ({
            let placed = placed_layers(s.history.layers(), s.selection);
            let leaves = stretching_leaves(placed);
            let t = grip_pressed(s, handle);
            &&& is_single_line(placed) ==> (t.canvas.drag matches DragView::ResizingLine {
                id,
                handle: h,
                ..
            } && id == s.selection[0] && h == handle)
            &&& !is_single_line(placed) && leaves.len() > 0 ==> (
            t.canvas.drag matches DragView::ResizingGroup {
                handle: h,
                start_overall_bounds,
                layers,
                scale_style,
                scale_anchor,
            } && h == handle && start_overall_bounds == leaves_box(leaves) && layers == leaves
                && scale_style == (s.canvas.scaling is Some) && scale_anchor
                == s.canvas.scale_anchor)
            &&& !is_single_line(placed) && leaves.len() == 0 ==> t == s
            &&& t.selection == s.selection && t.tool == s.tool
        }),
{
    reveal(grip_pressed);
}

/// A press beside a corner begins a turn about the middle of what is selected, from where the press is.
pub proof fn law_corners_begin_a_turn<S: Scalar>(s: Session<S>, p: Pos2<S>)
    ensures
        ({
            let placed = placed_layers(s.history.layers(), s.selection);
            let leaves = turning_leaves(placed);
            let t = corner_pressed(s, p);
            &&& placed.len() > 0 && leaves.len() > 0 ==> (t.canvas.drag matches DragView::Rotating {
                pivot,
                start_angle,
                leaves: l,
            } && pivot == overall_box(placed).spec_center() && start_angle == p.spec_from(
                pivot,
            ).spec_angle() && l == leaves)
            &&& placed.len() == 0 || leaves.len() == 0 ==> t == s
        }),
{
    reveal(corner_pressed);
}

/// A press on a point of a path takes hold of what it is on: the picked anchors from where they are, or the
/// handle on its own side.
pub proof fn law_points_are_taken_hold_of<S: Scalar>(
    s: Session<S>,
    i: usize,
    p: Pos2<S>,
    shift: bool,
)
    ensures
        ({
            let a = point_pressed(s, (i, PathPart::Anchor), p, shift).canvas;
            let v = placed_layers(s.history.layers(), s.selection)[0].0;
            &&& a.selected_points == points_taken(s.canvas.selected_points, i, shift)
            &&& a.drag matches DragView::EditingPathAnchor {
                layer_id,
                point_indices,
                start_doc,
                start_anchors,
            } && layer_id == v.id && point_indices == a.selected_points && start_doc == p
                && start_anchors.len() == point_indices.len()
        }),
        point_pressed(s, (i, PathPart::HandleIn), p, shift).canvas.drag matches
            DragView::EditingPathHandle { point_index, side, .. } && point_index == i && side
            == HandleSide::In,
        point_pressed(s, (i, PathPart::HandleOut), p, shift).canvas.drag matches
            DragView::EditingPathHandle { point_index, side, .. } && point_index == i && side
            == HandleSide::Out,
{
    reveal(point_pressed);
}

/// A band for points keeps those that are selected where Shift is held, and begins where the press is.
pub proof fn law_bands_for_points<S: Scalar>(s: Session<S>, p: Pos2<S>)
    ensures
        band_pressed(s, p, true).canvas.selected_points == s.canvas.selected_points,
        band_pressed(s, p, false).canvas.selected_points.len() == 0,
        band_pressed(s, p, true).canvas.drag matches DragView::MarqueePoints {
            start_doc,
            additive,
            ..
        } && start_doc == p && additive,
        band_pressed(s, p, false).canvas.drag matches DragView::MarqueePoints {
            start_doc,
            additive,
            ..
        } && start_doc == p && !additive,
        band_pressed(s, p, true).history == s.history,
{
    reveal(band_pressed);
}

/// A double click on a text edits it and selects it; with another tool, or on nothing, it does nothing.
pub proof fn law_double_clicks_edit_texts<S: Scalar>(s: Session<S>, id: LayerId, v: LayerView<S>)
    requires
        find(s.history.layers(), id) == Some(v),
        v.kind is Text,
    ensures
        s.tool == Tool::Select ==> double_clicked(s, Some(id)).selection == seq![id],
        s.tool == Tool::Select ==> double_clicked(s, Some(id)).canvas.editing_text == Some(id),
        s.tool == Tool::Select ==> double_clicked(s, Some(id)).history.layers()
            == s.history.layers(),
        s.tool != Tool::Select ==> double_clicked(s, Some(id)) == s,
        double_clicked(s, None) == s,
{
}

/// A right click opens one menu: for points on an anchor, with Shift that of all layers under it, else that
/// of the canvas; with another tool than the arrow none.
pub proof fn law_right_clicks_open_one_menu<S: Scalar>(
    c: CanvasView<S>,
    s: Seq<LayerView<S>>,
    tool: Tool,
    selection: Seq<LayerId>,
    at: Pos2<S>,
    origin: Pos2<S>,
)
    ensures
        tool != Tool::Select ==> right_clicked(c, s, tool, selection, at, origin, false) == c,
        tool == Tool::Select && anchor_under(c, s, selection, origin, at) is None ==> ({
            let d = right_clicked(c, s, tool, selection, at, origin, false);
            let e = right_clicked(c, s, tool, selection, at, origin, true);
            let hits = stacked(s, Vec2::spec_zero(), c.to_doc(origin, at));
            &&& d.canvas_menu == Some(at) && d.overlap_menu is None && d.point_type_menu is None
            &&& e.canvas_menu is None && e.point_type_menu is None
            &&& hits.len() == 0 ==> e.overlap_menu is None
            &&& hits.len() > 0 ==> e.overlap_menu == Some((at, hits))
        }),
        tool == Tool::Select ==> (anchor_under(c, s, selection, origin, at) matches Some(k) ==> ({
            let d = right_clicked(c, s, tool, selection, at, origin, false);
            &&& d.point_type_menu == Some((at, selection[0])) && d.canvas_menu is None
                && d.overlap_menu is None
            &&& d.selected_points.contains(k as usize)
        })),
{
    if let Some(k) = anchor_under(c, s, selection, origin, at) {
        assert(seq![k as usize][0] == k as usize);
    }
}

/// Escape ends the editing of points and of an image; so does selecting something else.
pub proof fn law_escape_ends_editing<S: Scalar>(
    c: CanvasView<S>,
    s: Seq<LayerView<S>>,
    tool: Tool,
    selection: Seq<LayerId>,
)
    ensures
        settled(c, s, tool, selection, true).selected_points.len() == 0,
        settled(c, s, tool, selection, true).image_edit is None,
        selection.len() != 1 || tool != Tool::Select ==> settled(
            c,
            s,
            tool,
            selection,
            false,
        ).point_edit_layer is None,
        settled(c, s, tool, selection, false).pan == c.pan,
        settled(c, s, tool, selection, false).zoom == c.zoom,
{
}

/// While a path is drawn Enter puts it on the page, open, and Escape drops it; picking another tool puts it
/// on the page too.
pub proof fn law_keys_end_the_pen<S: Scalar>(s: Session<S>)
    requires
        s.canvas.pen is Some,
    ensures
        s.tool == Tool::Pen ==> pen_keyed(s, true, false) == pen_finished(s, false),
        s.tool == Tool::Pen ==> pen_keyed(s, false, true).canvas.pen is None && pen_keyed(
            s,
            false,
            true,
        ).history == s.history,
        s.tool == Tool::Pen ==> pen_keyed(s, false, false) == s,
        s.tool != Tool::Pen ==> pen_keyed(s, false, false) == pen_finished(s, false),
{
    crate::gestures::law_finished_paths(s, false);
}

/// A click with the pen adds a corner where it is; a double click puts the path on the page, open, and one
/// on the first point closed.
pub proof fn law_clicks_with_the_pen<S: Scalar>(s: Session<S>, p: Pos2<S>, origin: Pos2<S>)
    ensures
        s.tool != Tool::Pen ==> pen_clicked(s, Click::Single, p, origin) == s,
        s.tool == Tool::Pen ==> pen_clicked(s, Click::Double, p, origin) == pen_finished(s, false),
        s.tool == Tool::Pen && on_first_pen_point(s.canvas, p, origin) ==> pen_clicked(
            s,
            Click::Single,
            p,
            origin,
        ) == pen_finished(s, true),
        s.tool == Tool::Pen && !on_first_pen_point(s.canvas, p, origin) ==> (pen_clicked(
            s,
            Click::Single,
            p,
            origin,
        ).canvas.pen matches Some(points) && points.len() > 0 && points.last().anchor == p
            && points.last().point_type == PointType::Straight && (s.canvas.pen matches Some(before)
            ==> points.drop_last() == before)),
{
    if let Some(before) = s.canvas.pen {
        assert(before.push(crate::press::pen_point(p, PointType::Straight)).drop_last() =~= before);
    }
}

/// A click on an anchor selects it alone, with Shift it is toggled; a click on a handle or with Alt changes
/// no selection.
pub proof fn law_clicks_on_points<S>(
    selected: Seq<usize>,
    hover: HoverView<S>,
    i: usize,
    part: PathPart,
    modifiers: Modifiers,
)
    requires
        hover.point == Some((i, part)),
    ensures
        part == PathPart::Anchor && !modifiers.alt && !modifiers.shift ==> point_clicked(
            selected,
            Tool::Select,
            hover,
            Click::Single,
            modifiers,
        ) == seq![i],
        part == PathPart::Anchor && !modifiers.alt && modifiers.shift ==> point_clicked(
            selected,
            Tool::Select,
            hover,
            Click::Single,
            modifiers,
        ) == crate::clicks::point_toggled(selected, i),
        part != PathPart::Anchor || modifiers.alt ==> point_clicked(
            selected,
            Tool::Select,
            hover,
            Click::Single,
            modifiers,
        ) == selected,
{
}

/// A corner that is put on a path is where the click is, between the two points of the nearest stretch; the
/// other points stay.
pub proof fn law_new_corners_are_where_the_click_is(
    p: PathAt<Fixed>,
    doc_pos: Pos2<Fixed>,
    points: Seq<PathPoint<Fixed>>,
    k: int,
)
    requires
        near_point(doc_pos),
        -0x1000_0000 <= p.pos.x.raw <= 0x1000_0000 && -0x1000_0000 <= p.pos.y.raw <= 0x1000_0000,
        -0x1000_0000 <= p.outer.x.raw <= 0x1000_0000 && -0x1000_0000 <= p.outer.y.raw <= 0x1000_0000,
        0 <= k < points.len(),
    ensures
        ({
            let q = corner_at(doc_pos.spec_minus(p.pos.spec_to_vec2()).spec_minus(p.outer));
            let all = points.insert(k + 1, q);
            &&& q.anchor.spec_plus(p.pos.spec_to_vec2()).spec_plus(p.outer) == doc_pos
            &&& q.handle_in is None && q.handle_out is None && q.corner_radius.raw == 0
            &&& all[k] == points[k] && all[k + 1] == q && (k + 1 < points.len() ==> all[k + 2]
                == points[k + 1])
        }),
{
    assert(Fixed::spec_ratio(0, 1).raw == 0);
}

/// A path of two points loses none to a click; a layer whose picked points leave fewer than two behind goes
/// with them.
pub proof fn law_paths_keep_two_points<S: Scalar>(
    c: CanvasView<S>,
    s: Seq<LayerView<S>>,
    selection: Seq<LayerId>,
    doc_pos: Pos2<S>,
    origin: Pos2<S>,
)
    ensures
        selected_path(s, selection) matches Some(p) ==> p.points.len() <= 2 ==> with_point_removed(
            c,
            s,
            selection,
            doc_pos,
            origin,
        ) is None,
        selected_path(s, selection) is None ==> with_point_removed(c, s, selection, doc_pos, origin)
            is None && with_new_corner(c, s, selection, doc_pos, origin) is None,
        c.selected_points.len() == 0 ==> points_deleted(c, s, selection) is None,
        points_deleted(c, s, selection) matches Some((d, t, ids)) ==> d.selected_points.len() == 0,
{
}

/// What marks a selection: nothing where nothing is selected, two grips on a line, and otherwise an outline
/// for each layer, one for all, and eight grips.
pub proof fn law_marks_of_a_selection<S: Scalar>(
    c: CanvasView<S>,
    s: Seq<LayerView<S>>,
    selection: Seq<LayerId>,
    origin: Pos2<S>,
    p: Option<Pos2<S>>,
)
    ensures
        ({
            let placed = placed_layers(s, selection);
            let m = selection_marks(c, s, selection, origin, p);
            let ends = line_ends(c, origin, placed[0].0.frame, placed[0].1);
            &&& placed.len() == 0 ==> m.len() == 0
            &&& is_single_line(placed) ==> m.len() == 2 && (m[0] matches Mark::Knob { center, .. }
                && center == ends.0) && (m[1] matches Mark::Knob { center, .. } && center == ends.1)
            &&& placed.len() > 0 && !is_single_line(placed) && !is_single_path(placed) ==> m.len()
                == placed.len() + 9
        }),
{
    let placed = placed_layers(s, selection);
    lemma_outlines(c, origin, placed, placed.len());
    let b = crate::hover::box_on_screen(c, origin, overall_box(placed));
    crate::dealings::law_grips_are_shown(b, crate::hover::outline_turn(placed), 8, 0);
}

proof fn lemma_outlines<S: Scalar>(
    c: CanvasView<S>,
    origin: Pos2<S>,
    placed: Seq<(LayerView<S>, Vec2<S>)>,
    k: nat,
)
    ensures
        crate::hover::layer_outlines(c, origin, placed, k).len() == k,
    decreases k,
{
    if k > 0 {
        lemma_outlines(c, origin, placed, (k - 1) as nat);
    }
}

/// The outline of an upright box is the box, that of a turned one its four corners, turned about its
/// middle.
pub proof fn law_outlines_turn_with_the_selection(b: Rect<Fixed>, turn: Fixed, w: Fixed, ink: Ink)
    ensures
        turn.raw == 0 ==> outline_mark(b, turn, w, ink) == (Mark::Outline { rect: b, width: w, ink }),
        turn.raw != 0 ==> (outline_mark(b, turn, w, ink) matches Mark::Tilted { a, b: q, c, d, .. }
            && a == b.min.spec_rotated(b.spec_center(), turn) && q == (Pos2 {
            x: b.max.x,
            y: b.min.y,
        }).spec_rotated(b.spec_center(), turn) && c == b.max.spec_rotated(b.spec_center(), turn) && d
            == (Pos2 { x: b.min.x, y: b.max.y }).spec_rotated(b.spec_center(), turn)),
{
}

/// The cursor shows what a press would do: a crosshair with the scissors, a hand with the hand, and over a
/// grip the way in which it is dragged.
pub proof fn law_cursors_show_what_a_press_does<S: Scalar>(
    c: CanvasView<S>,
    guides: Seq<Guide<S>>,
    hover: HoverView<S>,
    origin: Pos2<S>,
    r: Rect<S>,
    p: Option<Pos2<S>>,
    h: Handle,
)
    ensures
        cursor_over(c, guides, Tool::Scissors, hover, origin, r, p) == Some(Cursor::Crosshair),
        cursor_over(c, guides, Tool::Pan, hover, origin, r, p) == Some(Cursor::Grab),
        hover.handle == Some(h) ==> cursor_over(c, guides, Tool::Select, hover, origin, r, p) == Some(
            Cursor::Resize(h.spec_cursor()),
        ),
        hover.handle is None && hover.gap is None && hover.rotate_corner is Some ==> cursor_over(
            c,
            guides,
            Tool::Select,
            hover,
            origin,
            r,
            p,
        ) == Some(Cursor::Crosshair),
{
}

/// What is measured is the way from what is selected to another layer under the pointer, and nothing while
/// something is dragged or with another tool.
pub proof fn law_what_is_measured<S: Scalar>(
    c: CanvasView<S>,
    s: Seq<LayerView<S>>,
    tool: Tool,
    selection: Seq<LayerId>,
    id: LayerId,
)
    ensures
        measured_boxes(c, s, tool, selection, None) is None,
        selection.contains(id) ==> measured_boxes(c, s, tool, selection, Some(id)) is None,
        tool != Tool::Select || !(c.drag is Idle) ==> measured_boxes(c, s, tool, selection, Some(id))
            is None,
        measured_boxes(c, s, tool, selection, Some(id)) matches Some((a, b)) ==> a == turned_box(
            placed_layers(s, selection),
        ),
{
}

/// A colour of the palette fills what is selected; taking one out leaves the others in their order, and
/// the colour of the selection is added behind them.
pub proof fn law_palettes<S: Scalar>(s: Session<S>, color: Color32, i: usize)
    requires
        s.history.current.wf(),
    ensures
        palette_acted(s, PaletteAction::Apply(color)) == selection_edited(s, EditView::Fill(color)),
        palette_acted(s, PaletteAction::Export) == s,
        ({
            let p = s.history.current.palette;
            let t = palette_acted(s, PaletteAction::Remove(i)).history.current.palette;
            &&& i < p.len() ==> t == p.remove(i as int)
            &&& i >= p.len() ==> t == p
        }),
        first_fill(s) is None ==> palette_acted(s, PaletteAction::AddFromSelection) == s,
        first_fill(s) matches Some(c) ==> ({
            let p = s.history.current.palette;
            let t = palette_acted(s, PaletteAction::AddFromSelection).history.current.palette;
            &&& t.len() == p.len() + 1 && t.drop_last() == p && t.last().color == c
        }),
{
    if let Some(c) = first_fill(s) {
        let p = s.history.current.palette;
        assert(p.push(crate::app::unnamed(c)).drop_last() =~= p);
    }
}

} // verus!
