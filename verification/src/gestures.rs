//! What presses, clicks and drags do to the selection and to what is drawn.
use vstd::prelude::*;

use crate::canvas::{CanvasView, DragView, HandleSide, Session};
use crate::clicks::{clicked, point_toggled};
use crate::document::{GuideOrientation, PageView};
use crate::dropping::{
    band_selected, drawn_frame, guide_dropped, handle_dropped, is_click, joined, makes_shape,
    pen_point_set, points_in, shape_dropped, turned_over, Release,
};
use crate::fixed::Fixed;
use crate::geometry::{Pos2, Rect, Vec2};
use crate::hit_test::{inside_selection, starts_of};
use crate::image_commands::{cropped_frame, masked_over, Pixel};
use crate::image_edit::pixel_along;
use crate::model::{Frame, KindView, LayerId, LayerView, PathPoint, PointType};
use crate::placement::{made_by_tool, Tool};
use crate::plane::{near, near_point};
use crate::point_editing::{ids_without, pen_finished};
use crate::press::{
    grab_at, ground_pressed, layer_pressed, pen_pressed, points_taken, pressed, starting_mask,
    Grab, Modifiers, Press,
};
use crate::scalar::Scalar;

verus! {

/// Taking one id out of a selection leaves every other and it alone is gone.
pub proof fn law_taking_out_of_a_selection(ids: Seq<LayerId>, id: LayerId, x: LayerId)
    ensures
        ids_without(ids, id).contains(x) <==> ids.contains(x) && x != id,
    decreases ids.len(),
{
    reveal(Seq::filter);
    if ids.len() > 0 {
        let t = ids.drop_last();
        let last = ids.last();
        law_taking_out_of_a_selection(t, id, x);
        let all = ids_without(ids, id);
        let rest = ids_without(t, id);
        if ids.contains(x) {
            let k = choose|k: int| 0 <= k < ids.len() && ids[k] == x;
            if k < t.len() {
                assert(t[k] == x);
            }
        }
        if t.contains(x) {
            let k = choose|k: int| 0 <= k < t.len() && t[k] == x;
            assert(ids[k] == x);
        }
        assert(ids[ids.len() - 1] == last);
        if last != id {
            assert(all == rest.push(last));
            if rest.contains(x) {
                let k = choose|k: int| 0 <= k < rest.len() && rest[k] == x;
                assert(all[k] == x);
            }
            assert(all[rest.len() as int] == last);
            if all.contains(x) {
                let k = choose|k: int| 0 <= k < all.len() && all[k] == x;
                if k < rest.len() {
                    assert(rest[k] == x);
                }
            }
        } else {
            assert(all == rest);
        }
    }
}

/// A selection that is joined by others holds what either holds, and begins as it was; nothing comes into
/// it twice.
pub proof fn law_joining_selections<A>(base: Seq<A>, hits: Seq<A>, x: A)
    ensures
        joined(base, hits).contains(x) <==> base.contains(x) || hits.contains(x),
        base.len() <= joined(base, hits).len(),
        joined(base, hits).take(base.len() as int) == base,
        base.no_duplicates() ==> joined(base, hits).no_duplicates(),
    decreases hits.len(),
{
    let all = joined(base, hits);
    if hits.len() == 0 {
        assert(all.take(base.len() as int) =~= base);
    } else {
        let h = hits.drop_last();
        let last = hits.last();
        let t = joined(base, h);
        law_joining_selections(base, h, x);
        law_joining_selections(base, h, last);
        assert(all.take(base.len() as int) =~= t.take(base.len() as int));
        if hits.contains(x) {
            let k = choose|k: int| 0 <= k < hits.len() && hits[k] == x;
            if k < h.len() {
                assert(h[k] == x);
                assert(h.contains(x));
            }
        }
        if h.contains(x) {
            let k = choose|k: int| 0 <= k < h.len() && h[k] == x;
            assert(hits[k] == x);
        }
        assert(hits[hits.len() - 1] == last);
        if !t.contains(last) {
            if t.contains(x) {
                let k = choose|k: int| 0 <= k < t.len() && t[k] == x;
                assert(all[k] == x);
            }
            assert(all[t.len() as int] == last);
            if all.contains(x) {
                let k = choose|k: int| 0 <= k < all.len() && all[k] == x;
                if k < t.len() {
                    assert(t[k] == x);
                }
            }
        }
    }
}

/// A selection that is turned over by others holds what one of the two holds and not both.
pub proof fn law_turning_selections_over(base: Seq<LayerId>, hits: Seq<LayerId>, x: LayerId)
    requires
        base.no_duplicates(),
        hits.no_duplicates(),
    ensures
        turned_over(base, hits).contains(x) <==> (base.contains(x) != hits.contains(x)),
        turned_over(base, hits).no_duplicates(),
    decreases hits.len(),
{
    if hits.len() > 0 {
        let h = hits.drop_last();
        let last = hits.last();
        let t = turned_over(base, h);
        law_turning_selections_over(base, h, x);
        law_turning_selections_over(base, h, last);
        let all = turned_over(base, hits);
        assert(!h.contains(last)) by {
            if h.contains(last) {
                let k = choose|k: int| 0 <= k < h.len() && h[k] == last;
                assert(hits[k] == hits[hits.len() - 1]);
            }
        }
        if hits.contains(x) && x != last {
            let k = choose|k: int| 0 <= k < hits.len() && hits[k] == x;
            assert(h[k] == x);
        }
        if h.contains(x) {
            let k = choose|k: int| 0 <= k < h.len() && h[k] == x;
            assert(hits[k] == x);
        }
        assert(hits[hits.len() - 1] == last);
        if t.contains(last) {
            t.index_of_first_ensures(last);
            let k = t.index_of_first(last)->0;
            assert(all =~= t.remove(k));
            if x != last && t.contains(x) {
                let j = choose|j: int| 0 <= j < t.len() && t[j] == x;
                if j < k {
                    assert(all[j] == x);
                } else {
                    assert(all[j - 1] == x);
                }
            }
            if all.contains(x) {
                let j = choose|j: int| 0 <= j < all.len() && all[j] == x;
                if j < k {
                    assert(t[j] == x);
                } else {
                    assert(t[j + 1] == x);
                    assert(t[j + 1] != t[k]);
                }
            }
        } else {
            if t.contains(x) {
                let j = choose|j: int| 0 <= j < t.len() && t[j] == x;
                assert(all[j] == x);
            }
            assert(all[t.len() as int] == last);
            if all.contains(x) {
                let j = choose|j: int| 0 <= j < all.len() && all[j] == x;
                if j < t.len() {
                    assert(t[j] == x);
                }
            }
        }
    }
}

/// A band selects what it takes; together with what was selected where Shift was held, and turning it over
/// where Command was held too.
pub proof fn law_bands_select_what_they_take(base: Seq<LayerId>, hits: Seq<LayerId>, x: LayerId)
    requires
        base.no_duplicates(),
        hits.no_duplicates(),
    ensures
        band_selected(base, hits, false, false) == hits,
        band_selected(base, hits, false, true).contains(x) <==> base.contains(x) || hits.contains(x),
        band_selected(base, hits, true, true).contains(x) <==> (base.contains(x) != hits.contains(
            x,
        )),
{
    law_joining_selections(base, hits, x);
    law_turning_selections_over(base, hits, x);
}

/// A band of points takes those that are in it on the page, and no others.
pub proof fn law_bands_of_points<S: Scalar>(
    points: Seq<PathPoint<S>>,
    pos: Pos2<S>,
    outer: Vec2<S>,
    band: Rect<S>,
    k: nat,
    i: int,
)
    requires
        0 <= i < k <= points.len() <= usize::MAX,
    ensures
        points_in(points, pos, outer, band, k).contains(i as usize) <==> band.spec_contains(
            points[i].anchor.spec_plus(pos.spec_to_vec2()).spec_plus(outer),
        ),
        forall|j: int|
            0 <= j < points_in(points, pos, outer, band, k).len() ==> #[trigger] points_in(
                points,
                pos,
                outer,
                band,
                k,
            )[j] < k,
    decreases k,
{
    let j = (k - 1) as nat;
    let rest = points_in(points, pos, outer, band, j);
    let all = points_in(points, pos, outer, band, k);
    if j > 0 {
        law_bands_of_points(points, pos, outer, band, j, if i < j {
            i
        } else {
            0
        });
    } else {
        assert(rest.len() == 0);
    }
    if i < j {
        if rest.contains(i as usize) {
            let m = choose|m: int| 0 <= m < rest.len() && rest[m] == i as usize;
            assert(all[m] == i as usize);
        }
        if all.contains(i as usize) {
            let m = choose|m: int| 0 <= m < all.len() && all[m] == i as usize;
            if m < rest.len() {
                assert(rest[m] == i as usize);
            }
        }
    } else {
        if all.len() > rest.len() {
            assert(all[rest.len() as int] == i as usize);
        }
        if all.contains(i as usize) && all.len() == rest.len() {
            let m = choose|m: int| 0 <= m < all.len() && all[m] == i as usize;
            assert(rest[m] < j);
        }
    }
}

/// A click on a layer selects it alone; with Shift it joins the selection, or leaves it where it was in.
/// A click on the ground selects nothing, and with Shift changes nothing.
pub proof fn law_clicks_select<S: Scalar>(
    c: CanvasView<S>,
    selection: Seq<LayerId>,
    id: LayerId,
    x: LayerId,
)
    ensures
        clicked(c, selection, Some(id), false).1 == seq![id],
        clicked(c, selection, Some(id), true).1.contains(x) <==> (if x == id {
            !selection.contains(x)
        } else {
            selection.contains(x)
        }),
        clicked(c, selection, None, false).1.len() == 0,
        clicked(c, selection, None, true).1 == selection,
{
    law_taking_out_of_a_selection(selection, id, x);
    let more = selection.push(id);
    assert(more[selection.len() as int] == id);
    if selection.contains(x) {
        let k = choose|k: int| 0 <= k < selection.len() && selection[k] == x;
        assert(more[k] == x);
    }
    if more.contains(x) && x != id {
        let k = choose|k: int| 0 <= k < more.len() && more[k] == x;
        assert(selection[k] == x);
    }
    if selection.len() == 1 && selection[0] == id {
        assert(selection =~= seq![id]);
    }
}

/// A press on a layer takes hold of it: of it alone where it is outside of the selection, of all that is
/// selected where it is inside of it; with Shift it joins or leaves the selection. What is moved is moved
/// from where the press was.
pub proof fn law_presses_take_hold<S: Scalar>(
    s: Session<S>,
    id: LayerId,
    doc_pos: Pos2<S>,
    modifiers: Modifiers,
)
    requires
        !modifiers.alt,
    ensures
        ({
            let t = layer_pressed(s, id, doc_pos, modifiers);
            let layers = s.history.layers();
            &&& !modifiers.shift && inside_selection(layers, s.selection, id) && s.selection
                != seq![id] ==> t.selection == s.selection
            &&& !modifiers.shift && !inside_selection(layers, s.selection, id) ==> t.selection
                == seq![id]
            &&& modifiers.shift && s.selection.contains(id) ==> t.selection == ids_without(
                s.selection,
                id,
            ) && t.canvas == s.canvas && t.history == s.history
            &&& modifiers.shift && !s.selection.contains(id) ==> t.selection == s.selection.push(id)
            &&& !(modifiers.shift && s.selection.contains(id)) ==> t.canvas.drag == (
            DragView::MovingSelection { start_doc: doc_pos, starts: starts_of(layers, t.selection) })
            &&& t.tool == s.tool && t.next == s.next
        }),
{
    reveal(layer_pressed);
    let t = layer_pressed(s, id, doc_pos, modifiers);
    if s.selection.len() == 1 && s.selection[0] == id {
        assert(s.selection =~= seq![id]);
    }
    assert(s.history.after_snapshot().layers() == s.history.layers());
}

/// A press on the ground begins a band where it is; it clears the selection, unless Shift is held.
pub proof fn law_presses_on_the_ground<S: Scalar>(
    s: Session<S>,
    doc_pos: Pos2<S>,
    modifiers: Modifiers,
)
    ensures
        ({
            let t = ground_pressed(s, doc_pos, modifiers);
            &&& modifiers.shift ==> t.selection == s.selection
            &&& !modifiers.shift ==> t.selection.len() == 0
            &&& t.history == s.history
            &&& t.canvas.drag matches DragView::Marquee {
                start_doc,
                additive,
                base_selection,
                contained_only,
                ignore_groups,
                invert,
            } && start_doc == doc_pos && additive == modifiers.shift && base_selection
                == t.selection && contained_only == modifiers.alt && ignore_groups
                == modifiers.command && invert == (modifiers.command && modifiers.shift)
        }),
{
    reveal(ground_pressed);
}

/// What a press takes hold of, away from rulers and guides: the view with the hand, the points of a path
/// with the pen, nothing with the scissors, and with every tool that draws the shape that it begins.
pub proof fn law_tools_take_hold<S: Scalar>(s: Session<S>, press: Press<S>, under: Option<LayerId>)
    requires
        s.canvas.image_edit is None,
        !s.canvas.show_rulers,
        s.tool != Tool::Select,
    ensures
        s.tool == Tool::Pan ==> pressed(s, press, under).canvas.drag == (DragView::PanningView {
            start_mouse: press.mouse,
            start_pan: s.canvas.pan,
        }),
        s.tool == Tool::Scissors ==> pressed(s, press, under) == s,
        s.tool == Tool::Pen ==> pressed(s, press, under) == pen_pressed(s, press),
        s.tool != Tool::Pan && s.tool != Tool::Scissors && s.tool != Tool::Pen ==> pressed(
            s,
            press,
            under,
        ).canvas.drag == (DragView::CreatingShape {
            start_doc: s.canvas.to_doc(press.origin, press.mouse),
        }) && pressed(s, press, under).selection == s.selection,
{
}

/// Over the strip above the canvas a press draws out a level guide, over the one to its left an upright
/// one; while an image is edited every press is its own.
pub proof fn law_rulers_give_guides(s: Session<Fixed>, press: Press<Fixed>)
    ensures
        s.canvas.image_edit is Some ==> grab_at(s, press) is Image,
        s.canvas.image_edit is None && s.canvas.show_rulers && press.mouse.y.raw
            < press.canvas_rect.min.y.raw && press.mouse.x.raw >= press.canvas_rect.min.x.raw
            ==> grab_at(s, press) == (Grab::Ruler { orientation: GuideOrientation::Horizontal }),
        s.canvas.image_edit is None && s.canvas.show_rulers && press.mouse.x.raw
            < press.canvas_rect.min.x.raw && press.mouse.y.raw >= press.canvas_rect.min.y.raw
            ==> grab_at(s, press) == (Grab::Ruler { orientation: GuideOrientation::Vertical }),
{
}

/// The frame that a drag draws begins where the drag did and ends where it does, upright.
pub proof fn law_drawn_frames(a: Pos2<Fixed>, b: Pos2<Fixed>)
    requires
        near_point(a) && near_point(b),
    ensures
        drawn_frame(a, b).pos == a,
        drawn_frame(a, b).spec_end() == b,
        drawn_frame(a, b).rotation.raw == 0,
        forall|t: Tool|
            #[trigger] makes_shape(t, drawn_frame(a, b)) <==> t == Tool::Text || b.x.raw - a.x.raw > 2
                * 65536 || a.x.raw - b.x.raw > 2 * 65536 || b.y.raw - a.y.raw > 2 * 65536
                || a.y.raw - b.y.raw > 2 * 65536,
        is_click(a, b) <==> -2 * 65536 <= b.x.raw - a.x.raw <= 2 * 65536 && -2 * 65536 <= b.y.raw
            - a.y.raw <= 2 * 65536,
{
    assert(Fixed::spec_ratio(2, 1).raw == 131072);
    assert(Fixed::spec_ratio(0, 1).raw == 0);
}

/// A shape that is let go of is selected, alone, and the tool is put back; a drag that is too short, or
/// with a tool that draws nothing, changes nothing.
pub proof fn law_dropped_shapes_are_selected<S: Scalar>(s: Session<S>, a: Pos2<S>, b: Pos2<S>)
    ensures
        ({
            let t = shape_dropped(s, a, b);
            let frame = drawn_frame(a, b);
            let made = made_by_tool(s.next as u64, s.tool, frame);
            &&& made is None || !makes_shape(s.tool, frame) ==> t == s
            &&& made is Some && makes_shape(s.tool, frame) ==> t.selection == seq![s.next as u64]
                && t.tool == Tool::Select && t.next == s.next + 1
                && t.canvas.insert_hint_parent is None
        }),
{
}

/// A guide that is let go of over the canvas stays where it was let go of; one that is dragged out of it is
/// gone, or does not come to be. No other guide changes.
pub proof fn law_dropped_guides<S: Scalar>(
    c: CanvasView<S>,
    page: PageView<S>,
    release: Release<S>,
    mouse: Pos2<S>,
    k: int,
    o: GuideOrientation,
    j: int,
)
    requires
        release.mouse == Some(mouse),
        0 <= k < page.guides.len(),
        0 <= j < page.guides.len(),
    ensures
        ({
            let inside = release.canvas_rect.spec_contains(mouse);
            let new = guide_dropped(c, page, release, None, o);
            let old_one = guide_dropped(c, page, release, Some(k), o);
            &&& !inside ==> new == page
            &&& inside ==> new.guides.len() == page.guides.len() + 1 && new.guides.last().orientation
                == o && new.guides.drop_last() == page.guides
            &&& !inside ==> old_one.guides == page.guides.remove(k)
            &&& inside ==> old_one.guides.len() == page.guides.len()
                && old_one.guides[k].orientation == page.guides[k].orientation && (j != k
                ==> old_one.guides[j] == page.guides[j])
            &&& inside ==> old_one.guides[k].pos == new.guides.last().pos
            &&& new.layers == page.layers && old_one.layers == page.layers
        }),
{
    let new = guide_dropped(c, page, release, None, o);
    if release.canvas_rect.spec_contains(mouse) {
        assert(new.guides.drop_last() =~= page.guides);
    }
}

/// A handle that is shorter than two pixels on the screen is no handle: it is taken away when it is let go
/// of. The other handle of the point stays.
pub proof fn law_stubs_are_taken_away(
    v: LayerView<Fixed>,
    points: Seq<PathPoint<Fixed>>,
    closed: bool,
    i: int,
    h: Vec2<Fixed>,
    zoom: Fixed,
)
    requires
        v.kind == (KindView::Path { points, closed }),
        0 <= i < points.len(),
        points[i].handle_out == Some(h),
    ensures
        ({
            let short = h.spec_length().spec_times(zoom).raw < 2 * 65536;
            let w = handle_dropped(v, i, HandleSide::Out, zoom);
            &&& !short ==> w == v
            &&& short ==> (w.kind matches KindView::Path { points: q, closed: r } && r == closed
                && q.len() == points.len() && q[i].handle_out is None && q[i].handle_in
                == points[i].handle_in && q[i].anchor == points[i].anchor)
            &&& short ==> pen_point_set(points, i, zoom)[i].handle_out is None && pen_point_set(
                points,
                i,
                zoom,
            )[i].point_type == PointType::Straight
            &&& !short ==> pen_point_set(points, i, zoom) == points
        }),
{
    assert(Fixed::spec_ratio(2, 1).raw == 131072);
}

/// Pressing with the pen adds a point where the press is, behind those that are there; pressing on the
/// first closes the path.
pub proof fn law_the_pen_adds_points<S: Scalar>(s: Session<S>, press: Press<S>)
    requires
        !crate::point_editing::on_first_pen_point(
            s.canvas,
            s.canvas.to_doc(press.origin, press.mouse),
            press.origin,
        ),
    ensures
        pen_pressed(s, press).canvas.pen matches Some(points) && points.len() == (
        match s.canvas.pen {
            Some(before) => before.len() + 1,
            None => 1,
        }) && points.last().anchor == s.canvas.to_doc(press.origin, press.mouse)
            && points.last().handle_in is None && points.last().handle_out is None && (
        s.canvas.pen matches Some(before) ==> points.drop_last() == before),
{
    reveal(pen_pressed);
    if let Some(before) = s.canvas.pen {
        let points = pen_pressed(s, press).canvas.pen->0;
        assert(points.drop_last() =~= before);
    }
}

/// What the pen has drawn is put on the page when it is finished, and selected; with fewer than two points
/// it is dropped. Either way the pen has nothing left.
pub proof fn law_finished_paths<S: Scalar>(s: Session<S>, closed: bool)
    ensures
        s.canvas.pen is None ==> pen_finished(s, closed) == s,
        pen_finished(s, closed).canvas.pen is None,
        s.canvas.pen matches Some(points) ==> points.len() < 2 ==> pen_finished(s, closed).history
            == s.history && pen_finished(s, closed).selection == s.selection,
        s.canvas.pen matches Some(points) ==> points.len() >= 2 ==> pen_finished(
            s,
            closed,
        ).selection == seq![s.next as u64] && pen_finished(s, closed).next == s.next + 1 && (
        s.tool == Tool::Pen ==> pen_finished(s, closed).tool == Tool::Select),
{
}

/// Toggling a point selects it where it was not selected and the other way round; no other changes.
pub proof fn law_toggled_points(selected: Seq<usize>, i: usize, x: usize)
    requires
        selected.no_duplicates(),
    ensures
        point_toggled(selected, i).contains(x) <==> (if x == i {
            !selected.contains(x)
        } else {
            selected.contains(x)
        }),
        points_taken(selected, i, true).contains(i),
        points_taken(selected, i, false).contains(i),
        selected.contains(i) ==> points_taken(selected, i, false) == selected,
        !selected.contains(i) ==> points_taken(selected, i, false) == seq![i],
        !selected.contains(i) ==> points_taken(selected, i, true) == selected.push(i),
{
    let t = point_toggled(selected, i);
    assert(seq![i][0] == i);
    if selected.contains(i) {
        selected.index_of_first_ensures(i);
        let k = selected.index_of_first(i)->0;
        assert(t =~= selected.remove(k));
        if x != i && selected.contains(x) {
            let j = choose|j: int| 0 <= j < selected.len() && selected[j] == x;
            if j < k {
                assert(t[j] == x);
            } else {
                assert(t[j - 1] == x);
            }
        }
        if t.contains(x) {
            let j = choose|j: int| 0 <= j < t.len() && t[j] == x;
            if j < k {
                assert(selected[j] == x);
            } else {
                assert(selected[j + 1] == x);
                assert(selected[j + 1] != selected[k]);
            }
        }
    } else {
        assert(t[selected.len() as int] == i);
        assert(selected.push(i)[selected.len() as int] == i);
        if selected.contains(x) {
            let j = choose|j: int| 0 <= j < selected.len() && selected[j] == x;
            assert(t[j] == x);
        }
        if t.contains(x) && x != i {
            let j = choose|j: int| 0 <= j < t.len() && t[j] == x;
            assert(selected[j] == x);
        }
    }
}

/// Which pixel of an image is under a point: where a pixel is as large as a unit, the one that it is in;
/// to the left of all the first, to the right of all the last.
pub proof fn law_pixels_under_points(rel: Fixed, extent: Fixed, size: u32)
    requires
        near(rel),
        0 < size <= 4000,
        65536 <= extent.raw <= 4000 * 65536,
    ensures
        0 <= pixel_along(rel, extent, size) < size,
        rel.raw <= 0 ==> pixel_along(rel, extent, size) == 0,
        extent.raw == size * 65536 && 0 <= rel.raw < extent.raw ==> pixel_along(rel, extent, size)
            == rel.raw as int / 65536 || pixel_along(rel, extent, size) + 1 == rel.raw as int / 65536
            || pixel_along(rel, extent, size) == (rel.raw - size) / 65536,
{
    let n = size as int;
    let e = extent.raw as int;
    let r = rel.raw as int;
    assert((n * 65536) / 1 == n * 65536 && ((n - 1) * 65536) / 1 == (n - 1) * 65536);
    let q = (r * 65536) / e;
    assert((r <= 0 ==> q <= 0) && (r >= 0 ==> 0 <= q && q * e <= r * 65536 < q * e + e))
        by (nonlinear_arith)
        requires
            e > 0,
            q == (r * 65536) / e,
    ;
    assert(-0x2000_0000 <= q <= 0x2000_0000) by (nonlinear_arith)
        requires
            e >= 65536,
            q == (r * 65536) / e,
            -0x2000_0000 <= r <= 0x2000_0000,
    ;
    assert(rel.spec_over(extent).raw == q);
    assert((q * (n * 65536)) / 65536 == q * n) by {
        assert(q * (n * 65536) == (q * n) * 65536) by (nonlinear_arith);
    }
    assert((q <= 0 ==> q * n <= 0) && (q >= 0 ==> q * n >= 0)) by (nonlinear_arith)
        requires
            n > 0,
    ;
    if e == n * 65536 && 0 <= r < e {
        assert(q * n <= r && r - n < q * n) by (nonlinear_arith)
            requires
                q * e <= r * 65536 < q * e + e,
                e == n * 65536,
        ;
        assert(q <= 65536) by (nonlinear_arith)
            requires
                q * e <= r * 65536,
                0 <= r < e,
                e > 0,
        ;
        let v = q * n;
        assert(0 <= v <= r);
        assert(v / 65536 <= r / 65536 && (r - n) / 65536 <= v / 65536);
        assert(r / 65536 - 1 <= (r - n) / 65536);
        assert(r / 65536 <= n - 1);
        let f = rel.spec_over(extent).spec_times(Fixed::spec_ratio(n, 1)).spec_floored();
        assert(f.raw == v / 65536 * 65536);
        assert((v / 65536 * 65536) / 65536 == v / 65536);
    }
}

/// Painting the picked pixels paints them and no others.
pub proof fn law_only_picked_pixels_are_painted(
    pixels: Seq<Pixel>,
    mask: Seq<bool>,
    with: Pixel,
    i: int,
)
    requires
        0 <= i < pixels.len(),
        mask.len() == pixels.len(),
    ensures
        masked_over(pixels, mask, with).len() == pixels.len(),
        mask[i] ==> masked_over(pixels, mask, with)[i] == with,
        !mask[i] ==> masked_over(pixels, mask, with)[i] == pixels[i],
{
}

/// An image that is cropped stays where it is: where a pixel is as large as a unit, its frame begins at
/// the first pixel that is left and is as wide and high as there are pixels left.
pub proof fn law_cropped_images_stay_in_place(
    f: Frame<Fixed>,
    width: u32,
    height: u32,
    b: (u32, u32, u32, u32),
)
    requires
        -0x400_0000 <= f.pos.x.raw <= 0x400_0000 && -0x400_0000 <= f.pos.y.raw <= 0x400_0000,
        0 < width <= 1000 && 0 < height <= 1000,
        f.size.x.raw == width * 65536,
        f.size.y.raw == height * 65536,
        b.0 <= b.2 < width,
        b.1 <= b.3 < height,
    ensures
        ({
            let g = cropped_frame(f, width, height, b);
            &&& g.pos.x.raw == f.pos.x.raw + b.0 * 65536
            &&& g.pos.y.raw == f.pos.y.raw + b.1 * 65536
            &&& g.size.x.raw == (b.2 - b.0 + 1) * 65536
            &&& g.size.y.raw == (b.3 - b.1 + 1) * 65536
            &&& g.rotation == f.rotation
        }),
{
    let r = f.spec_bounds();
    assert(r.min == f.pos);
    let w = width as int;
    let h = height as int;
    assert((w * 65536) / 1 == w * 65536 && (h * 65536) / 1 == h * 65536);
    assert(((w * 65536) * 65536) / (w * 65536) == 65536 && ((h * 65536) * 65536) / (h * 65536)
        == 65536) by (nonlinear_arith)
        requires
            w > 0,
            h > 0,
    ;
    let one = Fixed { raw: 65536 };
    assert(r.spec_width().spec_over(Fixed::spec_ratio(w, 1)) == one);
    assert(r.spec_height().spec_over(Fixed::spec_ratio(h, 1)) == one);
    let (x0, y0, nx, ny) = (b.0 as int, b.1 as int, b.2 - b.0 + 1, b.3 - b.1 + 1);
    assert((x0 * 65536) / 1 == x0 * 65536 && (y0 * 65536) / 1 == y0 * 65536);
    assert((nx * 65536) / 1 == nx * 65536 && (ny * 65536) / 1 == ny * 65536);
    crate::plane::lemma_times_one(Fixed::spec_ratio(x0, 1));
    crate::plane::lemma_times_one(Fixed::spec_ratio(y0, 1));
    crate::plane::lemma_times_one(Fixed::spec_ratio(nx, 1));
    crate::plane::lemma_times_one(Fixed::spec_ratio(ny, 1));
}

/// A drag over an image begins with nothing picked, unless it adds or takes away.
pub proof fn law_picking_begins_anew<S>(c: CanvasView<S>, modifiers: Modifiers, i: int)
    requires
        c.image_edit is Some,
        0 <= i < (c.image_edit->0).mask.len(),
    ensures
        starting_mask(c, modifiers).len() == (c.image_edit->0).mask.len(),
        !modifiers.alt && !modifiers.shift ==> !starting_mask(c, modifiers)[i],
        modifiers.alt || modifiers.shift ==> starting_mask(c, modifiers) == (
        c.image_edit->0).mask,
{
}

} // verus!
