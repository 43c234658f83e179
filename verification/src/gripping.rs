//! What dragging does to the layers that are held: moving, resizing and turning them.
use vstd::prelude::*;

use crate::alignment::DistributeAxis;
use crate::canvas::HandleSide;
use crate::dragging::{
    along, anchors_moved, at_pos, beyond_gap, end_moved, factor, handle_pulled, handle_set,
    move_delta, repositioned, rescale, resized_box, shifted, turn_angle, with_layer,
};
use crate::fixed::Fixed;
use crate::geometry::{Pos2, Rect, Vec2};
use crate::model::{Frame, LayerId, LayerView, PathPoint, PointType};
use crate::plane::{lemma_half, lemma_halved, lemma_times_one, near, near_box, near_point};
use crate::pointing::near_frame;
use crate::records::{is_shallow, lemma_changed_layer};
use crate::scalar::Scalar;
use crate::transform::{
    refitted, refitted_all, rotatable_leaves, resizable_leaves, stretched_leaf, tight_bounds,
    tight_union, turned_leaf, Handle, Remap, Rescale, ResizeCursor, ScaleAnchor,
};
use crate::tree::find;

verus! {

/// On which side a grip is across: on the left, in the middle or on the right.
pub open spec fn side_across(h: Handle) -> int {
    match h {
        Handle::TopLeft | Handle::Left | Handle::BottomLeft => -1,
        Handle::Top | Handle::Bottom => 0,
        Handle::TopRight | Handle::Right | Handle::BottomRight => 1,
    }
}

/// On which side a grip is down: at the top, in the middle or at the bottom.
pub open spec fn side_down(h: Handle) -> int {
    match h {
        Handle::TopLeft | Handle::Top | Handle::TopRight => -1,
        Handle::Left | Handle::Right => 0,
        Handle::BottomLeft | Handle::Bottom | Handle::BottomRight => 1,
    }
}

/// Where a grip is: on its side, or in the middle between two sides.
pub proof fn law_grips_are_on_their_sides(h: Handle, r: Rect<Fixed>)
    requires
        near_box(r),
    ensures
        ({
            let p = h.spec_pos(r);
            &&& side_across(h) == -1 ==> p.x == r.min.x
            &&& side_across(h) == 1 ==> p.x == r.max.x
            &&& side_across(h) == 0 ==> 0 <= (r.max.x.raw - p.x.raw) - (p.x.raw - r.min.x.raw) <= 1
            &&& side_down(h) == -1 ==> p.y == r.min.y
            &&& side_down(h) == 1 ==> p.y == r.max.y
            &&& side_down(h) == 0 ==> 0 <= (r.max.y.raw - p.y.raw) - (p.y.raw - r.min.y.raw) <= 1
        }),
{
    lemma_halved(r.min.x, r.max.x);
    lemma_halved(r.min.y, r.max.y);
}

/// A dragged grip ends under the pointer, on each axis on which it is on a side; the opposite side
/// stays where it is. Dragged past the opposite side, it becomes that side; an axis on which the grip
/// is in the middle is left alone.
pub proof fn law_a_dragged_grip_is_under_the_pointer(
    h: Handle,
    r: Rect<Fixed>,
    p: Pos2<Fixed>,
)
    requires
        near_box(r),
        near_point(p),
    ensures
        ({
            let b = h.spec_resize(r, p);
            &&& side_across(h) == 0 ==> b.min.x == r.min.x && b.max.x == r.max.x
            &&& side_across(h) == 1 && p.x.raw >= r.min.x.raw ==> b.min.x == r.min.x && b.max.x
                == p.x
            &&& side_across(h) == 1 && p.x.raw < r.min.x.raw ==> b.min.x == p.x && b.max.x
                == r.min.x
            &&& side_across(h) == -1 && p.x.raw <= r.max.x.raw ==> b.min.x == p.x && b.max.x
                == r.max.x
            &&& side_across(h) == -1 && p.x.raw > r.max.x.raw ==> b.min.x == r.max.x && b.max.x
                == p.x
            &&& side_down(h) == 0 ==> b.min.y == r.min.y && b.max.y == r.max.y
            &&& side_down(h) == 1 && p.y.raw >= r.min.y.raw ==> b.min.y == r.min.y && b.max.y
                == p.y
            &&& side_down(h) == 1 && p.y.raw < r.min.y.raw ==> b.min.y == p.y && b.max.y
                == r.min.y
            &&& side_down(h) == -1 && p.y.raw <= r.max.y.raw ==> b.min.y == p.y && b.max.y
                == r.max.y
            &&& side_down(h) == -1 && p.y.raw > r.max.y.raw ==> b.min.y == r.max.y && b.max.y
                == p.y
        }),
        h.spec_resize(r, h.spec_pos(r)) == r,
        ({
            let b = h.spec_resize(r, p);
            let beyond = (side_across(h) == 1 ==> p.x.raw >= r.min.x.raw) && (side_across(h) == -1
                ==> p.x.raw <= r.max.x.raw) && (side_down(h) == 1 ==> p.y.raw >= r.min.y.raw) && (
            side_down(h) == -1 ==> p.y.raw <= r.max.y.raw);
            &&& beyond && side_across(h) != 0 ==> h.spec_pos(b).x == p.x
            &&& beyond && side_down(h) != 0 ==> h.spec_pos(b).y == p.y
            &&& forall|o: Handle|
                beyond && side_across(o) == -side_across(h) && side_down(o) == -side_down(h)
                    ==> #[trigger] o.spec_pos(b) == o.spec_pos(r)
        }),
{
}

/// The grips are all there are, each once, and go clockwise from the top left; opposite grips have
/// one cursor, and it shows the way they are dragged.
pub proof fn law_every_grip_is_offered_once(h: Handle)
    ensures
        Handle::spec_all().len() == 8,
        Handle::spec_all().contains(h),
        Handle::spec_all().no_duplicates(),
        h.spec_is_corner() == (side_across(h) != 0 && side_down(h) != 0),
        side_down(h) == 0 ==> h.spec_cursor() == ResizeCursor::Horizontal,
        side_across(h) == 0 ==> h.spec_cursor() == ResizeCursor::Vertical,
        side_across(h) == side_down(h) ==> h.spec_cursor() == ResizeCursor::NwSe,
        side_across(h) == -side_down(h) ==> h.spec_cursor() == ResizeCursor::NeSw,
{
    let all = Handle::spec_all();
    assert(all[0] == Handle::TopLeft && all[1] == Handle::Top && all[2] == Handle::TopRight);
    assert(all[3] == Handle::Right && all[4] == Handle::BottomRight && all[5] == Handle::Bottom);
    assert(all[6] == Handle::BottomLeft && all[7] == Handle::Left);
}

/// The end of a line that is dragged is where it is dragged to; the other end stays, and so does the
/// turn.
pub proof fn law_a_dragged_end_is_under_the_pointer(
    v: LayerView<Fixed>,
    h: Handle,
    p: Pos2<Fixed>,
)
    requires
        near_frame(v.frame),
        near_point(p),
    ensures
        ({
            let w = end_moved(v, h, p);
            &&& h == Handle::TopLeft ==> w.frame.pos == p && w.frame.spec_end()
                == v.frame.pos.spec_plus(v.frame.size)
            &&& h != Handle::TopLeft ==> w.frame.pos == v.frame.pos && w.frame.spec_end() == p
            &&& w == v.with_frame(Frame { rotation: v.frame.rotation, ..w.frame })
        }),
{
}

/// The box that a resize makes: with the corners held it is what the grip makes of it; with the
/// middle held it is as large and its middle stays. In a turned layer the pointer counts turned back
/// about the middle.
pub proof fn law_what_a_resize_holds(
    h: Handle,
    start: Rect<Fixed>,
    turn: Fixed,
    p: Pos2<Fixed>,
)
    requires
        near_box(start),
        near_point(p),
        start.max.x.raw - start.min.x.raw <= 0x400_0000,
        start.max.y.raw - start.min.y.raw <= 0x400_0000,
        -0x400_0000 <= p.x.raw <= 0x400_0000,
        -0x400_0000 <= p.y.raw <= 0x400_0000,
        -0x400_0000 <= start.min.x.raw <= 0x400_0000,
        -0x400_0000 <= start.min.y.raw <= 0x400_0000,
    ensures
        turn.raw == 0 ==> resized_box(h, start, ScaleAnchor::Corners, turn, p) == h.spec_resize(
            start,
            p,
        ),
        turn.raw == 0 ==> ({
            let held = resized_box(h, start, ScaleAnchor::Corners, turn, p);
            let b = resized_box(h, start, ScaleAnchor::Center, turn, p);
            &&& b.spec_center() == start.spec_center()
            &&& 0 <= held.spec_width().raw - b.spec_width().raw <= 1
            &&& 0 <= held.spec_height().raw - b.spec_height().raw <= 1
        }),
        forall|anchor: ScaleAnchor|
            turn.raw != 0 ==> #[trigger] resized_box(h, start, anchor, turn, p) == resized_box(
                h,
                start,
                anchor,
                Fixed { raw: 0 },
                p.spec_rotated(start.spec_center(), turn.spec_negated()),
            ),
{
    assert(Fixed::spec_ratio(0, 1).raw == 0);
    if turn.raw == 0 {
        let held = h.spec_resize(start, p);
        let c = start.spec_center();
        lemma_halved(start.min.x, start.max.x);
        lemma_halved(start.min.y, start.max.y);
        let size = held.spec_size();
        let half = size.spec_scaled(Fixed::spec_ratio(1, 2));
        assert(Fixed::spec_ratio(1, 2).raw == 32768);
        assert((size.x.raw * 32768) / 65536 == size.x.raw as int / 2);
        assert((size.y.raw * 32768) / 65536 == size.y.raw as int / 2);
        let b = resized_box(h, start, ScaleAnchor::Center, turn, p);
        lemma_halved(b.min.x, b.max.x);
        lemma_halved(b.min.y, b.max.y);
    }
}

/// The map of a resize takes the corner of the old box to the corner of the new one, and the
/// opposite corner, but for rounding, to the opposite corner; the map of a box to itself moves
/// nothing.
pub proof fn law_a_resize_maps_box_to_box(old_box: Rect<Fixed>, new_box: Rect<Fixed>, p: Pos2<Fixed>)
    requires
        near_box(old_box),
        near_box(new_box),
        near_point(p),
        0x1_0000 <= old_box.max.x.raw - old_box.min.x.raw <= 0x800_0000,
        0x1_0000 <= old_box.max.y.raw - old_box.min.y.raw <= 0x800_0000,
        new_box.max.x.raw - new_box.min.x.raw < 0x4000_0000,
        new_box.max.y.raw - new_box.min.y.raw < 0x4000_0000,
    ensures
        rescale(old_box, new_box).spec_apply(old_box.min) == new_box.min,
        ({
            let far = rescale(old_box, new_box).spec_apply(old_box.max);
            &&& 0 <= new_box.max.x.raw - far.x.raw <= (old_box.max.x.raw - old_box.min.x.raw)
                / 65536 + 1
            &&& 0 <= new_box.max.y.raw - far.y.raw <= (old_box.max.y.raw - old_box.min.y.raw)
                / 65536 + 1
        }),
        rescale(old_box, old_box).spec_apply(p) == p,
{
    let m = rescale(old_box, new_box);
    lemma_factor(old_box.spec_width(), new_box.spec_width());
    lemma_factor(old_box.spec_height(), new_box.spec_height());
    lemma_factor(old_box.spec_width(), old_box.spec_width());
    lemma_factor(old_box.spec_height(), old_box.spec_height());
    lemma_times_nothing(m.scale.x);
    lemma_times_nothing(m.scale.y);
    lemma_times_one(p.x.spec_minus(old_box.min.x));
    lemma_times_one(p.y.spec_minus(old_box.min.y));
}

proof fn lemma_times_nothing(k: Fixed)
    ensures
        (Fixed { raw: 0 }).spec_times(k).raw == 0,
{
    assert(0 * k.raw == 0);
}

/// The factor of a resize takes the old length to the new one, but for rounding.
proof fn lemma_factor(before: Fixed, after: Fixed)
    requires
        0x1_0000 <= before.raw <= 0x800_0000,
        0 <= after.raw < 0x4000_0000,
    ensures
        0 <= after.raw - before.spec_times(factor(before, after)).raw <= before.raw / 65536 + 1,
        before == after ==> factor(before, after).raw == 65536,
{
    assert(Fixed::spec_ratio(1, 1000000).raw == 0);
    let w = before.raw as int;
    let n = after.raw as int;
    let q = (n * 65536) / w;
    assert(0 <= q <= n) by (nonlinear_arith)
        requires
            q == (n * 65536) / w,
            w >= 65536,
            n >= 0,
    ;
    assert(w * q <= n * 65536 < w * q + w) by (nonlinear_arith)
        requires
            q == (n * 65536) / w,
            w > 0,
    ;
    let r = (w * q) / 65536;
    assert(factor(before, after).raw == q);
    assert(0 <= w * q) by (nonlinear_arith)
        requires
            w >= 0,
            q >= 0,
    ;
    if w == n {
        assert((w * 65536) / w == 65536) by (nonlinear_arith)
            requires
                w > 0,
        ;
    }
}

/// Resized to the box that it has, a layer stays as it is; resized at all, it keeps its turn, what it
/// is called and what it looks like, unless its strokes and corners are scaled as well.
pub proof fn law_a_resize_to_the_same_box_changes_nothing(
    v: LayerView<Fixed>,
    offset: Vec2<Fixed>,
    b: Rect<Fixed>,
    map: Rescale<Fixed>,
)
    requires
        near_frame(v.frame),
        v.frame.size.x.raw >= 0,
        v.frame.size.y.raw >= 0,
        -0x800_0000 <= offset.x.raw <= 0x800_0000,
        -0x800_0000 <= offset.y.raw <= 0x800_0000,
        !v.is_container(),
        !(v.kind is Path),
        !(v.kind is CompoundPath),
        near_point(v.frame.spec_end().spec_plus(offset)),
        near_box(b),
        0x1_0000 <= b.max.x.raw - b.min.x.raw <= 0x800_0000,
        0x1_0000 <= b.max.y.raw - b.min.y.raw <= 0x800_0000,
    ensures
        resizable_leaves(v, offset).len() == 1,
        ({
            let info = resizable_leaves(v, offset)[0];
            &&& stretched_leaf(v, info, rescale(b, b), None) == v
            &&& stretched_leaf(v, info, map, None) == v.with_frame(
                Frame {
                    rotation: v.frame.rotation,
                    ..stretched_leaf(v, info, map, None).frame
                },
            )
        }),
{
    let info = resizable_leaves(v, offset)[0];
    law_a_resize_maps_box_to_box(b, b, info.abs_bounds.min);
    law_a_resize_maps_box_to_box(b, b, info.abs_bounds.max);
    assert(stretched_leaf(v, info, rescale(b, b), None) =~= v);
}

/// A layer that is resized fills what the map makes of its box: where the map takes the corners of the
/// box it had on the page, there its box on the page is.
pub proof fn law_a_resized_layer_fills_the_mapped_box(
    v: LayerView<Fixed>,
    offset: Vec2<Fixed>,
    map: Rescale<Fixed>,
    k: Option<Fixed>,
)
    requires
        near_frame(v.frame),
        -0x800_0000 <= offset.x.raw <= 0x800_0000,
        -0x800_0000 <= offset.y.raw <= 0x800_0000,
        !v.is_container(),
        ({
            let b = v.frame.spec_bounds().spec_translate(offset);
            near_point(map.spec_apply(b.min)) && near_point(map.spec_apply(b.max))
        }),
    ensures
        ({
            let info = resizable_leaves(v, offset)[0];
            let b = v.frame.spec_bounds().spec_translate(offset);
            stretched_leaf(v, info, map, k).frame.spec_bounds().spec_translate(offset)
                == Rect::spec_from_two_pos(map.spec_apply(b.min), map.spec_apply(b.max))
        }),
{
}

/// A layer that is turned keeps its size, its middle goes where the turn about the pivot takes it, and
/// the degrees are added to its own; turned by nothing it stays as it is.
#[verifier::rlimit(60)]
pub proof fn law_a_turned_layer_goes_round_the_pivot(
    v: LayerView<Fixed>,
    offset: Vec2<Fixed>,
    pivot: Pos2<Fixed>,
    degrees: Fixed,
)
    requires
        near_frame(v.frame),
        v.frame.size.x.raw >= 0 && v.frame.size.y.raw >= 0,
        -0x800_0000 <= offset.x.raw <= 0x800_0000,
        -0x800_0000 <= offset.y.raw <= 0x800_0000,
        near_point(pivot),
        -0x1000_0000 <= v.frame.rotation.raw <= 0x1000_0000,
        -0x1000_0000 <= degrees.raw <= 0x1000_0000,
        !v.is_container(),
        near_point(v.frame.spec_bounds().spec_translate(offset).spec_center().spec_rotated(
            pivot,
            degrees,
        )),
    ensures
        rotatable_leaves(v, offset).len() == 1,
        ({
            let info = rotatable_leaves(v, offset)[0];
            let w = turned_leaf(v, info, pivot, degrees);
            let center = v.frame.spec_bounds().spec_translate(offset).spec_center();
            &&& w.frame.spec_bounds().spec_translate(offset).spec_center()
                == center.spec_rotated(pivot, degrees)
            &&& w.frame.size == v.frame.size
            &&& w.frame.rotation.raw == v.frame.rotation.raw + degrees.raw
            &&& w.style == v.style && w.id == v.id && w.name == v.name && w.children == v.children
            &&& degrees.raw == 0 ==> w.frame == v.frame
        }),
{
    let c = v.frame.spec_bounds().spec_translate(offset).spec_center();
    lemma_turned_place(v.frame, offset, c.spec_rotated(pivot, degrees));
    if degrees.raw == 0 {
        lemma_center(v.frame, offset);
        crate::plane::lemma_unturned(c, pivot);
    }
}

proof fn lemma_center(f: Frame<Fixed>, offset: Vec2<Fixed>)
    requires
        near_frame(f),
        f.size.x.raw >= 0 && f.size.y.raw >= 0,
        -0x800_0000 <= offset.x.raw <= 0x800_0000,
        -0x800_0000 <= offset.y.raw <= 0x800_0000,
    ensures
        near_point(f.spec_bounds().spec_translate(offset).spec_center()),
        f.spec_bounds().spec_translate(offset).spec_center().spec_minus(offset).spec_minus(
            f.size.spec_scaled(Fixed::spec_ratio(1, 2)),
        ) == f.pos,
{
    let b = f.spec_bounds().spec_translate(offset);
    lemma_halved(b.min.x, b.max.x);
    lemma_halved(b.min.y, b.max.y);
    lemma_half_of(f.size.x);
    lemma_half_of(f.size.y);
}

/// The frame of a turned layer has its middle where the turn takes it.
proof fn lemma_turned_place(f: Frame<Fixed>, offset: Vec2<Fixed>, d: Pos2<Fixed>)
    requires
        near_frame(f),
        f.size.x.raw >= 0 && f.size.y.raw >= 0,
        -0x800_0000 <= offset.x.raw <= 0x800_0000,
        -0x800_0000 <= offset.y.raw <= 0x800_0000,
        near_point(d),
    ensures
        forall|turn: Fixed|
            (#[trigger] Frame {
                pos: d.spec_minus(offset).spec_minus(f.size.spec_scaled(Fixed::spec_ratio(1, 2))),
                size: f.size,
                rotation: turn,
            }.spec_bounds()).spec_translate(offset).spec_center() == d,
{
    lemma_half_of(f.size.x);
    lemma_half_of(f.size.y);
    let pos = d.spec_minus(offset).spec_minus(f.size.spec_scaled(Fixed::spec_ratio(1, 2)));
    let w = Frame { pos, ..f }.spec_bounds().spec_translate(offset);
    lemma_halved(w.min.x, w.max.x);
    lemma_halved(w.min.y, w.max.y);
}

/// Half of a number, as the product with one half gives it.
pub proof fn lemma_half_of(a: Fixed)
    ensures
        a.spec_times(Fixed::spec_ratio(1, 2)).raw == a.raw as int / 2,
{
    assert(Fixed::spec_ratio(1, 2).raw == 32768);
    assert((a.raw * 32768) / 65536 == a.raw as int / 2);
}

/// The points that a turned path stores are, on the page, where the turn takes them; so are those of a
/// resized one.
pub proof fn law_stored_points_go_along(
    p: Pos2<Fixed>,
    pivot: Pos2<Fixed>,
    degrees: Fixed,
    map: Rescale<Fixed>,
    base: Vec2<Fixed>,
    offset: Vec2<Fixed>,
    origin: Pos2<Fixed>,
)
    requires
        near_point(p) && near(base.x) && near(base.y),
        -0x1000_0000 <= offset.x.raw <= 0x1000_0000,
        -0x1000_0000 <= offset.y.raw <= 0x1000_0000,
        -0x1000_0000 <= origin.x.raw <= 0x1000_0000,
        -0x1000_0000 <= origin.y.raw <= 0x1000_0000,
        ({
            let at = Pos2 { x: base.x, y: base.y }.spec_plus(p.spec_to_vec2());
            near_point(at.spec_rotated(pivot, degrees)) && near_point(map.spec_apply(at))
        }),
    ensures
        ({
            let at = Pos2 { x: base.x, y: base.y }.spec_plus(p.spec_to_vec2());
            let turn = Remap::Turn { pivot, degrees, base, parent_offset: offset, origin };
            let stretch = Remap::Stretch {
                map,
                from: Pos2 { x: base.x, y: base.y },
                parent_offset: offset,
                origin,
            };
            let on_page = |q: Pos2<Fixed>| q.spec_plus(origin.spec_to_vec2()).spec_plus(offset);
            &&& on_page(turn.spec_point(p)) == at.spec_rotated(pivot, degrees)
            &&& on_page(stretch.spec_point(p)) == map.spec_apply(at)
        }),
{
}

/// The way of a move is the way of the pointer; with Shift only along one axis, the one on which it
/// went farther.
pub proof fn law_a_move_follows_the_pointer(from: Pos2<Fixed>, to: Pos2<Fixed>)
    requires
        near_point(from) && near_point(to),
    ensures
        from.spec_plus(move_delta(from, to, false)) == to,
        ({
            let d = move_delta(from, to, false);
            let e = move_delta(from, to, true);
            let ax = d.x.spec_magnitude().raw;
            let ay = d.y.spec_magnitude().raw;
            &&& ax >= ay ==> e.x == d.x && e.y.raw == 0
            &&& ax < ay ==> e.x.raw == 0 && e.y == d.y
        }),
{
}

/// A layer that is moved is where it was put, and nothing else of it changes; no other layer is
/// changed, apart from what it holds.
pub proof fn law_moved_layers_are_where_they_were_put<S: Scalar>(
    s: Seq<LayerView<S>>,
    targets: Seq<(LayerId, Pos2<S>)>,
    i: int,
    other: LayerId,
)
    requires
        0 <= i < targets.len(),
        forall|j: int, k: int|
            0 <= j < k < targets.len() ==> (#[trigger] targets[j]).0 != (#[trigger] targets[k]).0,
        forall|j: int| 0 <= j < targets.len() ==> (#[trigger] targets[j]).0 != other,
    ensures
        find(s, targets[i].0) matches Some(v) ==> (find(
            repositioned(s, targets),
            targets[i].0,
        ) matches Some(w) && w == v.with_frame(
            Frame { pos: targets[i].1, ..v.frame },
        ).with_children(w.children)),
        find(s, other) matches Some(v) ==> (find(repositioned(s, targets), other) matches Some(w)
            && w == v.with_children(w.children)),
        find(repositioned(s, targets), other) is Some ==> find(s, other) is Some,
{
    lemma_put(s, targets, i);
    lemma_untouched(s, targets, other);
}

/// A layer that is moved is where it was put.
pub proof fn lemma_put<S: Scalar>(s: Seq<LayerView<S>>, targets: Seq<(LayerId, Pos2<S>)>, i: int)
    requires
        0 <= i < targets.len(),
        forall|j: int, k: int|
            0 <= j < k < targets.len() ==> (#[trigger] targets[j]).0 != (#[trigger] targets[k]).0,
    ensures
        find(s, targets[i].0) matches Some(v) ==> (find(
            repositioned(s, targets),
            targets[i].0,
        ) matches Some(w) && w == v.with_frame(
            Frame { pos: targets[i].1, ..v.frame },
        ).with_children(w.children)),
    decreases targets.len(),
{
    let t = targets.drop_last();
    let last = targets.last();
    let f = |v: LayerView<S>| at_pos(v, last.1);
    assert(is_shallow(f)) by {
        assert forall|v: LayerView<S>, c: Seq<LayerView<S>>| #[trigger]
            f(v.with_children(c)) == f(v).with_children(c) by {}
    }
    assert(repositioned(s, targets) == with_layer(repositioned(s, t), last.0, f));
    assert forall|j: int, k: int| 0 <= j < k < t.len() implies (#[trigger] t[j]).0 != (
    #[trigger] t[k]).0 by {
        assert(targets[j].0 != targets[k].0);
    }
    lemma_changed_layer(repositioned(s, t), last.0, f, targets[i].0);
    if i < t.len() {
        lemma_put(s, t, i);
        assert(t[i] == targets[i]);
        assert(targets[i].0 != targets[targets.len() - 1].0);
    } else {
        assert forall|j: int| 0 <= j < t.len() implies (#[trigger] t[j]).0 != last.0 by {
            assert(targets[j].0 != targets[targets.len() - 1].0);
        }
        lemma_untouched(s, t, last.0);
    }
}

/// Moving some layers changes no other, apart from what it holds.
proof fn lemma_untouched<S: Scalar>(
    s: Seq<LayerView<S>>,
    targets: Seq<(LayerId, Pos2<S>)>,
    other: LayerId,
)
    requires
        forall|j: int| 0 <= j < targets.len() ==> (#[trigger] targets[j]).0 != other,
    ensures
        find(repositioned(s, targets), other) is Some <==> find(s, other) is Some,
        find(s, other) matches Some(v) ==> (find(repositioned(s, targets), other) matches Some(w)
            && w == v.with_children(w.children)),
    decreases targets.len(),
{
    if targets.len() > 0 {
        let t = targets.drop_last();
        let last = targets.last();
        let f = |v: LayerView<S>| at_pos(v, last.1);
        assert(is_shallow(f)) by {
            assert forall|v: LayerView<S>, c: Seq<LayerView<S>>| #[trigger]
                f(v.with_children(c)) == f(v).with_children(c) by {}
        }
        assert(repositioned(s, targets) == with_layer(repositioned(s, t), last.0, f));
        assert forall|j: int| 0 <= j < t.len() implies (#[trigger] t[j]).0 != other by {
            assert(targets[j].0 != other);
        }
        lemma_untouched(s, t, other);
        assert(targets[targets.len() - 1].0 != other);
        lemma_changed_layer(repositioned(s, t), last.0, f, other);
    }
}

/// What a moved selection is put at: each layer as far from where it began as any other.
pub proof fn law_a_selection_moves_as_one(
    starts: Seq<(LayerId, Pos2<Fixed>)>,
    by: Vec2<Fixed>,
    i: int,
    d: Vec2<Fixed>,
)
    requires
        0 <= i < starts.len(),
        near_point(starts[i].1),
        near(by.x) && near(by.y),
    ensures
        shifted(starts, by).len() == starts.len(),
        shifted(starts, by)[i].0 == starts[i].0,
        shifted(starts, by)[i].1.x.raw == starts[i].1.x.raw + by.x.raw,
        shifted(starts, by)[i].1.y.raw == starts[i].1.y.raw + by.y.raw,
        along(d, DistributeAxis::Horizontal).x == d.x,
        along(d, DistributeAxis::Horizontal).y.raw == 0,
        along(d, DistributeAxis::Vertical).y == d.y,
        along(d, DistributeAxis::Vertical).x.raw == 0,
{
}

/// Dragging a gap moves all layers behind it, each by as much, and none before it.
pub proof fn law_a_dragged_gap_moves_what_is_behind_it<S: Scalar>(
    order: Seq<LayerId>,
    places: Seq<Pos2<S>>,
    gap: int,
    by: Vec2<S>,
)
    requires
        0 <= gap,
        order.len() <= places.len(),
    ensures
        ({
            let moved = beyond_gap(order, places, gap, by);
            &&& moved.len() == (if order.len() > gap + 1 {
                order.len() - gap - 1
            } else {
                0
            })
            &&& forall|k: int|
                0 <= k < moved.len() ==> (#[trigger] moved[k]).0 == order[gap + 1 + k]
                    && moved[k].1.x == places[gap + 1 + k].x.spec_plus(by.x) && moved[k].1.y
                    == places[gap + 1 + k].y.spec_plus(by.y)
        }),
    decreases order.len(),
{
    if order.len() > gap + 1 {
        law_a_dragged_gap_moves_what_is_behind_it(order.drop_last(), places, gap, by);
    }
}

/// With Shift a turn is a whole number of fifteen degrees, the one nearest to what it is without.
pub proof fn law_turns_in_steps_of_fifteen(pivot: Pos2<Fixed>, start: Fixed, p: Pos2<Fixed>)
    ensures
        ({
            let free = turn_angle(pivot, start, p, false).raw as int;
            let stepped = turn_angle(pivot, start, p, true).raw as int;
            -0x1000_0000 <= free <= 0x1000_0000 ==> stepped % 983040 == 0 && -491535 <= stepped
                - free <= 491520
        }),
{
    if -0x1000_0000 <= turn_angle(pivot, start, p, false).raw <= 0x1000_0000 {
        lemma_stepped(turn_angle(pivot, start, p, false));
    }
}

/// A number rounded to the nearest multiple of fifteen.
proof fn lemma_stepped(d: Fixed)
    requires
        -0x1000_0000 <= d.raw <= 0x1000_0000,
    ensures
        ({
            let step = Fixed::spec_ratio(15, 1);
            let r = d.spec_over(step).spec_rounded().spec_times(step).raw as int;
            r % 983040 == 0 && -491535 <= r - d.raw <= 491520
        }),
{
    let n = d.raw as int;
    let q = (n * 65536) / 983040;
    assert(q == n / 15);
    let step = Fixed::spec_ratio(15, 1);
    let over = d.spec_over(step);
    assert(over.raw == q);
    let k: int = if q < 0 {
        -((32768 - q) / 65536)
    } else {
        (q + 32768) / 65536
    };
    let r = over.spec_rounded();
    assert(r.raw == k * 65536);
    assert((k * 65536 * 983040) / 65536 == k * 983040) by (nonlinear_arith);
    assert(r.raw * step.raw == k * 65536 * 983040);
    assert((k * 983040) % 983040 == 0) by (nonlinear_arith);
}

/// A handle that is pulled out of a point goes to where it is pulled, and the other to the opposite
/// side, as far.
pub proof fn law_pulled_handles_are_opposite(
    points: Seq<PathPoint<Fixed>>,
    i: int,
    p: Pos2<Fixed>,
)
    requires
        0 <= i < points.len(),
        near_point(points[i].anchor),
        near_point(p),
    ensures
        ({
            let q = handle_pulled(points, i, p);
            &&& q.len() == points.len()
            &&& forall|j: int| 0 <= j < q.len() && j != i ==> #[trigger] q[j] == points[j]
            &&& q[i].anchor == points[i].anchor
            &&& q[i].handle_out matches Some(h) && points[i].anchor.spec_plus(h) == p
            &&& q[i].handle_in matches Some(g) && g.x.raw + (q[i].handle_out->0).x.raw == 0
                && g.y.raw + (q[i].handle_out->0).y.raw == 0
        }),
{
}

/// A handle that is set is where it is set; the other mirrors it on a mirrored point, stays on one
/// whose handles are apart, and the anchor never moves.
pub proof fn law_set_handles_follow_their_type(
    p: PathPoint<Fixed>,
    side: HandleSide,
    d: Vec2<Fixed>,
)
    requires
        near(d.x) && near(d.y),
    ensures
        ({
            let q = handle_set(p, side, d);
            let set = match side {
                HandleSide::In => q.handle_in,
                HandleSide::Out => q.handle_out,
            };
            let other = match side {
                HandleSide::In => q.handle_out,
                HandleSide::Out => q.handle_in,
            };
            let before = match side {
                HandleSide::In => p.handle_out,
                HandleSide::Out => p.handle_in,
            };
            &&& set == Some(d)
            &&& q.anchor == p.anchor && q.point_type == p.point_type && q.corner_radius
                == p.corner_radius
            &&& p.point_type == PointType::Mirror ==> (other matches Some(h) && h.x.raw == -d.x.raw
                && h.y.raw == -d.y.raw)
            &&& p.point_type == PointType::Disconnected || p.point_type == PointType::Straight
                ==> other == before
            &&& p.point_type == PointType::Asymmetric && d.y.raw == 0 && d.x.raw > 0 ==> (
            other matches Some(h) && h.y.raw == 0 && h.x.raw == -(match before {
                Some(b) => b.spec_length().raw as int,
                None => d.x.raw as int,
            }))
        }),
{
    if p.point_type == PointType::Asymmetric && d.y.raw == 0 && d.x.raw > 0 {
        let before = match side {
            HandleSide::In => p.handle_out,
            HandleSide::Out => p.handle_in,
        };
        let n = d.x.raw as int;
        assert(n * n + 0 * 0 == n * n);
        crate::fixed::lemma_whole_root(n * n + d.y.raw * d.y.raw, n);
        assert(d.spec_length().raw == n);
        assert((n * 65536) / n == 65536) by (nonlinear_arith)
            requires
                n > 0,
        ;
        let u = d.spec_unit();
        assert(0 * 65536 == 0);
        assert(u.x.raw == 65536);
        assert(u.y.raw == 0);
        let len = match before {
            Some(h) => h.spec_length(),
            None => d.spec_length(),
        };
        let m = len.raw as int;
        assert((-65536 * m) / 65536 == -m);
        assert(0 * m == 0);
        assert(len.raw >= 0) by {
            if let Some(h) = before {
                assert(h.x.raw * h.x.raw >= 0) by (nonlinear_arith);
                assert(h.y.raw * h.y.raw >= 0) by (nonlinear_arith);
                crate::fixed::lemma_root_is_real(h.x.raw * h.x.raw + h.y.raw * h.y.raw);
            }
        }
    }
}

/// The anchors that are dragged go where the drag takes them from where they began, whatever they are
/// at now; handles and other points stay.
pub proof fn law_dragged_anchors<S: Scalar>(
    points: Seq<PathPoint<S>>,
    indices: Seq<usize>,
    starts: Seq<Pos2<S>>,
    by: Vec2<S>,
    n: nat,
    i: int,
)
    requires
        n <= indices.len(),
        n <= starts.len(),
        indices.no_duplicates(),
        0 <= i < points.len(),
    ensures
        ({
            let q = anchors_moved(points, indices, starts, by, n);
            &&& q.len() == points.len()
            &&& q[i] == (PathPoint { anchor: q[i].anchor, ..points[i] })
            &&& (forall|k: int| 0 <= k < n ==> #[trigger] indices[k] != i) ==> q[i] == points[i]
            &&& forall|k: int|
                0 <= k < n && #[trigger] indices[k] == i ==> q[i].anchor.x == starts[k].x.spec_plus(
                    by.x,
                ) && q[i].anchor.y == starts[k].y.spec_plus(by.y)
        }),
    decreases n,
{
    if n > 0 {
        law_dragged_anchors(points, indices, starts, by, (n - 1) as nat, i);
        let t = anchors_moved(points, indices, starts, by, (n - 1) as nat);
        assert(t.len() == points.len());
    }
}

/// A container that is fitted has the corner of what it holds at its own, is as large as the box
/// around it, and is not turned.
pub proof fn law_a_fitted_container_bounds_what_it_holds<S: Scalar>(v: LayerView<S>)
    requires
        v.is_container(),
        v.children.len() > 0,
    ensures
        refitted(v).children.len() == v.children.len(),
        refitted(v).frame.rotation == S::spec_ratio(0, 1),
        refitted(v).frame.size == tight_union(refitted_all(v.children)).spec_size(),
        refitted(v).id == v.id && refitted(v).style == v.style && refitted(v).name == v.name,
{
    crate::transform::lemma_refitted_all(v.children);
}

/// The box around layers as they are drawn holds that of each, and reaches no farther than one does.
pub proof fn law_the_box_around_layers_is_tight(s: Seq<LayerView<Fixed>>, i: int)
    requires
        0 <= i < s.len(),
    ensures
        ({
            let all = tight_union(s);
            let b = tight_bounds(s[i]);
            &&& all.min.x.raw <= b.min.x.raw && all.min.y.raw <= b.min.y.raw
            &&& b.max.x.raw <= all.max.x.raw && b.max.y.raw <= all.max.y.raw
            &&& exists|j: int| 0 <= j < s.len() && tight_bounds(#[trigger] s[j]).min.x == all.min.x
            &&& exists|j: int| 0 <= j < s.len() && tight_bounds(#[trigger] s[j]).min.y == all.min.y
            &&& exists|j: int| 0 <= j < s.len() && tight_bounds(#[trigger] s[j]).max.x == all.max.x
            &&& exists|j: int| 0 <= j < s.len() && tight_bounds(#[trigger] s[j]).max.y == all.max.y
        }),
{
    let boxes = Seq::new(s.len(), |j: int| tight_bounds(s[j]));
    lemma_union_of_boxes(s);
    lemma_around(boxes, i);
    let all = around(boxes);
    let a = choose|j: int| 0 <= j < boxes.len() && (#[trigger] boxes[j]).min.x == all.min.x;
    let b = choose|j: int| 0 <= j < boxes.len() && (#[trigger] boxes[j]).min.y == all.min.y;
    let c = choose|j: int| 0 <= j < boxes.len() && (#[trigger] boxes[j]).max.x == all.max.x;
    let d = choose|j: int| 0 <= j < boxes.len() && (#[trigger] boxes[j]).max.y == all.max.y;
    assert(boxes[a] == tight_bounds(s[a]) && boxes[b] == tight_bounds(s[b]));
    assert(boxes[c] == tight_bounds(s[c]) && boxes[d] == tight_bounds(s[d]));
    assert(boxes[i] == tight_bounds(s[i]));
}

/// The box around boxes.
pub open spec fn around(boxes: Seq<Rect<Fixed>>) -> Rect<Fixed>
    decreases boxes.len(),
{
    if boxes.len() <= 1 {
        boxes[0]
    } else {
        around(boxes.drop_last()).spec_union(boxes.last())
    }
}

proof fn lemma_union_of_boxes(s: Seq<LayerView<Fixed>>)
    requires
        s.len() > 0,
    ensures
        tight_union(s) == around(Seq::new(s.len(), |j: int| tight_bounds(s[j]))),
    decreases s.len(),
{
    let boxes = Seq::new(s.len(), |j: int| tight_bounds(s[j]));
    if s.len() > 1 {
        let t = s.drop_last();
        lemma_union_of_boxes(t);
        assert(Seq::new(t.len(), |j: int| tight_bounds(t[j])) =~= boxes.drop_last());
    }
}

pub proof fn lemma_around(boxes: Seq<Rect<Fixed>>, i: int)
    requires
        0 <= i < boxes.len(),
    ensures
        ({
            let all = around(boxes);
            let b = boxes[i];
            &&& all.min.x.raw <= b.min.x.raw && all.min.y.raw <= b.min.y.raw
            &&& b.max.x.raw <= all.max.x.raw && b.max.y.raw <= all.max.y.raw
            &&& exists|j: int| 0 <= j < boxes.len() && (#[trigger] boxes[j]).min.x == all.min.x
            &&& exists|j: int| 0 <= j < boxes.len() && (#[trigger] boxes[j]).min.y == all.min.y
            &&& exists|j: int| 0 <= j < boxes.len() && (#[trigger] boxes[j]).max.x == all.max.x
            &&& exists|j: int| 0 <= j < boxes.len() && (#[trigger] boxes[j]).max.y == all.max.y
        }),
    decreases boxes.len(),
{
    let n = boxes.len() - 1;
    let t = boxes.drop_last();
    if n == 0 {
        assert(boxes[0] == boxes[i]);
    } else {
        lemma_around(t, if i < n {
            i
        } else {
            0
        });
        if i < n {
            assert(t[i] == boxes[i]);
        }
        let r = around(t);
        let a = choose|j: int| 0 <= j < t.len() && (#[trigger] t[j]).min.x == r.min.x;
        let b = choose|j: int| 0 <= j < t.len() && (#[trigger] t[j]).min.y == r.min.y;
        let c = choose|j: int| 0 <= j < t.len() && (#[trigger] t[j]).max.x == r.max.x;
        let d = choose|j: int| 0 <= j < t.len() && (#[trigger] t[j]).max.y == r.max.y;
        assert(boxes[a] == t[a] && boxes[b] == t[b] && boxes[c] == t[c] && boxes[d] == t[d]);
        assert(boxes[n] == boxes.last());
    }
}

/// As it is drawn, an upright oval fills its frame, and one turned by a quarter fills it turned: as
/// wide as the frame is high, about the same middle.
pub proof fn law_an_oval_is_as_large_as_its_frame(v: LayerView<Fixed>)
    requires
        v.kind is Oval,
        near_frame(v.frame),
        v.frame.size.x.raw >= 0 && v.frame.size.y.raw >= 0,
    ensures
        v.frame.rotation.raw == 0 ==> tight_bounds(v).min == v.frame.pos && tight_bounds(v).max
            == v.frame.spec_end(),
        v.frame.rotation == Fixed::spec_ratio(90, 1) ==> ({
            let b = tight_bounds(v);
            &&& b.spec_center() == v.frame.spec_bounds().spec_center()
            &&& 0 <= v.frame.size.y.raw - (b.max.x.raw - b.min.x.raw) <= 1
            &&& 0 <= v.frame.size.x.raw - (b.max.y.raw - b.min.y.raw) <= 1
        }),
{
    if v.frame.rotation == Fixed::spec_ratio(90, 1) {
        let f = v.frame.spec_bounds();
        crate::plane::lemma_quarters();
        assert(v.frame.rotation.raw == 5898240);
        let a = f.spec_width().spec_over(Fixed::spec_ratio(2, 1));
        let b = f.spec_height().spec_over(Fixed::spec_ratio(2, 1));
        lemma_half(f.spec_width());
        lemma_half(f.spec_height());
        lemma_times_one(a);
        lemma_times_one(b);
        let (m, n) = (a.raw as int, b.raw as int);
        assert(0 * 0 == 0);
        crate::fixed::lemma_whole_root(0 * 0 + n * n, n);
        crate::fixed::lemma_whole_root(m * m + 0 * 0, m);
        let half = Vec2 { x: b, y: a };
        let two = Fixed::spec_ratio(2, 1);
        assert(two.raw == 131072);
        assert((n * 131072) / 65536 == 2 * n);
        assert((m * 131072) / 65536 == 2 * m);
        let size = half.spec_scaled(two);
        assert(size.x.raw == 2 * n && size.y.raw == 2 * m);
        assert((2 * n * 32768) / 65536 == n);
        assert((2 * m * 32768) / 65536 == m);
        assert(Fixed::spec_ratio(1, 2).raw == 32768);
        let c = f.spec_center();
        lemma_halved(f.min.x, f.max.x);
        lemma_halved(f.min.y, f.max.y);
        let r = Rect::spec_from_center_size(c, size);
        assert(tight_bounds(v) == r);
        lemma_halved(r.min.x, r.max.x);
        lemma_halved(r.min.y, r.max.y);
    }
}

} // verus!
