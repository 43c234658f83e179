//! What the pointer is over: the grips around the selection, the points of a path, the gaps of a
//! distribution; with the marks that show them.
use vstd::prelude::*;

use crate::alignment::DistributeAxis;
use crate::canvas::{CanvasView, CanvasWidget, DragState, PathPart};
use crate::document::{Guide, GuideOrientation, Page};
use crate::geometry::{Pos2, Rect, Vec2};
use crate::grouping::has_id;
use crate::marks::{Ink, Mark};
use crate::model::{group_views, Frame, Layer, LayerId, LayerKind, LayerView, PathPoint};
use crate::path_edit::has_index;
use crate::placement::{distribution_order, gap_handle_positions, gap_middle, ordered_boxes, Tool};
use crate::scalar::Scalar;
use crate::transform::{display_bounds, shown_bounds, Handle, ResizeCursor};

verus! {

broadcast use group_views;

/// The named layers that exist, with the offsets of their parents.
pub open spec fn placed_layers<S: Scalar>(s: Seq<LayerView<S>>, ids: Seq<LayerId>) -> Seq<
    (LayerView<S>, Vec2<S>),
>
    decreases ids.len(),
{
    if ids.len() == 0 {
        Seq::empty()
    } else {
        let rest = placed_layers(s, ids.drop_last());
        match (
            crate::tree::find(s, ids.last()),
            crate::document::offset_of(s, ids.last(), Vec2::spec_zero()),
        ) {
            (Some(v), Some(outer)) => rest.push((v, outer)),
            _ => rest,
        }
    }
}

pub open spec fn placed_views<S: Scalar>(s: Seq<(&Layer<S>, Vec2<S>)>) -> Seq<
    (LayerView<S>, Vec2<S>),
> {
    Seq::new(s.len(), |i: int| (s[i].0@, s[i].1))
}

/// The named layers that exist, with the offsets of their parents.
pub fn selected_layers<'a, S: Scalar>(page: &'a Page<S>, ids: &Vec<LayerId>) -> (r: Vec<
    (&'a Layer<S>, Vec2<S>),
>)
    ensures
        placed_views(r@) == placed_layers(page@.layers, ids@),
{
    let mut r: Vec<(&'a Layer<S>, Vec2<S>)> = Vec::new();
    let mut k: usize = 0;
    assert(ids@.take(0) =~= Seq::empty());
    assert(placed_views(r@) =~= Seq::empty());
    while k < ids.len()
        invariant
            k <= ids.len(),
            placed_views(r@) == placed_layers(page@.layers, ids@.take(k as int)),
        decreases ids.len() - k,
    {
        assert(ids@.take(k + 1).drop_last() =~= ids@.take(k as int));
        let ghost before = placed_views(r@);
        if let (Some(layer), Some(outer)) = (page.find(ids[k]), page.absolute_offset(ids[k])) {
            r.push((layer, outer));
            assert(placed_views(r@) =~= before.push((layer@, outer)));
        }
        k += 1;
    }
    assert(ids@.take(k as int) =~= ids@);
    r
}

/// The box around what is shown of some layers.
pub open spec fn overall_box<S: Scalar>(placed: Seq<(LayerView<S>, Vec2<S>)>) -> Rect<S>
    decreases placed.len(),
{
    let b = shown_bounds(placed.last().0).spec_translate(placed.last().1);
    if placed.len() <= 1 {
        b
    } else {
        overall_box(placed.drop_last()).spec_union(b)
    }
}

/// The box around what is shown of some layers.
pub fn overall_bounds<S: Scalar>(placed: &Vec<(&Layer<S>, Vec2<S>)>) -> (r: Rect<S>)
    requires
        placed.len() > 0,
    ensures
        r == overall_box(placed_views(placed@)),
{
    let ghost all = placed_views(placed@);
    let mut b = display_bounds(placed[0].0).translate(placed[0].1);
    let mut i: usize = 1;
    assert(all.take(1).last() == all[0]);
    while i < placed.len()
        invariant
            1 <= i <= placed.len(),
            all == placed_views(placed@),
            b == overall_box(all.take(i as int)),
        decreases placed.len() - i,
    {
        assert(all.take(i + 1).drop_last() =~= all.take(i as int));
        assert(all.take(i + 1).last() == all[i as int]);
        b = b.union(display_bounds(placed[i].0).translate(placed[i].1));
        i += 1;
    }
    assert(all.take(i as int) =~= all);
    b
}

/// Whether the pointer is within eight pixels of a point of the screen.
pub open spec fn near<S: Scalar>(pointer: Option<Pos2<S>>, p: Pos2<S>) -> bool {
    pointer matches Some(mp) && mp.spec_distance(p).spec_le(S::spec_ratio(8, 1))
}

/// Whether the pointer is within eight pixels of a point of the screen.
pub fn is_near<S: Scalar>(pointer: Option<Pos2<S>>, p: Pos2<S>) -> (r: bool)
    ensures
        r == near(pointer, p),
{
    match pointer {
        Some(mp) => mp.distance(p).is_le(S::ratio(8, 1)),
        None => false,
    }
}

/// The two ends of a line on the screen.
pub open spec fn line_ends<S: Scalar>(
    c: CanvasView<S>,
    origin: Pos2<S>,
    frame: Frame<S>,
    outer: Vec2<S>,
) -> (Pos2<S>, Pos2<S>) {
    let center = c.to_screen(origin, frame.spec_bounds().spec_translate(outer).spec_center());
    (
        c.to_screen(origin, frame.spec_start().spec_plus(outer)).spec_rotated(
            center,
            frame.rotation,
        ),
        c.to_screen(origin, frame.spec_end().spec_plus(outer)).spec_rotated(center, frame.rotation),
    )
}

/// Where a point of a path, and one of its handles, are on the screen.
pub open spec fn point_on_screen<S: Scalar>(
    c: CanvasView<S>,
    origin: Pos2<S>,
    pos: Pos2<S>,
    outer: Vec2<S>,
    p: PathPoint<S>,
    handle: Option<Vec2<S>>,
) -> Pos2<S> {
    let anchor = p.anchor.spec_plus(pos.spec_to_vec2()).spec_plus(outer);
    c.to_screen(
        origin,
        match handle {
            Some(h) => anchor.spec_plus(h),
            None => anchor,
        },
    )
}

/// The part of a path that the pointer is over, among the first `k` points: later ones before
/// earlier ones, and an anchor before its handles.
pub open spec fn point_under<S: Scalar>(
    c: CanvasView<S>,
    origin: Pos2<S>,
    pos: Pos2<S>,
    outer: Vec2<S>,
    points: Seq<PathPoint<S>>,
    pointer: Option<Pos2<S>>,
    k: nat,
) -> Option<(usize, PathPart)>
    decreases k,
{
    if k == 0 {
        None
    } else {
        let i = (k - 1) as usize;
        let p = points[k - 1];
        if near(pointer, point_on_screen(c, origin, pos, outer, p, None)) {
            Some((i, PathPart::Anchor))
        } else if p.handle_out is Some && near(
            pointer,
            point_on_screen(c, origin, pos, outer, p, p.handle_out),
        ) {
            Some((i, PathPart::HandleOut))
        } else if p.handle_in is Some && near(
            pointer,
            point_on_screen(c, origin, pos, outer, p, p.handle_in),
        ) {
            Some((i, PathPart::HandleIn))
        } else {
            point_under(c, origin, pos, outer, points, pointer, (k - 1) as nat)
        }
    }
}

/// A box of the page on the screen.
pub open spec fn box_on_screen<S: Scalar>(c: CanvasView<S>, origin: Pos2<S>, b: Rect<S>) -> Rect<S> {
    Rect::spec_from_two_pos(c.to_screen(origin, b.min), c.to_screen(origin, b.max))
}

/// Where a grip of a turned box is.
pub open spec fn grip_at<S: Scalar>(h: Handle, b: Rect<S>, turn: S) -> Pos2<S> {
    h.spec_pos(b).spec_rotated(b.spec_center(), turn)
}

/// The grip that the pointer is over, among the first `k`: later ones before earlier ones.
pub open spec fn grip_under<S: Scalar>(
    b: Rect<S>,
    turn: S,
    pointer: Option<Pos2<S>>,
    k: nat,
) -> Option<Handle>
    decreases k,
{
    if k == 0 {
        None
    } else {
        let h = Handle::spec_all()[k - 1];
        if near(pointer, grip_at(h, b, turn)) {
            Some(h)
        } else {
            grip_under(b, turn, pointer, (k - 1) as nat)
        }
    }
}

/// The corner that the pointer is just outside of, among the first `k` grips: more than eight and
/// at most twenty pixels away.
pub open spec fn corner_near<S: Scalar>(
    b: Rect<S>,
    turn: S,
    pointer: Option<Pos2<S>>,
    k: nat,
) -> Option<Handle>
    decreases k,
{
    if k == 0 {
        None
    } else {
        let h = Handle::spec_all()[k - 1];
        if !near(pointer, grip_at(h, b, turn)) && h.spec_is_corner() && (pointer matches Some(mp)
            && mp.spec_distance(grip_at(h, b, turn)).spec_le(S::spec_ratio(20, 1))) {
            Some(h)
        } else {
            corner_near(b, turn, pointer, (k - 1) as nat)
        }
    }
}

/// The last of the first `k` gaps that the pointer is over.
pub open spec fn gap_under<S: Scalar>(
    c: CanvasView<S>,
    origin: Pos2<S>,
    order: Seq<(LayerId, Rect<S>)>,
    axis: DistributeAxis,
    pointer: Option<Pos2<S>>,
    k: nat,
) -> Option<usize>
    decreases k,
{
    if k == 0 {
        None
    } else if near(
        pointer,
        c.to_screen(origin, gap_middle(order[k - 1].1, order[k as int].1, axis)),
    ) {
        Some((k - 1) as usize)
    } else {
        gap_under(c, origin, order, axis, pointer, (k - 1) as nat)
    }
}

/// What the pointer is over.
#[derive(Debug, PartialEq)]
pub struct Hover<S> {
    pub handle: Option<Handle>,
    /// The corner outside of which a drag turns the selection.
    pub rotate_corner: Option<Handle>,
    pub point: Option<(usize, PathPart)>,
    /// The gap of the last distribution.
    pub gap: Option<usize>,
    /// The distributed layers in their order, while their gaps are shown.
    pub gap_order: Vec<(LayerId, Rect<S>)>,
}

/// [`Hover`] over sequences.
#[verifier::ext_equal]
pub struct HoverView<S> {
    pub handle: Option<Handle>,
    pub rotate_corner: Option<Handle>,
    pub point: Option<(usize, PathPart)>,
    pub gap: Option<usize>,
    pub gap_order: Seq<(LayerId, Rect<S>)>,
}

impl<S: Scalar> Hover<S> {
    pub open spec fn view(&self) -> HoverView<S> {
        HoverView {
            handle: self.handle,
            rotate_corner: self.rotate_corner,
            point: self.point,
            gap: self.gap,
            gap_order: self.gap_order@,
        }
    }
}

/// The turn of the selection's outline: that of a single layer, none for several.
pub open spec fn outline_turn<S: Scalar>(placed: Seq<(LayerView<S>, Vec2<S>)>) -> S {
    if placed.len() == 1 {
        placed[0].0.frame.rotation
    } else {
        S::spec_ratio(0, 1)
    }
}

/// Whether a single line or arrow is selected.
pub open spec fn is_single_line<S>(placed: Seq<(LayerView<S>, Vec2<S>)>) -> bool {
    placed.len() == 1 && (placed[0].0.kind is Line || placed[0].0.kind is Arrow)
}

/// Whether a single path is selected.
pub open spec fn is_single_path<S>(placed: Seq<(LayerView<S>, Vec2<S>)>) -> bool {
    placed.len() == 1 && placed[0].0.kind is Path
}

/// The distributed layers in their order, while exactly they are selected and nothing is dragged.
pub open spec fn shown_gaps<S: Scalar>(
    c: CanvasView<S>,
    s: Seq<LayerView<S>>,
    tool: Tool,
    selection: Seq<LayerId>,
) -> Option<(Seq<(LayerId, Rect<S>)>, DistributeAxis)> {
    match c.last_distributed {
        Some((ids, axis)) => if tool == Tool::Select && c.drag is Idle && ids.to_multiset()
            == selection.to_multiset() && ids.len() >= 3 {
            Some((ordered_boxes(s, ids, axis), axis))
        } else {
            None
        },
        None => None,
    }
}

/// What the pointer is over.
#[verifier::opaque]
pub open spec fn hovered<S: Scalar>(
    c: CanvasView<S>,
    s: Seq<LayerView<S>>,
    tool: Tool,
    selection: Seq<LayerId>,
    origin: Pos2<S>,
    pointer: Option<Pos2<S>>,
) -> HoverView<S> {
    let placed = placed_layers(s, selection);
    let v = placed[0].0;
    let outer = placed[0].1;
    let b = box_on_screen(c, origin, overall_box(placed));
    let turn = outline_turn(placed);
    let boxed = placed.len() > 0 && !is_single_line(placed) && !is_single_path(placed);
    HoverView {
        handle: if is_single_line(placed) {
            let ends = line_ends(c, origin, v.frame, outer);
            if near(pointer, ends.1) {
                Some(Handle::BottomRight)
            } else if near(pointer, ends.0) {
                Some(Handle::TopLeft)
            } else {
                None
            }
        } else if boxed {
            grip_under(b, turn, pointer, 8)
        } else {
            None
        },
        rotate_corner: if boxed {
            corner_near(b, turn, pointer, 8)
        } else {
            None
        },
        point: if is_single_path(placed) {
            let points = v.kind->Path_points;
            point_under(c, origin, v.frame.pos, outer, points, pointer, points.len())
        } else {
            None
        },
        gap: match shown_gaps(c, s, tool, selection) {
            Some((order, axis)) => if order.len() > 0 {
                gap_under(c, origin, order, axis, pointer, (order.len() - 1) as nat)
            } else {
                None
            },
            None => None,
        },
        gap_order: match shown_gaps(c, s, tool, selection) {
            Some((order, axis)) => order,
            None => Seq::empty(),
        },
    }
}

/// Whether two lists have the same members, as often each.
pub fn same_members(a: &Vec<LayerId>, b: &Vec<LayerId>) -> (r: bool)
    ensures
        r == (a@.to_multiset() == b@.to_multiset()),
{
    broadcast use vstd::multiset::group_multiset_axioms, vstd::seq_lib::group_to_multiset_ensures;

    if a.len() != b.len() {
        assert(a@.to_multiset().len() == a@.len());
        assert(b@.to_multiset().len() == b@.len());
        return false;
    }
    let mut rest = crate::style::copy_vec(b);
    let mut i: usize = 0;
    assert(a@.take(0) =~= Seq::empty());
    assert(rest@.to_multiset().add(a@.take(0).to_multiset()) =~= b@.to_multiset());
    while i < a.len()
        invariant
            i <= a.len(),
            a.len() == b.len(),
            rest.len() + i == b.len(),
            rest@.to_multiset().add(a@.take(i as int).to_multiset()) == b@.to_multiset(),
        decreases a.len() - i,
    {
        broadcast use
            vstd::multiset::group_multiset_axioms,
            vstd::seq_lib::group_to_multiset_ensures,
        ;

        let x = a[i];
        let mut k: usize = 0;
        while k < rest.len() && rest[k] != x
            invariant
                k <= rest.len(),
                forall|j: int| 0 <= j < k ==> #[trigger] rest@[j] != x,
            decreases rest.len() - k,
        {
            k += 1;
        }
        assert(a@.take(i + 1) =~= a@.take(i as int).push(x));
        if k == rest.len() {
            proof {
                assert(!rest@.contains(x));
                assert(rest@.to_multiset().count(x) == 0);
                assert(a@ =~= a@.take(i + 1) + a@.skip(i + 1));
                vstd::seq_lib::lemma_multiset_commutative(a@.take(i + 1), a@.skip(i + 1));
                assert(a@.to_multiset().count(x) >= a@.take(i + 1).to_multiset().count(x));
                assert(a@.take(i + 1).to_multiset().count(x) == a@.take(
                    i as int,
                ).to_multiset().count(x) + 1);
                assert(b@.to_multiset().count(x) == a@.take(i as int).to_multiset().count(x));
            }
            return false;
        }
        let ghost before = rest@;
        rest.remove(k);
        assert(rest@ =~= before.remove(k as int));
        assert(rest@.to_multiset() =~= before.to_multiset().remove(x));
        assert(rest@.to_multiset().add(a@.take(i + 1).to_multiset()) =~= b@.to_multiset()) by {
            assert(before.contains(x)) by {
                assert(before[k as int] == x);
            }
            assert(before.to_multiset().count(x) > 0);
        }
        i += 1;
    }
    assert(a@.take(i as int) =~= a@);
    assert(rest@ =~= Seq::empty());
    assert(rest@.to_multiset().add(a@.to_multiset()) =~= a@.to_multiset());
    true
}

impl<S: Scalar> CanvasWidget<S> {
    fn line_ends(&self, origin: Pos2<S>, frame: Frame<S>, outer: Vec2<S>) -> (r: (
        Pos2<S>,
        Pos2<S>,
    ))
        ensures
            r == line_ends(self@, origin, frame, outer),
    {
        let center = self.to_screen(origin, frame.bounds().translate(outer).center());
        (
            self.to_screen(origin, frame.start().plus(outer)).rotated(center, frame.rotation),
            self.to_screen(origin, frame.end().plus(outer)).rotated(center, frame.rotation),
        )
    }

    fn point_on_screen(
        &self,
        origin: Pos2<S>,
        pos: Pos2<S>,
        outer: Vec2<S>,
        p: PathPoint<S>,
        handle: Option<Vec2<S>>,
    ) -> (r: Pos2<S>)
        ensures
            r == point_on_screen(self@, origin, pos, outer, p, handle),
    {
        let anchor = p.anchor.plus(pos.to_vec2()).plus(outer);
        self.to_screen(
            origin,
            match handle {
                Some(h) => anchor.plus(h),
                None => anchor,
            },
        )
    }

    fn point_under(
        &self,
        origin: Pos2<S>,
        pos: Pos2<S>,
        outer: Vec2<S>,
        points: &Vec<PathPoint<S>>,
        pointer: Option<Pos2<S>>,
    ) -> (r: Option<(usize, PathPart)>)
        ensures
            r == point_under(self@, origin, pos, outer, points@, pointer, points@.len()),
            r matches Some(found) ==> found.0 < points@.len(),
    {
        let mut r: Option<(usize, PathPart)> = None;
        let mut i: usize = 0;
        while i < points.len()
            invariant
                i <= points.len(),
                r == point_under(self@, origin, pos, outer, points@, pointer, i as nat),
                r matches Some(found) ==> found.0 < i,
            decreases points.len() - i,
        {
            let p = points[i];
            if is_near(pointer, self.point_on_screen(origin, pos, outer, p, None)) {
                r = Some((i, PathPart::Anchor));
            } else if p.handle_out.is_some() && is_near(
                pointer,
                self.point_on_screen(origin, pos, outer, p, p.handle_out),
            ) {
                r = Some((i, PathPart::HandleOut));
            } else if p.handle_in.is_some() && is_near(
                pointer,
                self.point_on_screen(origin, pos, outer, p, p.handle_in),
            ) {
                r = Some((i, PathPart::HandleIn));
            }
            i += 1;
        }
        r
    }

    fn box_on_screen(&self, origin: Pos2<S>, b: Rect<S>) -> (r: Rect<S>)
        ensures
            r == box_on_screen(self@, origin, b),
    {
        Rect::from_two_pos(self.to_screen(origin, b.min), self.to_screen(origin, b.max))
    }

    /// The distributed layers in their order, while their gaps are shown.
    pub fn gap_order(&self, page: &Page<S>, tool: Tool, selection: &Vec<LayerId>) -> (r: Option<
        (Vec<(LayerId, Rect<S>)>, DistributeAxis),
    >)
        ensures
            match shown_gaps(self@, page@.layers, tool, selection@) {
                Some((order, axis)) => r matches Some(found) && found.0@ == order && found.1
                    == axis,
                None => r is None,
            },
    {
        match (&self.last_distributed, &self.drag) {
            (Some((ids, axis)), DragState::Idle) => {
                if tool == Tool::Select && same_members(ids, selection) && ids.len() >= 3 {
                    Some((distribution_order(page, ids, *axis), *axis))
                } else {
                    None
                }
            },
            _ => None,
        }
    }

    /// What the pointer is over.
    #[verifier::rlimit(50)]
    pub fn hover(
        &self,
        page: &Page<S>,
        tool: Tool,
        selection: &Vec<LayerId>,
        origin: Pos2<S>,
        pointer: Option<Pos2<S>>,
    ) -> (r: Hover<S>)
        ensures
            r@ == hovered(self@, page@.layers, tool, selection@, origin, pointer),
            r@.point matches Some(found) ==> found.0 < placed_layers(
                page@.layers,
                selection@,
            )[0].0.kind->Path_points.len(),
            r@.handle is Some ==> placed_layers(page@.layers, selection@).len() > 0,
            r@.gap is Some ==> self@.last_distributed is Some,
    {
        proof {
            reveal(hovered);
        }
        let placed = selected_layers(page, selection);
        let ghost all = placed_views(placed@);
        assert(all == placed_layers(page@.layers, selection@));
        let mut handle: Option<Handle> = None;
        let mut rotate_corner: Option<Handle> = None;
        let mut point: Option<(usize, PathPart)> = None;
        let mut special = false;
        if placed.len() == 1 {
            let layer = placed[0].0;
            let outer = placed[0].1;
            assert(all[0].0 == layer@ && all[0].1 == outer);
            match &layer.kind {
                LayerKind::Line | LayerKind::Arrow { .. } => {
                    special = true;
                    let (start, end) = self.line_ends(origin, layer.frame, outer);
                    if is_near(pointer, end) {
                        handle = Some(Handle::BottomRight);
                    } else if is_near(pointer, start) {
                        handle = Some(Handle::TopLeft);
                    }
                },
                LayerKind::Path { points, .. } => {
                    special = true;
                    point = self.point_under(origin, layer.frame.pos, outer, points, pointer);
                },
                _ => {},
            }
        }
        if placed.len() > 0 && !special {
            let b = self.box_on_screen(origin, overall_bounds(&placed));
            let turn = if placed.len() == 1 {
                assert(all[0].0 == placed@[0].0@);
                placed[0].0.frame.rotation
            } else {
                S::ratio(0, 1)
            };
            let grips = Handle::all();
            let mut k: usize = 0;
            while k < 8
                invariant
                    k <= 8,
                    grips@ == Handle::spec_all(),
                    handle == grip_under(b, turn, pointer, k as nat),
                    rotate_corner == corner_near(b, turn, pointer, k as nat),
                decreases 8 - k,
            {
                let h = grips[k];
                let at = h.pos(b).rotated(b.center(), turn);
                if is_near(pointer, at) {
                    handle = Some(h);
                } else if let Some(mp) = pointer {
                    if h.is_corner() && mp.distance(at).is_le(S::ratio(20, 1)) {
                        rotate_corner = Some(h);
                    }
                }
                k += 1;
            }
        }
        let mut gap: Option<usize> = None;
        let mut gap_order: Vec<(LayerId, Rect<S>)> = Vec::new();
        if let Some((order, axis)) = self.gap_order(page, tool, selection) {
            let places = gap_handle_positions(&order, axis);
            let mut k: usize = 0;
            while k < places.len()
                invariant
                    k <= places.len(),
                    order@.len() > 0 ==> places@.len() == order@.len() - 1,
                    forall|i: int|
                        0 <= i < places@.len() ==> #[trigger] places@[i] == gap_middle(
                            order@[i].1,
                            order@[i + 1].1,
                            axis,
                        ),
                    gap == gap_under(self@, origin, order@, axis, pointer, k as nat),
                decreases places.len() - k,
            {
                if is_near(pointer, self.to_screen(origin, places[k])) {
                    gap = Some(k);
                }
                k += 1;
            }
            gap_order = order;
        }
        Hover { handle, rotate_corner, point, gap, gap_order }
    }
}

/// A grip.
pub open spec fn grip_mark<S: Scalar>(at: Pos2<S>) -> Mark<S> {
    Mark::Knob {
        center: at,
        radius: S::spec_ratio(45, 10),
        ink: Ink::White,
        width: S::spec_ratio(15, 10),
        rim: Ink::Selection,
    }
}

fn draw_grip<S: Scalar>(at: Pos2<S>) -> (r: Mark<S>)
    ensures
        r == grip_mark(at),
{
    Mark::Knob {
        center: at,
        radius: S::ratio(45, 10),
        ink: Ink::White,
        width: S::ratio(15, 10),
        rim: Ink::Selection,
    }
}

/// The handle of a path's point: its line and its knob, larger under the pointer.
pub open spec fn handle_marks<S: Scalar>(
    c: CanvasView<S>,
    origin: Pos2<S>,
    pos: Pos2<S>,
    outer: Vec2<S>,
    p: PathPoint<S>,
    handle: Option<Vec2<S>>,
    pointer: Option<Pos2<S>>,
) -> Seq<Mark<S>> {
    match handle {
        Some(h) => {
            let at = point_on_screen(c, origin, pos, outer, p, handle);
            let radius = if near(pointer, at) {
                S::spec_ratio(45, 10)
            } else {
                S::spec_ratio(3, 1)
            };
            let ink = if near(pointer, at) {
                Ink::Selection
            } else {
                Ink::HandleGrey
            };
            let one = S::spec_ratio(1, 1);
            seq![
                Mark::Line {
                    from: point_on_screen(c, origin, pos, outer, p, None),
                    to: at,
                    width: one,
                    ink: Ink::HandleGrey,
                },
                Mark::Disc { center: at, radius, ink: Ink::White },
                Mark::Ring { center: at, radius, width: one, ink },
            ]
        },
        None => Seq::empty(),
    }
}

/// The marks of the first `k` points of a path: handles and anchors, those that are selected or
/// under the pointer larger and filled.
pub open spec fn point_marks<S: Scalar>(
    c: CanvasView<S>,
    origin: Pos2<S>,
    pos: Pos2<S>,
    outer: Vec2<S>,
    points: Seq<PathPoint<S>>,
    pointer: Option<Pos2<S>>,
    k: nat,
) -> Seq<Mark<S>>
    decreases k,
{
    if k == 0 {
        Seq::empty()
    } else {
        let p = points[k - 1];
        let at = point_on_screen(c, origin, pos, outer, p, None);
        let strong = near(pointer, at) || c.selected_points.contains((k - 1) as usize);
        (point_marks(c, origin, pos, outer, points, pointer, (k - 1) as nat) + handle_marks(
            c,
            origin,
            pos,
            outer,
            p,
            p.handle_in,
            pointer,
        ) + handle_marks(c, origin, pos, outer, p, p.handle_out, pointer)).push(
            Mark::Knob {
                center: at,
                radius: if strong {
                    S::spec_ratio(45, 10).spec_times(S::spec_ratio(13, 10))
                } else {
                    S::spec_ratio(45, 10)
                },
                ink: if strong {
                    Ink::Selection
                } else {
                    Ink::White
                },
                width: S::spec_ratio(15, 10),
                rim: Ink::Selection,
            },
        )
    }
}

/// The outline of a box, tilted where it is turned.
pub open spec fn outline_mark<S: Scalar>(b: Rect<S>, turn: S, width: S, ink: Ink) -> Mark<S> {
    if turn.spec_same(S::spec_ratio(0, 1)) {
        Mark::Outline { rect: b, width, ink }
    } else {
        let m = b.spec_center();
        Mark::Tilted {
            a: b.spec_corners()[0].spec_rotated(m, turn),
            b: b.spec_corners()[1].spec_rotated(m, turn),
            c: b.spec_corners()[2].spec_rotated(m, turn),
            d: b.spec_corners()[3].spec_rotated(m, turn),
            width,
            ink,
        }
    }
}

fn draw_outline<S: Scalar>(b: Rect<S>, turn: S, width: S, ink: Ink) -> (r: Mark<S>)
    ensures
        r == outline_mark(b, turn, width, ink),
{
    if turn.is_same(S::ratio(0, 1)) {
        Mark::Outline { rect: b, width, ink }
    } else {
        let m = b.center();
        Mark::Tilted {
            a: b.min.rotated(m, turn),
            b: Pos2 { x: b.max.x, y: b.min.y }.rotated(m, turn),
            c: b.max.rotated(m, turn),
            d: Pos2 { x: b.min.x, y: b.max.y }.rotated(m, turn),
            width,
            ink,
        }
    }
}

/// The outlines of the first `k` selected layers, that of the reference layer stronger.
pub open spec fn layer_outlines<S: Scalar>(
    c: CanvasView<S>,
    origin: Pos2<S>,
    placed: Seq<(LayerView<S>, Vec2<S>)>,
    k: nat,
) -> Seq<Mark<S>>
    decreases k,
{
    if k == 0 {
        Seq::empty()
    } else {
        let (v, outer) = placed[k - 1];
        let b = box_on_screen(c, origin, shown_bounds(v).spec_translate(outer));
        layer_outlines(c, origin, placed, (k - 1) as nat).push(
            if c.reference_layer == Some(v.id) {
                outline_mark(b, v.frame.rotation, S::spec_ratio(25, 10), Ink::Selection)
            } else {
                outline_mark(b, v.frame.rotation, S::spec_ratio(1, 1), Ink::SelectionDim)
            },
        )
    }
}

/// The first `k` grips of a turned box.
pub open spec fn grip_marks<S: Scalar>(b: Rect<S>, turn: S, k: nat) -> Seq<Mark<S>>
    decreases k,
{
    if k == 0 {
        Seq::empty()
    } else {
        grip_marks(b, turn, (k - 1) as nat).push(
            grip_mark(grip_at(Handle::spec_all()[k - 1], b, turn)),
        )
    }
}

/// The first `k` gap knobs of a distribution.
pub open spec fn gap_marks<S: Scalar>(
    c: CanvasView<S>,
    origin: Pos2<S>,
    order: Seq<(LayerId, Rect<S>)>,
    axis: DistributeAxis,
    pointer: Option<Pos2<S>>,
    k: nat,
) -> Seq<Mark<S>>
    decreases k,
{
    if k == 0 {
        Seq::empty()
    } else {
        let at = c.to_screen(origin, gap_middle(order[k - 1].1, order[k as int].1, axis));
        gap_marks(c, origin, order, axis, pointer, (k - 1) as nat).push(
            Mark::Knob {
                center: at,
                radius: if near(pointer, at) {
                    S::spec_ratio(5, 1)
                } else {
                    S::spec_ratio(35, 10)
                },
                ink: Ink::Selection,
                width: S::spec_ratio(1, 1),
                rim: Ink::White,
            },
        )
    }
}

/// The marks around the selection: the ends of a line, the points of a path, or outlines and grips.
pub open spec fn selection_marks<S: Scalar>(
    c: CanvasView<S>,
    s: Seq<LayerView<S>>,
    selection: Seq<LayerId>,
    origin: Pos2<S>,
    pointer: Option<Pos2<S>>,
) -> Seq<Mark<S>> {
    let placed = placed_layers(s, selection);
    let v = placed[0].0;
    let outer = placed[0].1;
    if placed.len() == 0 {
        Seq::empty()
    } else if is_single_line(placed) {
        let ends = line_ends(c, origin, v.frame, outer);
        seq![grip_mark(ends.0), grip_mark(ends.1)]
    } else if is_single_path(placed) {
        let points = v.kind->Path_points;
        point_marks(c, origin, v.frame.pos, outer, points, pointer, points.len())
    } else {
        let b = box_on_screen(c, origin, overall_box(placed));
        let turn = outline_turn(placed);
        layer_outlines(c, origin, placed, placed.len()).push(
            outline_mark(b, turn, S::spec_ratio(15, 10), Ink::Selection),
        ) + grip_marks(b, turn, 8)
    }
}

/// The cursors that the canvas asks for.
#[derive(Clone, Copy, Debug, PartialEq, Eq, Structural)]
pub enum Cursor {
    Resize(ResizeCursor),
    ResizeColumn,
    Crosshair,
    Grab,
}

/// The cursor over the canvas; none where it stays as it is. The pan tool and the scissors have
/// their own, whatever is under them.
pub open spec fn cursor_over<S: Scalar>(
    c: CanvasView<S>,
    guides: Seq<Guide<S>>,
    tool: Tool,
    hover: HoverView<S>,
    origin: Pos2<S>,
    canvas_rect: Rect<S>,
    pointer: Option<Pos2<S>>,
) -> Option<Cursor> {
    if tool == Tool::Scissors {
        Some(Cursor::Crosshair)
    } else if tool == Tool::Pan {
        Some(Cursor::Grab)
    } else if hover.handle is Some {
        Some(Cursor::Resize(hover.handle->0.spec_cursor()))
    } else if hover.gap is Some {
        Some(Cursor::ResizeColumn)
    } else if hover.rotate_corner is Some {
        Some(Cursor::Crosshair)
    } else if tool == Tool::Select {
        match pointer {
            Some(mp) => if canvas_rect.spec_contains(mp) {
                match crate::canvas::guide_under(c, origin, guides, mp, 0) {
                    Some(k) => Some(
                        Cursor::Resize(
                            if guides[k].orientation == GuideOrientation::Horizontal {
                                ResizeCursor::Vertical
                            } else {
                                ResizeCursor::Horizontal
                            },
                        ),
                    ),
                    None => None,
                }
            } else {
                None
            },
            None => None,
        }
    } else {
        None
    }
}

/// The box around the turned frames of some layers.
pub open spec fn turned_box<S: Scalar>(placed: Seq<(LayerView<S>, Vec2<S>)>) -> Rect<S>
    decreases placed.len(),
{
    let b = placed.last().0.frame.spec_rotated_bounds().spec_translate(placed.last().1);
    if placed.len() <= 1 {
        b
    } else {
        turned_box(placed.drop_last()).spec_union(b)
    }
}

/// The box around the turned frames of the named layers that exist.
pub fn turned_bounds<S: Scalar>(page: &Page<S>, ids: &Vec<LayerId>) -> (r: Option<Rect<S>>)
    ensures
        r is Some <==> placed_layers(page@.layers, ids@).len() > 0,
        r matches Some(b) ==> b == turned_box(placed_layers(page@.layers, ids@)),
{
    let placed = selected_layers(page, ids);
    let ghost all = placed_views(placed@);
    let mut r: Option<Rect<S>> = None;
    let mut i: usize = 0;
    while i < placed.len()
        invariant
            i <= placed.len(),
            all == placed_views(placed@),
            r is Some <==> i > 0,
            r matches Some(b) ==> b == turned_box(all.take(i as int)),
        decreases placed.len() - i,
    {
        assert(all.take(i + 1).drop_last() =~= all.take(i as int));
        assert(all.take(i + 1).last() == all[i as int]);
        let b = placed[i].0.frame.rotated_bounds().translate(placed[i].1);
        r = match r {
            Some(x) => Some(x.union(b)),
            None => Some(b),
        };
        i += 1;
    }
    assert(all.take(i as int) =~= all);
    r
}

/// The two boxes whose distance is shown while Option is held: that of the selection, and that of
/// the layer under the pointer, if it is not selected itself.
pub open spec fn measured_boxes<S: Scalar>(
    c: CanvasView<S>,
    s: Seq<LayerView<S>>,
    tool: Tool,
    selection: Seq<LayerId>,
    under: Option<LayerId>,
) -> Option<(Rect<S>, Rect<S>)> {
    let placed = placed_layers(s, selection);
    if tool == Tool::Select && c.drag is Idle && placed.len() > 0 {
        match under {
            Some(id) => if selection.contains(id) {
                None
            } else {
                match (
                    crate::tree::find(s, id),
                    crate::document::offset_of(s, id, Vec2::spec_zero()),
                ) {
                    (Some(v), Some(outer)) => Some(
                        (
                            turned_box(placed),
                            v.frame.spec_rotated_bounds().spec_translate(outer),
                        ),
                    ),
                    _ => None,
                }
            },
            None => None,
        }
    } else {
        None
    }
}

impl<S: Scalar> CanvasWidget<S> {
    fn push_handle(
        &self,
        origin: Pos2<S>,
        pos: Pos2<S>,
        outer: Vec2<S>,
        p: PathPoint<S>,
        handle: Option<Vec2<S>>,
        pointer: Option<Pos2<S>>,
        out: &mut Vec<Mark<S>>,
    )
        ensures
            final(out)@ == old(out)@ + handle_marks(
                self@,
                origin,
                pos,
                outer,
                p,
                handle,
                pointer,
            ),
    {
        let ghost start = out@;
        if handle.is_some() {
            let at = self.point_on_screen(origin, pos, outer, p, handle);
            let over = is_near(pointer, at);
            let radius = if over {
                S::ratio(45, 10)
            } else {
                S::ratio(3, 1)
            };
            let ink = if over {
                Ink::Selection
            } else {
                Ink::HandleGrey
            };
            let one = S::ratio(1, 1);
            out.push(
                Mark::Line {
                    from: self.point_on_screen(origin, pos, outer, p, None),
                    to: at,
                    width: one,
                    ink: Ink::HandleGrey,
                },
            );
            out.push(Mark::Disc { center: at, radius, ink: Ink::White });
            out.push(Mark::Ring { center: at, radius, width: one, ink });
        }
        assert(out@ =~= start + handle_marks(self@, origin, pos, outer, p, handle, pointer));
    }

    fn draw_points(
        &self,
        origin: Pos2<S>,
        pos: Pos2<S>,
        outer: Vec2<S>,
        points: &Vec<PathPoint<S>>,
        pointer: Option<Pos2<S>>,
    ) -> (r: Vec<Mark<S>>)
        ensures
            r@ == point_marks(self@, origin, pos, outer, points@, pointer, points@.len()),
    {
        let mut r: Vec<Mark<S>> = Vec::new();
        let mut i: usize = 0;
        while i < points.len()
            invariant
                i <= points.len(),
                r@ == point_marks(self@, origin, pos, outer, points@, pointer, i as nat),
            decreases points.len() - i,
        {
            let p = points[i];
            self.push_handle(origin, pos, outer, p, p.handle_in, pointer, &mut r);
            self.push_handle(origin, pos, outer, p, p.handle_out, pointer, &mut r);
            let at = self.point_on_screen(origin, pos, outer, p, None);
            let strong = is_near(pointer, at) || has_index(&self.selected_points, i);
            r.push(
                Mark::Knob {
                    center: at,
                    radius: if strong {
                        S::ratio(45, 10).times(S::ratio(13, 10))
                    } else {
                        S::ratio(45, 10)
                    },
                    ink: if strong {
                        Ink::Selection
                    } else {
                        Ink::White
                    },
                    width: S::ratio(15, 10),
                    rim: Ink::Selection,
                },
            );
            i += 1;
        }
        r
    }

    /// The marks around the selection.
    #[verifier::rlimit(50)]
    pub fn draw_selection(
        &self,
        page: &Page<S>,
        selection: &Vec<LayerId>,
        origin: Pos2<S>,
        pointer: Option<Pos2<S>>,
    ) -> (r: Vec<Mark<S>>)
        ensures
            r@ == selection_marks(self@, page@.layers, selection@, origin, pointer),
    {
        let placed = selected_layers(page, selection);
        let ghost all = placed_views(placed@);
        assert(all == placed_layers(page@.layers, selection@));
        let mut r: Vec<Mark<S>> = Vec::new();
        if placed.len() == 0 {
            return r;
        }
        if placed.len() == 1 {
            let layer = placed[0].0;
            let outer = placed[0].1;
            assert(all[0].0 == layer@ && all[0].1 == outer);
            match &layer.kind {
                LayerKind::Line | LayerKind::Arrow { .. } => {
                    let (start, end) = self.line_ends(origin, layer.frame, outer);
                    r.push(draw_grip(start));
                    r.push(draw_grip(end));
                    assert(r@ =~= seq![grip_mark(start), grip_mark(end)]);
                    return r;
                },
                LayerKind::Path { points, .. } => {
                    return self.draw_points(origin, layer.frame.pos, outer, points, pointer);
                },
                _ => {},
            }
        }
        let mut i: usize = 0;
        while i < placed.len()
            invariant
                i <= placed.len(),
                all == placed_views(placed@),
                r@ == layer_outlines(self@, origin, all, i as nat),
            decreases placed.len() - i,
        {
            let layer = placed[i].0;
            assert(all[i as int] == (layer@, placed@[i as int].1));
            let b = self.box_on_screen(origin, display_bounds(layer).translate(placed[i].1));
            let is_reference = match self.reference_layer {
                Some(id) => id == layer.id,
                None => false,
            };
            r.push(
                if is_reference {
                    draw_outline(b, layer.frame.rotation, S::ratio(25, 10), Ink::Selection)
                } else {
                    draw_outline(b, layer.frame.rotation, S::ratio(1, 1), Ink::SelectionDim)
                },
            );
            i += 1;
        }
        let b = self.box_on_screen(origin, overall_bounds(&placed));
        let turn = if placed.len() == 1 {
            assert(all[0].0 == placed@[0].0@);
            placed[0].0.frame.rotation
        } else {
            S::ratio(0, 1)
        };
        r.push(draw_outline(b, turn, S::ratio(15, 10), Ink::Selection));
        let ghost outlines = r@;
        let grips = Handle::all();
        let mut k: usize = 0;
        assert(r@ =~= outlines + grip_marks(b, turn, 0));
        while k < 8
            invariant
                k <= 8,
                grips@ == Handle::spec_all(),
                r@ == outlines + grip_marks(b, turn, k as nat),
            decreases 8 - k,
        {
            r.push(draw_grip(grips[k].pos(b).rotated(b.center(), turn)));
            k += 1;
            assert(r@ =~= outlines + grip_marks(b, turn, k as nat));
        }
        r
    }

    /// The gap knobs of the last distribution, while they are shown.
    pub fn draw_gaps(
        &self,
        page: &Page<S>,
        tool: Tool,
        selection: &Vec<LayerId>,
        origin: Pos2<S>,
        pointer: Option<Pos2<S>>,
    ) -> (r: Vec<Mark<S>>)
        ensures
            match shown_gaps(self@, page@.layers, tool, selection@) {
                Some((order, axis)) => r@ == gap_marks(
                    self@,
                    origin,
                    order,
                    axis,
                    pointer,
                    if order.len() == 0 {
                        0
                    } else {
                        (order.len() - 1) as nat
                    },
                ),
                None => r@.len() == 0,
            },
    {
        let mut r: Vec<Mark<S>> = Vec::new();
        if let Some((order, axis)) = self.gap_order(page, tool, selection) {
            let places = gap_handle_positions(&order, axis);
            let mut k: usize = 0;
            while k < places.len()
                invariant
                    k <= places.len(),
                    order@.len() > 0 ==> places@.len() == order@.len() - 1,
                    forall|i: int|
                        0 <= i < places@.len() ==> #[trigger] places@[i] == gap_middle(
                            order@[i].1,
                            order@[i + 1].1,
                            axis,
                        ),
                    r@ == gap_marks(self@, origin, order@, axis, pointer, k as nat),
                decreases places.len() - k,
            {
                let at = self.to_screen(origin, places[k]);
                r.push(
                    Mark::Knob {
                        center: at,
                        radius: if is_near(pointer, at) {
                            S::ratio(5, 1)
                        } else {
                            S::ratio(35, 10)
                        },
                        ink: Ink::Selection,
                        width: S::ratio(1, 1),
                        rim: Ink::White,
                    },
                );
                k += 1;
            }
        }
        r
    }

    /// The cursor over the canvas; none where it stays as it is.
    pub fn cursor(
        &self,
        guides: &Vec<Guide<S>>,
        tool: Tool,
        hover: &Hover<S>,
        origin: Pos2<S>,
        canvas_rect: Rect<S>,
        pointer: Option<Pos2<S>>,
    ) -> (r: Option<Cursor>)
        ensures
            r == cursor_over(self@, guides@, tool, hover@, origin, canvas_rect, pointer),
    {
        if tool == Tool::Scissors {
            return Some(Cursor::Crosshair);
        }
        if tool == Tool::Pan {
            return Some(Cursor::Grab);
        }
        if let Some(h) = hover.handle {
            return Some(Cursor::Resize(h.cursor()));
        }
        if hover.gap.is_some() {
            return Some(Cursor::ResizeColumn);
        }
        if hover.rotate_corner.is_some() {
            return Some(Cursor::Crosshair);
        }
        if tool == Tool::Select {
            if let Some(mp) = pointer {
                if canvas_rect.contains(mp) {
                    let n = guides.len();
                    if let Some(k) = self.hovered_guide_index(origin, guides, mp) {
                        assert(k < n);
                        return Some(
                            Cursor::Resize(
                                match guides[k].orientation {
                                    GuideOrientation::Horizontal => ResizeCursor::Vertical,
                                    GuideOrientation::Vertical => ResizeCursor::Horizontal,
                                },
                            ),
                        );
                    }
                }
            }
        }
        None
    }

    /// The two boxes whose distance is shown while Option is held and the pointer is over the
    /// layer `under`.
    pub fn measured(
        &self,
        page: &Page<S>,
        tool: Tool,
        selection: &Vec<LayerId>,
        under: Option<LayerId>,
    ) -> (r: Option<(Rect<S>, Rect<S>)>)
        ensures
            r == measured_boxes(self@, page@.layers, tool, selection@, under),
    {
        let idle = match &self.drag {
            DragState::Idle => true,
            _ => false,
        };
        if tool != Tool::Select || !idle {
            return None;
        }
        match (turned_bounds(page, selection), under) {
            (Some(sel), Some(id)) => {
                if has_id(selection, id) {
                    return None;
                }
                match (page.find(id), page.absolute_offset(id)) {
                    (Some(layer), Some(outer)) => Some(
                        (sel, layer.frame.rotated_bounds().translate(outer)),
                    ),
                    _ => None,
                }
            },
            _ => None,
        }
    }
}

} // verus!
