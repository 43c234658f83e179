//! Resizing and rotating selections.
//!
//! A gesture records every leaf under the selection once, when it starts, and
//! writes each leaf anew from that record on every frame, so nothing builds up.
//! A container has no geometry of its own: it is refitted to its children when
//! the gesture ends.
use vstd::prelude::*;

use crate::document::Page;
use crate::geometry::{Pos2, Rect, Vec2};
use crate::model::{
    group_views, views, CornerRadii, Frame, KindView, Layer, LayerId, LayerKind, LayerView,
    PathPoint, PathPolygon, PolygonView,
};
use crate::scalar::Scalar;

verus! {

broadcast use group_views;

/// A grip on a selection's box.
#[derive(Clone, Copy, Debug, PartialEq, Eq, Structural)]
pub enum Handle {
    TopLeft,
    Top,
    TopRight,
    Right,
    BottomRight,
    Bottom,
    BottomLeft,
    Left,
}

/// The direction a grip is dragged in.
#[derive(Clone, Copy, Debug, PartialEq, Eq, Structural)]
pub enum ResizeCursor {
    NwSe,
    NeSw,
    Vertical,
    Horizontal,
}

impl Handle {
    /// Whether dragging the grip moves the left edge.
    pub open spec fn on_left(self) -> bool {
        self == Handle::TopLeft || self == Handle::BottomLeft || self == Handle::Left
    }

    pub open spec fn on_right(self) -> bool {
        self == Handle::TopRight || self == Handle::BottomRight || self == Handle::Right
    }

    pub open spec fn on_top(self) -> bool {
        self == Handle::TopLeft || self == Handle::TopRight || self == Handle::Top
    }

    pub open spec fn on_bottom(self) -> bool {
        self == Handle::BottomLeft || self == Handle::BottomRight || self == Handle::Bottom
    }

    pub open spec fn spec_pos<S: Scalar>(self, r: Rect<S>) -> Pos2<S> {
        Pos2 {
            x: if self.on_left() {
                r.min.x
            } else if self.on_right() {
                r.max.x
            } else {
                r.spec_center().x
            },
            y: if self.on_top() {
                r.min.y
            } else if self.on_bottom() {
                r.max.y
            } else {
                r.spec_center().y
            },
        }
    }

    pub open spec fn spec_resize<S: Scalar>(self, r: Rect<S>, p: Pos2<S>) -> Rect<S> {
        Rect::spec_from_two_pos(
            Pos2 {
                x: if self.on_left() {
                    p.x
                } else {
                    r.min.x
                },
                y: if self.on_top() {
                    p.y
                } else {
                    r.min.y
                },
            },
            Pos2 {
                x: if self.on_right() {
                    p.x
                } else {
                    r.max.x
                },
                y: if self.on_bottom() {
                    p.y
                } else {
                    r.max.y
                },
            },
        )
    }

    /// The eight grips, clockwise from the top left.
    pub open spec fn spec_all() -> Seq<Handle> {
        seq![
            Handle::TopLeft,
            Handle::Top,
            Handle::TopRight,
            Handle::Right,
            Handle::BottomRight,
            Handle::Bottom,
            Handle::BottomLeft,
            Handle::Left,
        ]
    }

    /// Whether the grip is at a corner.
    pub open spec fn spec_is_corner(self) -> bool {
        self == Handle::TopLeft || self == Handle::TopRight || self == Handle::BottomRight || self
            == Handle::BottomLeft
    }

    /// Whether the grip is at a corner.
    pub fn is_corner(self) -> (r: bool)
        ensures
            r == self.spec_is_corner(),
    {
        match self {
            Handle::TopLeft
            | Handle::TopRight
            | Handle::BottomRight
            | Handle::BottomLeft => true,
            _ => false,
        }
    }

    /// The eight grips, clockwise from the top left.
    pub fn all() -> (r: [Handle; 8])
        ensures
            r@ == Self::spec_all(),
    {
        [
            Handle::TopLeft,
            Handle::Top,
            Handle::TopRight,
            Handle::Right,
            Handle::BottomRight,
            Handle::Bottom,
            Handle::BottomLeft,
            Handle::Left,
        ]
    }

    /// Where the grip sits on a box.
    pub fn pos<S: Scalar>(self, r: Rect<S>) -> (p: Pos2<S>)
        ensures
            p == self.spec_pos(r),
    {
        let c = r.center();
        match self {
            Handle::TopLeft => r.min,
            Handle::Top => Pos2 { x: c.x, y: r.min.y },
            Handle::TopRight => Pos2 { x: r.max.x, y: r.min.y },
            Handle::Right => Pos2 { x: r.max.x, y: c.y },
            Handle::BottomRight => r.max,
            Handle::Bottom => Pos2 { x: c.x, y: r.max.y },
            Handle::BottomLeft => Pos2 { x: r.min.x, y: r.max.y },
            Handle::Left => Pos2 { x: r.min.x, y: c.y },
        }
    }

    /// The box after the grip was dragged to `p`, turned right side out.
    pub fn resize<S: Scalar>(self, r: Rect<S>, p: Pos2<S>) -> (b: Rect<S>)
        ensures
            b == self.spec_resize(r, p),
    {
        let mut min = r.min;
        let mut max = r.max;
        match self {
            Handle::TopLeft => {
                min = p;
            },
            Handle::Top => {
                min.y = p.y;
            },
            Handle::TopRight => {
                max.x = p.x;
                min.y = p.y;
            },
            Handle::Right => {
                max.x = p.x;
            },
            Handle::BottomRight => {
                max = p;
            },
            Handle::Bottom => {
                max.y = p.y;
            },
            Handle::BottomLeft => {
                min.x = p.x;
                max.y = p.y;
            },
            Handle::Left => {
                min.x = p.x;
            },
        }
        Rect::from_two_pos(min, max)
    }

    /// The cursor over the grip.
    pub open spec fn spec_cursor(self) -> ResizeCursor {
        match self {
            Handle::TopLeft | Handle::BottomRight => ResizeCursor::NwSe,
            Handle::TopRight | Handle::BottomLeft => ResizeCursor::NeSw,
            Handle::Top | Handle::Bottom => ResizeCursor::Vertical,
            Handle::Left | Handle::Right => ResizeCursor::Horizontal,
        }
    }

    /// The cursor over the grip.
    pub fn cursor(self) -> (c: ResizeCursor)
        ensures
            c == self.spec_cursor(),
    {
        match self {
            Handle::TopLeft | Handle::BottomRight => ResizeCursor::NwSe,
            Handle::TopRight | Handle::BottomLeft => ResizeCursor::NeSw,
            Handle::Top | Handle::Bottom => ResizeCursor::Vertical,
            Handle::Left | Handle::Right => ResizeCursor::Horizontal,
        }
    }
}

/// Which point a scaling gesture leaves in place.
#[derive(Clone, Copy, Debug, PartialEq, Eq, Structural)]
pub enum ScaleAnchor {
    /// The corner or edge opposite the grip.
    Corners,
    /// The middle of the selection.
    Center,
}

impl Default for ScaleAnchor {
    fn default() -> (r: Self)
        ensures
            r == ScaleAnchor::Corners,
    {
        ScaleAnchor::Corners
    }
}

/// The map that takes `old_anchor` to `new_anchor` and scales about it.
#[derive(Debug, PartialEq)]
pub struct Rescale<S> {
    pub old_anchor: Pos2<S>,
    pub new_anchor: Pos2<S>,
    pub scale: Vec2<S>,
}

impl<S: Scalar> Clone for Rescale<S> {
    fn clone(&self) -> (r: Self)
        ensures
            r == *self,
    {
        *self
    }
}

impl<S: Scalar> Copy for Rescale<S> {

}

impl<S: Scalar> Rescale<S> {
    pub open spec fn spec_apply(self, p: Pos2<S>) -> Pos2<S> {
        Pos2 {
            x: self.new_anchor.x.spec_plus(
                p.x.spec_minus(self.old_anchor.x).spec_times(self.scale.x),
            ),
            y: self.new_anchor.y.spec_plus(
                p.y.spec_minus(self.old_anchor.y).spec_times(self.scale.y),
            ),
        }
    }

    pub fn apply(self, p: Pos2<S>) -> (r: Pos2<S>)
        ensures
            r == self.spec_apply(p),
    {
        Pos2 {
            x: self.new_anchor.x.plus(p.x.minus(self.old_anchor.x).times(self.scale.x)),
            y: self.new_anchor.y.plus(p.y.minus(self.old_anchor.y).times(self.scale.y)),
        }
    }
}

/// How a gesture moves the points that a path stores relative to its frame.
pub enum Remap<S> {
    /// A turn about `pivot`. Stored points are relative to `base` before it and to `origin`,
    /// inside the parent, after it.
    Turn { pivot: Pos2<S>, degrees: S, base: Vec2<S>, parent_offset: Vec2<S>, origin: Pos2<S> },
    /// A rescale. Stored points are relative to `from` before it.
    Stretch { map: Rescale<S>, from: Pos2<S>, parent_offset: Vec2<S>, origin: Pos2<S> },
}

impl<S: Scalar> Remap<S> {
    pub open spec fn spec_point(self, p: Pos2<S>) -> Pos2<S> {
        match self {
            Remap::Turn { pivot, degrees, base, parent_offset, origin } => {
                let a = base.spec_plus(p.spec_to_vec2());
                Pos2 { x: a.x, y: a.y }.spec_rotated(pivot, degrees).spec_minus(
                    parent_offset,
                ).spec_minus(origin.spec_to_vec2())
            },
            Remap::Stretch { map, from, parent_offset, origin } => map.spec_apply(
                from.spec_plus(p.spec_to_vec2()),
            ).spec_minus(parent_offset).spec_minus(origin.spec_to_vec2()),
        }
    }

    pub open spec fn spec_vector(self, v: Vec2<S>) -> Vec2<S> {
        match self {
            Remap::Turn { degrees, .. } => Pos2 { x: v.x, y: v.y }.spec_rotated(
                Pos2::spec_zero(),
                degrees,
            ).spec_to_vec2(),
            Remap::Stretch { map, .. } => Vec2 {
                x: v.x.spec_times(map.scale.x),
                y: v.y.spec_times(map.scale.y),
            },
        }
    }

    pub open spec fn spec_handle(self, h: Option<Vec2<S>>) -> Option<Vec2<S>> {
        match h {
            Some(v) => Some(self.spec_vector(v)),
            None => None,
        }
    }

    /// `live` with the place and the handles that the map gives to `orig`.
    pub open spec fn spec_path_point(self, live: PathPoint<S>, orig: PathPoint<S>) -> PathPoint<S> {
        PathPoint {
            anchor: self.spec_point(orig.anchor),
            handle_in: self.spec_handle(orig.handle_in),
            handle_out: self.spec_handle(orig.handle_out),
            ..live
        }
    }

    /// Points that have an original are written from it; others stay.
    pub open spec fn spec_path_points(
        self,
        live: Seq<PathPoint<S>>,
        orig: Seq<PathPoint<S>>,
    ) -> Seq<PathPoint<S>> {
        Seq::new(
            live.len(),
            |i: int|
                if i < orig.len() {
                    self.spec_path_point(live[i], orig[i])
                } else {
                    live[i]
                },
        )
    }

    pub open spec fn spec_ring(self, live: Seq<Pos2<S>>, orig: Seq<Pos2<S>>) -> Seq<Pos2<S>> {
        Seq::new(
            live.len(),
            |i: int|
                if i < orig.len() {
                    self.spec_point(orig[i])
                } else {
                    live[i]
                },
        )
    }

    pub open spec fn spec_polygon(self, live: PolygonView<S>, orig: PolygonView<S>) -> PolygonView<
        S,
    > {
        PolygonView {
            exterior: self.spec_ring(live.exterior, orig.exterior),
            holes: Seq::new(
                live.holes.len(),
                |i: int|
                    if i < orig.holes.len() {
                        self.spec_ring(live.holes[i], orig.holes[i])
                    } else {
                        live.holes[i]
                    },
            ),
        }
    }

    pub open spec fn spec_polygons(
        self,
        live: Seq<PolygonView<S>>,
        orig: Seq<PolygonView<S>>,
    ) -> Seq<PolygonView<S>> {
        Seq::new(
            live.len(),
            |i: int|
                if i < orig.len() {
                    self.spec_polygon(live[i], orig[i])
                } else {
                    live[i]
                },
        )
    }

    /// The stored points of a path or a compound path, written anew from the original.
    pub open spec fn spec_kind(self, live: KindView<S>, orig: KindView<S>) -> KindView<S> {
        match (live, orig) {
            (
                KindView::Path { points, closed },
                KindView::Path { points: before, .. },
            ) => KindView::Path { points: self.spec_path_points(points, before), closed },
            (
                KindView::CompoundPath { polygons },
                KindView::CompoundPath { polygons: before },
            ) => KindView::CompoundPath { polygons: self.spec_polygons(polygons, before) },
            _ => live,
        }
    }

    fn point(&self, p: Pos2<S>) -> (r: Pos2<S>)
        ensures
            r == self.spec_point(p),
    {
        match self {
            Remap::Turn { pivot, degrees, base, parent_offset, origin } => {
                let a = base.plus(p.to_vec2());
                Pos2 { x: a.x, y: a.y }.rotated(*pivot, *degrees).minus(*parent_offset).minus(
                    origin.to_vec2(),
                )
            },
            Remap::Stretch { map, from, parent_offset, origin } => map.apply(
                from.plus(p.to_vec2()),
            ).minus(*parent_offset).minus(origin.to_vec2()),
        }
    }

    fn handle(&self, h: Option<Vec2<S>>) -> (r: Option<Vec2<S>>)
        ensures
            r == self.spec_handle(h),
    {
        match h {
            Some(v) => match self {
                Remap::Turn { degrees, .. } => Some(
                    Pos2 { x: v.x, y: v.y }.rotated(Pos2::zero(), *degrees).to_vec2(),
                ),
                Remap::Stretch { map, .. } => Some(
                    Vec2 { x: v.x.times(map.scale.x), y: v.y.times(map.scale.y) },
                ),
            },
            None => None,
        }
    }

    fn path_points(&self, live: &Vec<PathPoint<S>>, orig: &Vec<PathPoint<S>>) -> (r: Vec<
        PathPoint<S>,
    >)
        ensures
            r@ == self.spec_path_points(live@, orig@),
    {
        let mut r: Vec<PathPoint<S>> = Vec::new();
        let mut i: usize = 0;
        while i < live.len()
            invariant
                i <= live.len(),
                r.len() == i,
                forall|k: int|
                    0 <= k < i ==> #[trigger] r@[k] == self.spec_path_points(live@, orig@)[k],
            decreases live.len() - i,
        {
            let mut pt = live[i];
            if i < orig.len() {
                pt.anchor = self.point(orig[i].anchor);
                pt.handle_in = self.handle(orig[i].handle_in);
                pt.handle_out = self.handle(orig[i].handle_out);
            }
            r.push(pt);
            i += 1;
        }
        assert(r@ =~= self.spec_path_points(live@, orig@));
        r
    }

    fn ring(&self, live: &Vec<Pos2<S>>, orig: &Vec<Pos2<S>>) -> (r: Vec<Pos2<S>>)
        ensures
            r@ == self.spec_ring(live@, orig@),
    {
        let mut r: Vec<Pos2<S>> = Vec::new();
        let mut i: usize = 0;
        while i < live.len()
            invariant
                i <= live.len(),
                r.len() == i,
                forall|k: int| 0 <= k < i ==> #[trigger] r@[k] == self.spec_ring(live@, orig@)[k],
            decreases live.len() - i,
        {
            if i < orig.len() {
                r.push(self.point(orig[i]));
            } else {
                r.push(live[i]);
            }
            i += 1;
        }
        assert(r@ =~= self.spec_ring(live@, orig@));
        r
    }

    fn polygon(&self, live: &PathPolygon<S>, orig: &PathPolygon<S>) -> (r: PathPolygon<S>)
        ensures
            r@ == self.spec_polygon(live@, orig@),
    {
        let mut holes: Vec<Vec<Pos2<S>>> = Vec::new();
        let mut i: usize = 0;
        while i < live.holes.len()
            invariant
                i <= live.holes.len(),
                holes.len() == i,
                forall|k: int|
                    0 <= k < i ==> (#[trigger] holes@[k])@ == self.spec_polygon(
                        live@,
                        orig@,
                    ).holes[k],
            decreases live.holes.len() - i,
        {
            if i < orig.holes.len() {
                holes.push(self.ring(&live.holes[i], &orig.holes[i]));
            } else {
                holes.push(crate::style::copy_vec(&live.holes[i]));
            }
            i += 1;
        }
        let r = PathPolygon { exterior: self.ring(&live.exterior, &orig.exterior), holes };
        assert(r@.holes =~= self.spec_polygon(live@, orig@).holes);
        r
    }

    fn polygons(&self, live: &Vec<PathPolygon<S>>, orig: &Vec<PathPolygon<S>>) -> (r: Vec<
        PathPolygon<S>,
    >)
        ensures
            crate::model::polygon_views(r@) == self.spec_polygons(
                crate::model::polygon_views(live@),
                crate::model::polygon_views(orig@),
            ),
    {
        let ghost a = crate::model::polygon_views(live@);
        let ghost b = crate::model::polygon_views(orig@);
        let mut r: Vec<PathPolygon<S>> = Vec::new();
        let mut i: usize = 0;
        while i < live.len()
            invariant
                i <= live.len(),
                r.len() == i,
                a == crate::model::polygon_views(live@),
                b == crate::model::polygon_views(orig@),
                forall|k: int| 0 <= k < i ==> (#[trigger] r@[k])@ == self.spec_polygons(a, b)[k],
            decreases live.len() - i,
        {
            if i < orig.len() {
                r.push(self.polygon(&live[i], &orig[i]));
            } else {
                r.push(live[i].duplicate());
            }
            i += 1;
        }
        assert(crate::model::polygon_views(r@) =~= self.spec_polygons(a, b));
        r
    }

    /// Writes the stored points of a path or a compound path anew from the original.
    fn kind(&self, layer: &mut Layer<S>, orig: &LayerKind<S>)
        ensures
            final(layer)@ == (LayerView {
                kind: self.spec_kind(old(layer)@.kind, orig@),
                ..old(layer)@
            }),
    {
        match (&mut layer.kind, orig) {
            (LayerKind::Path { points, .. }, LayerKind::Path { points: before, .. }) => {
                *points = self.path_points(points, before);
            },
            (LayerKind::CompoundPath { polygons }, LayerKind::CompoundPath { polygons: before }) => {
                *polygons = self.polygons(polygons, before);
            },
            _ => {},
        }
    }
}

/// A leaf as it was when a rotation began.
pub struct RotateLayerInfo<S> {
    pub id: LayerId,
    pub parent_offset: Vec2<S>,
    pub abs_bounds: Rect<S>,
    pub original_frame: Frame<S>,
    pub original_kind: LayerKind<S>,
}

#[verifier::ext_equal]
pub struct RotateInfoView<S> {
    pub id: LayerId,
    pub parent_offset: Vec2<S>,
    pub abs_bounds: Rect<S>,
    pub original_frame: Frame<S>,
    pub original_kind: KindView<S>,
}

impl<S: Scalar> RotateLayerInfo<S> {
    pub open spec fn view(&self) -> RotateInfoView<S> {
        RotateInfoView {
            id: self.id,
            parent_offset: self.parent_offset,
            abs_bounds: self.abs_bounds,
            original_frame: self.original_frame,
            original_kind: self.original_kind@,
        }
    }
}

pub open spec fn rotate_infos<S: Scalar>(s: Seq<RotateLayerInfo<S>>) -> Seq<RotateInfoView<S>> {
    Seq::new(s.len(), |i: int| s[i]@)
}

/// The leaves at or under a layer, in document order, as a rotation records them.
pub open spec fn rotatable_leaves<S: Scalar>(v: LayerView<S>, offset: Vec2<S>) -> Seq<
    RotateInfoView<S>,
>
    decreases v,
{
    if v.is_container() {
        rotatable_leaves_all(v.children, offset.spec_plus(v.frame.pos.spec_to_vec2()))
    } else {
        seq![
            RotateInfoView {
                id: v.id,
                parent_offset: offset,
                abs_bounds: v.frame.spec_bounds().spec_translate(offset),
                original_frame: v.frame,
                original_kind: v.kind,
            },
        ]
    }
}

pub open spec fn rotatable_leaves_all<S: Scalar>(s: Seq<LayerView<S>>, offset: Vec2<S>) -> Seq<
    RotateInfoView<S>,
>
    decreases s,
{
    if s.len() == 0 {
        Seq::empty()
    } else {
        rotatable_leaves_all(s.drop_last(), offset) + rotatable_leaves(s.last(), offset)
    }
}

/// Records every leaf at or under a layer, after what `out` already holds.
pub fn collect_rotatable_leaves<S: Scalar>(
    layer: &Layer<S>,
    parent_offset: Vec2<S>,
    out: &mut Vec<RotateLayerInfo<S>>,
)
    ensures
        rotate_infos(final(out)@) == rotate_infos(old(out)@) + rotatable_leaves(
            layer@,
            parent_offset,
        ),
    decreases *layer,
{
    let ghost start = rotate_infos(out@);
    match layer.children() {
        Some(children) => {
            let child_offset = parent_offset.plus(layer.frame.pos.to_vec2());
            let ghost s = views(children@);
            let mut i: usize = 0;
            assert(s.take(0) =~= Seq::empty());
            assert(rotate_infos(out@) =~= start + rotatable_leaves_all(s.take(0), child_offset));
            while i < children.len()
                invariant
                    i <= children.len(),
                    s == views(children@),
                    decreases_to!(*layer => children@),
                    rotate_infos(out@) == start + rotatable_leaves_all(
                        s.take(i as int),
                        child_offset,
                    ),
                decreases children.len() - i,
            {
                assert(s.take(i + 1).drop_last() =~= s.take(i as int));
                assert(s[i as int] == children@[i as int]@);
                collect_rotatable_leaves(&children[i], child_offset, out);
                i += 1;
                assert(rotate_infos(out@) =~= start + rotatable_leaves_all(
                    s.take(i as int),
                    child_offset,
                ));
            }
            assert(s.take(i as int) =~= s);
        },
        None => {
            out.push(
                RotateLayerInfo {
                    id: layer.id,
                    parent_offset,
                    abs_bounds: layer.frame.bounds().translate(parent_offset),
                    original_frame: layer.frame,
                    original_kind: layer.kind.duplicate(),
                },
            );
            assert(rotate_infos(out@) =~= start + rotatable_leaves(layer@, parent_offset));
        },
    }
}

/// Where a turn takes the top left of a leaf, inside its parent.
pub open spec fn turned_pos<S: Scalar>(info: RotateInfoView<S>, pivot: Pos2<S>, degrees: S) -> Pos2<
    S,
> {
    info.abs_bounds.spec_center().spec_rotated(pivot, degrees).spec_minus(
        info.parent_offset,
    ).spec_minus(info.original_frame.size.spec_scaled(S::spec_ratio(1, 2)))
}

/// How a turn moves the points that a leaf stores.
pub open spec fn turn_map<S: Scalar>(info: RotateInfoView<S>, pivot: Pos2<S>, degrees: S) -> Remap<
    S,
> {
    Remap::Turn {
        pivot,
        degrees,
        base: info.parent_offset.spec_plus(info.original_frame.pos.spec_to_vec2()),
        parent_offset: info.parent_offset,
        origin: turned_pos(info, pivot, degrees),
    }
}

/// A leaf turned by `degrees` about `pivot`, written from its record.
pub open spec fn turned_leaf<S: Scalar>(
    v: LayerView<S>,
    info: RotateInfoView<S>,
    pivot: Pos2<S>,
    degrees: S,
) -> LayerView<S> {
    LayerView {
        frame: Frame {
            pos: turned_pos(info, pivot, degrees),
            size: info.original_frame.size,
            rotation: info.original_frame.rotation.spec_plus(degrees),
        },
        kind: turn_map(info, pivot, degrees).spec_kind(v.kind, info.original_kind),
        ..v
    }
}

/// The layers after each recorded leaf was turned.
pub open spec fn turned<S: Scalar>(
    s: Seq<LayerView<S>>,
    infos: Seq<RotateInfoView<S>>,
    pivot: Pos2<S>,
    degrees: S,
) -> Seq<LayerView<S>>
    decreases infos.len(),
{
    if infos.len() == 0 {
        s
    } else {
        let t = turned(s, infos.drop_last(), pivot, degrees);
        let info = infos.last();
        match crate::tree::find(t, info.id) {
            Some(v) => crate::tree::replace(t, info.id, turned_leaf(v, info, pivot, degrees)),
            None => t,
        }
    }
}

/// Turns every recorded leaf by `delta_deg` about one shared `pivot`.
///
/// Each leaf is written from its record, never from what an earlier call made of it.
pub fn apply_rotation_delta<S: Scalar>(
    page: &mut Page<S>,
    pivot: Pos2<S>,
    delta_deg: S,
    layers: &Vec<RotateLayerInfo<S>>,
)
    ensures
        final(page)@ == old(page)@.with_layers(
            turned(old(page)@.layers, rotate_infos(layers@), pivot, delta_deg),
        ),
{
    let ghost s = page@.layers;
    let ghost infos = rotate_infos(layers@);
    let mut i: usize = 0;
    assert(infos.take(0) =~= Seq::empty());
    while i < layers.len()
        invariant
            i <= layers.len(),
            infos == rotate_infos(layers@),
            page@ == old(page)@.with_layers(turned(s, infos.take(i as int), pivot, delta_deg)),
        decreases layers.len() - i,
    {
        let info = &layers[i];
        assert(infos.take(i + 1).drop_last() =~= infos.take(i as int));
        assert(infos.take(i + 1).last() == info@);
        if let Some(layer) = page.find_mut(info.id) {
            let new_center = info.abs_bounds.center().rotated(pivot, delta_deg);
            let new_pos = new_center.minus(info.parent_offset).minus(
                info.original_frame.size.scaled(S::ratio(1, 2)),
            );
            layer.frame = Frame {
                pos: new_pos,
                size: info.original_frame.size,
                rotation: info.original_frame.rotation.plus(delta_deg),
            };
            let map = Remap::Turn {
                pivot,
                degrees: delta_deg,
                base: info.parent_offset.plus(info.original_frame.pos.to_vec2()),
                parent_offset: info.parent_offset,
                origin: new_pos,
            };
            map.kind(layer, &info.original_kind);
        }
        i += 1;
    }
    assert(infos.take(i as int) =~= infos);
}

/// A leaf as it was when a resize began.
pub struct ResizeLayerInfo<S> {
    pub id: LayerId,
    pub parent_offset: Vec2<S>,
    pub abs_bounds: Rect<S>,
    pub original_kind: LayerKind<S>,
    pub original_rotation: S,
    pub original_stroke_width: Option<S>,
}

#[verifier::ext_equal]
pub struct ResizeInfoView<S> {
    pub id: LayerId,
    pub parent_offset: Vec2<S>,
    pub abs_bounds: Rect<S>,
    pub original_kind: KindView<S>,
    pub original_rotation: S,
    pub original_stroke_width: Option<S>,
}

impl<S: Scalar> ResizeLayerInfo<S> {
    pub open spec fn view(&self) -> ResizeInfoView<S> {
        ResizeInfoView {
            id: self.id,
            parent_offset: self.parent_offset,
            abs_bounds: self.abs_bounds,
            original_kind: self.original_kind@,
            original_rotation: self.original_rotation,
            original_stroke_width: self.original_stroke_width,
        }
    }
}

pub open spec fn resize_infos<S: Scalar>(s: Seq<ResizeLayerInfo<S>>) -> Seq<ResizeInfoView<S>> {
    Seq::new(s.len(), |i: int| s[i]@)
}

/// The leaves at or under a layer, in document order, as a resize records them.
pub open spec fn resizable_leaves<S: Scalar>(v: LayerView<S>, offset: Vec2<S>) -> Seq<
    ResizeInfoView<S>,
>
    decreases v,
{
    if v.is_container() {
        resizable_leaves_all(v.children, offset.spec_plus(v.frame.pos.spec_to_vec2()))
    } else {
        seq![
            ResizeInfoView {
                id: v.id,
                parent_offset: offset,
                abs_bounds: v.frame.spec_bounds().spec_translate(offset),
                original_kind: v.kind,
                original_rotation: v.frame.rotation,
                original_stroke_width: match v.style.stroke {
                    Some(stroke) => Some(stroke.width),
                    None => None,
                },
            },
        ]
    }
}

pub open spec fn resizable_leaves_all<S: Scalar>(s: Seq<LayerView<S>>, offset: Vec2<S>) -> Seq<
    ResizeInfoView<S>,
>
    decreases s,
{
    if s.len() == 0 {
        Seq::empty()
    } else {
        resizable_leaves_all(s.drop_last(), offset) + resizable_leaves(s.last(), offset)
    }
}

/// Records every leaf at or under a layer, after what `out` already holds.
pub fn collect_resizable_leaves<S: Scalar>(
    layer: &Layer<S>,
    parent_offset: Vec2<S>,
    out: &mut Vec<ResizeLayerInfo<S>>,
)
    ensures
        resize_infos(final(out)@) == resize_infos(old(out)@) + resizable_leaves(
            layer@,
            parent_offset,
        ),
    decreases *layer,
{
    let ghost start = resize_infos(out@);
    match layer.children() {
        Some(children) => {
            let child_offset = parent_offset.plus(layer.frame.pos.to_vec2());
            let ghost s = views(children@);
            let mut i: usize = 0;
            assert(s.take(0) =~= Seq::empty());
            assert(resize_infos(out@) =~= start + resizable_leaves_all(s.take(0), child_offset));
            while i < children.len()
                invariant
                    i <= children.len(),
                    s == views(children@),
                    decreases_to!(*layer => children@),
                    resize_infos(out@) == start + resizable_leaves_all(
                        s.take(i as int),
                        child_offset,
                    ),
                decreases children.len() - i,
            {
                assert(s.take(i + 1).drop_last() =~= s.take(i as int));
                assert(s[i as int] == children@[i as int]@);
                collect_resizable_leaves(&children[i], child_offset, out);
                i += 1;
                assert(resize_infos(out@) =~= start + resizable_leaves_all(
                    s.take(i as int),
                    child_offset,
                ));
            }
            assert(s.take(i as int) =~= s);
        },
        None => {
            let original_stroke_width = match &layer.style.stroke {
                Some(stroke) => Some(stroke.width),
                None => None,
            };
            out.push(
                ResizeLayerInfo {
                    id: layer.id,
                    parent_offset,
                    abs_bounds: layer.frame.bounds().translate(parent_offset),
                    original_kind: layer.kind.duplicate(),
                    original_rotation: layer.frame.rotation,
                    original_stroke_width,
                },
            );
            assert(resize_infos(out@) =~= start + resizable_leaves(layer@, parent_offset));
        },
    }
}

/// The box of a leaf after a resize, inside its parent.
pub open spec fn stretched_bounds<S: Scalar>(info: ResizeInfoView<S>, map: Rescale<S>) -> Rect<S> {
    Rect::spec_from_two_pos(
        map.spec_apply(info.abs_bounds.min),
        map.spec_apply(info.abs_bounds.max),
    ).spec_translate(info.parent_offset.spec_negated())
}

/// A leaf's style with the stroke scaled from its recorded width.
pub open spec fn scaled_style<S: Scalar>(
    style: crate::style::StyleView<S>,
    width: Option<S>,
    factor: S,
) -> crate::style::StyleView<S> {
    match (style.stroke, width) {
        (Some(stroke), Some(w)) => crate::style::StyleView {
            stroke: Some(
                crate::style::StrokeView {
                    width: w.spec_times(factor).spec_greater(S::spec_ratio(0, 1)),
                    ..stroke
                },
            ),
            ..style
        },
        _ => style,
    }
}

pub open spec fn scaled_radii<S: Scalar>(r: CornerRadii<S>, factor: S) -> CornerRadii<S> {
    CornerRadii {
        top_left: r.top_left.spec_times(factor),
        top_right: r.top_right.spec_times(factor),
        bottom_right: r.bottom_right.spec_times(factor),
        bottom_left: r.bottom_left.spec_times(factor),
    }
}

/// A rectangle's corners scaled from their recorded radii.
pub open spec fn scaled_corners<S: Scalar>(
    kind: KindView<S>,
    orig: KindView<S>,
    factor: S,
) -> KindView<S> {
    match (kind, orig) {
        (KindView::Rectangle { .. }, KindView::Rectangle { corner_radius }) => KindView::Rectangle {
            corner_radius: scaled_radii(corner_radius, factor),
        },
        _ => kind,
    }
}

/// A leaf resized by `map`, written from its record; `style_factor` also scales stroke and corners.
pub open spec fn stretched_leaf<S: Scalar>(
    v: LayerView<S>,
    info: ResizeInfoView<S>,
    map: Rescale<S>,
    style_factor: Option<S>,
) -> LayerView<S> {
    let bounds = stretched_bounds(info, map);
    let points = Remap::Stretch {
        map,
        from: info.abs_bounds.min,
        parent_offset: info.parent_offset,
        origin: bounds.min,
    };
    let kind = match style_factor {
        Some(k) => scaled_corners(v.kind, info.original_kind, k),
        None => v.kind,
    };
    LayerView {
        frame: Frame { rotation: info.original_rotation, ..Frame::spec_from_bounds(bounds) },
        kind: points.spec_kind(kind, info.original_kind),
        style: match style_factor {
            Some(k) => scaled_style(v.style, info.original_stroke_width, k),
            None => v.style,
        },
        ..v
    }
}

/// The layers after each recorded leaf was resized.
pub open spec fn stretched<S: Scalar>(
    s: Seq<LayerView<S>>,
    infos: Seq<ResizeInfoView<S>>,
    map: Rescale<S>,
    style_factor: Option<S>,
) -> Seq<LayerView<S>>
    decreases infos.len(),
{
    if infos.len() == 0 {
        s
    } else {
        let t = stretched(s, infos.drop_last(), map, style_factor);
        let info = infos.last();
        match crate::tree::find(t, info.id) {
            Some(v) => crate::tree::replace(t, info.id, stretched_leaf(v, info, map, style_factor)),
            None => t,
        }
    }
}

/// Scales a layer's stroke and corners from their recorded sizes.
fn scale_style_of<S: Scalar>(layer: &mut Layer<S>, info: &ResizeLayerInfo<S>, factor: S)
    ensures
        final(layer)@ == (LayerView {
            kind: scaled_corners(old(layer)@.kind, info@.original_kind, factor),
            style: scaled_style(old(layer)@.style, info@.original_stroke_width, factor),
            ..old(layer)@
        }),
{
    if let Some(width) = info.original_stroke_width {
        if let Some(stroke) = &mut layer.style.stroke {
            stroke.width = width.times(factor).greater(S::ratio(0, 1));
        }
    }
    match (&mut layer.kind, &info.original_kind) {
        (LayerKind::Rectangle { corner_radius }, LayerKind::Rectangle { corner_radius: orig }) => {
            *corner_radius = CornerRadii {
                top_left: orig.top_left.times(factor),
                top_right: orig.top_right.times(factor),
                bottom_right: orig.bottom_right.times(factor),
                bottom_left: orig.bottom_left.times(factor),
            };
        },
        _ => {},
    }
}

/// Resizes every recorded leaf by `map`, and with `style_factor` scales strokes and corners too.
///
/// Each leaf is written from its record, never from what an earlier call made of it.
pub fn apply_resize_delta<S: Scalar>(
    page: &mut Page<S>,
    layers: &Vec<ResizeLayerInfo<S>>,
    map: Rescale<S>,
    style_factor: Option<S>,
)
    ensures
        final(page)@ == old(page)@.with_layers(
            stretched(old(page)@.layers, resize_infos(layers@), map, style_factor),
        ),
{
    let ghost s = page@.layers;
    let ghost infos = resize_infos(layers@);
    let mut i: usize = 0;
    assert(infos.take(0) =~= Seq::empty());
    while i < layers.len()
        invariant
            i <= layers.len(),
            infos == resize_infos(layers@),
            page@ == old(page)@.with_layers(stretched(s, infos.take(i as int), map, style_factor)),
        decreases layers.len() - i,
    {
        let info = &layers[i];
        assert(infos.take(i + 1).drop_last() =~= infos.take(i as int));
        assert(infos.take(i + 1).last() == info@);
        if let Some(layer) = page.find_mut(info.id) {
            if let Some(factor) = style_factor {
                scale_style_of(layer, info, factor);
            }
            let bounds = Rect::from_two_pos(
                map.apply(info.abs_bounds.min),
                map.apply(info.abs_bounds.max),
            ).translate(info.parent_offset.negated());
            let points = Remap::Stretch {
                map,
                from: info.abs_bounds.min,
                parent_offset: info.parent_offset,
                origin: bounds.min,
            };
            points.kind(layer, &info.original_kind);
            layer.frame = Frame::from_bounds(bounds);
            layer.frame.rotation = info.original_rotation;
        }
        i += 1;
    }
    assert(infos.take(i as int) =~= infos);
}

/// The upright box around a layer as it is drawn; an ellipse does not reach the corners of its frame.
pub open spec fn tight_bounds<S: Scalar>(v: LayerView<S>) -> Rect<S> {
    if v.kind is Oval && !v.frame.rotation.spec_same(S::spec_ratio(0, 1)) {
        let bounds = v.frame.spec_bounds();
        let a = bounds.spec_width().spec_over(S::spec_ratio(2, 1));
        let b = bounds.spec_height().spec_over(S::spec_ratio(2, 1));
        let sin = v.frame.rotation.spec_sin_deg();
        let cos = v.frame.rotation.spec_cos_deg();
        let half_extent = Vec2 {
            x: a.spec_times(cos).spec_hypot(b.spec_times(sin)),
            y: a.spec_times(sin).spec_hypot(b.spec_times(cos)),
        };
        Rect::spec_from_center_size(
            bounds.spec_center(),
            half_extent.spec_scaled(S::spec_ratio(2, 1)),
        )
    } else {
        v.frame.spec_rotated_bounds()
    }
}

/// The upright box around a layer as it is drawn.
pub fn tight_rotated_bounds<S: Scalar>(layer: &Layer<S>) -> (r: Rect<S>)
    ensures
        r == tight_bounds(layer@),
{
    if let LayerKind::Oval = layer.kind {
        if layer.frame.rotation.is_same(S::ratio(0, 1)) {
            return layer.frame.bounds();
        }
        let bounds = layer.frame.bounds();
        let a = bounds.width().over(S::ratio(2, 1));
        let b = bounds.height().over(S::ratio(2, 1));
        let sin = layer.frame.rotation.sin_deg();
        let cos = layer.frame.rotation.cos_deg();
        let half_extent = Vec2 {
            x: a.times(cos).hypot(b.times(sin)),
            y: a.times(sin).hypot(b.times(cos)),
        };
        Rect::from_center_size(bounds.center(), half_extent.scaled(S::ratio(2, 1)))
    } else {
        layer.frame.rotated_bounds()
    }
}

/// The box around the layers of a list as they are drawn.
pub open spec fn tight_union<S: Scalar>(s: Seq<LayerView<S>>) -> Rect<S>
    recommends
        s.len() > 0,
    decreases s.len(),
{
    if s.len() <= 1 {
        tight_bounds(s[0])
    } else {
        tight_union(s.drop_last()).spec_union(tight_bounds(s.last()))
    }
}

/// The box around the layers of a list as they are drawn.
fn tight_bounds_of<S: Scalar>(layers: &Vec<Layer<S>>) -> (r: Rect<S>)
    requires
        layers.len() > 0,
    ensures
        r == tight_union(views(layers@)),
{
    let ghost s = views(layers@);
    let mut r = tight_rotated_bounds(&layers[0]);
    let mut i: usize = 1;
    assert(s.take(1)[0] == s[0]);
    assert(s[0] == layers@[0]@);
    while i < layers.len()
        invariant
            1 <= i <= layers.len(),
            s == views(layers@),
            r == tight_union(s.take(i as int)),
        decreases layers.len() - i,
    {
        assert(s.take(i + 1).drop_last() =~= s.take(i as int));
        assert(s[i as int] == layers@[i as int]@);
        r = r.union(tight_rotated_bounds(&layers[i]));
        i += 1;
    }
    assert(s.take(i as int) =~= s);
    r
}

/// A container whose frame exactly bounds its children, and whose children keep their places on
/// the page; containers inside it are refitted first. A leaf, or a container that holds nothing,
/// stays as it is.
pub open spec fn refitted<S: Scalar>(v: LayerView<S>) -> LayerView<S>
    decreases v,
{
    let inside = refitted_all(v.children);
    if !v.is_container() || inside.len() == 0 {
        v.with_children(inside)
    } else {
        let bbox = tight_union(inside);
        let delta = bbox.min.spec_to_vec2();
        LayerView {
            frame: Frame {
                pos: v.frame.pos.spec_plus(delta),
                size: bbox.spec_size(),
                rotation: S::spec_ratio(0, 1),
            },
            children: crate::grouping::moved_back(inside, delta),
            ..v
        }
    }
}

pub open spec fn refitted_all<S: Scalar>(s: Seq<LayerView<S>>) -> Seq<LayerView<S>>
    decreases s,
{
    if s.len() == 0 {
        Seq::empty()
    } else {
        refitted_all(s.drop_last()).push(refitted(s.last()))
    }
}

pub proof fn lemma_refitted_all<S: Scalar>(s: Seq<LayerView<S>>)
    ensures
        refitted_all(s).len() == s.len(),
        forall|i: int| 0 <= i < s.len() ==> #[trigger] refitted_all(s)[i] == refitted(s[i]),
    decreases s.len(),
{
    if s.len() > 0 {
        lemma_refitted_all(s.drop_last());
        assert forall|i: int| 0 <= i < s.len() implies #[trigger] refitted_all(s)[i] == refitted(
            s[i],
        ) by {
            if i < s.len() - 1 {
                assert(s.drop_last()[i] == s[i]);
            }
        }
    }
}

/// Refits a container and the containers inside it.
fn refit_layer<S: Scalar>(layer: &mut Layer<S>)
    ensures
        final(layer)@ == refitted(old(layer)@),
    decreases old(layer)@,
{
    let ghost v = layer@;
    let mut frame = layer.frame;
    match layer.children_mut() {
        Some(children) => {
            let ghost s = views(children@);
            proof {
                lemma_refitted_all(s);
                assert(decreases_to!(v => v.children));
            }
            let mut i: usize = 0;
            while i < children.len()
                invariant
                    i <= children.len(),
                    children.len() == s.len(),
                    s == v.children,
                    v == old(layer)@,
                    refitted_all(s).len() == s.len(),
                    forall|j: int|
                        0 <= j < s.len() ==> #[trigger] refitted_all(s)[j] == refitted(s[j]),
                    forall|j: int|
                        0 <= j < i ==> #[trigger] views(children@)[j] == refitted_all(s)[j],
                    forall|j: int| i <= j < s.len() ==> #[trigger] views(children@)[j] == s[j],
                decreases children.len() - i,
            {
                let ghost before = views(children@);
                assert(before[i as int] == children@[i as int]@);
                assert(decreases_to!(s => s[i as int]));
                let child = &mut children[i];
                refit_layer(child);
                assert(views(children@) == before.update(i as int, refitted(s[i as int])));
                i += 1;
            }
            assert(views(children@) =~= refitted_all(s));
            if children.len() > 0 {
                let bbox = tight_bounds_of(children);
                let delta = bbox.min.to_vec2();
                crate::grouping::move_all_back(children, delta);
                frame = Frame {
                    pos: frame.pos.plus(delta),
                    size: bbox.size(),
                    rotation: S::ratio(0, 1),
                };
            }
        },
        None => {
            assert(refitted_all(v.children) =~= v.children);
        },
    }
    layer.frame = frame;
}

/// Makes the frame of a container bound what it holds, without moving anything on the page.
pub fn refit_container_to_children<S: Scalar>(page: &mut Page<S>, id: LayerId)
    ensures
        match crate::tree::find(old(page)@.layers, id) {
            Some(v) => final(page)@ == old(page)@.with_layers(
                crate::tree::replace(old(page)@.layers, id, refitted(v)),
            ),
            None => *final(page) == *old(page),
        },
{
    if let Some(layer) = page.find_mut(id) {
        refit_layer(layer);
    }
}

/// The box around what a container holds, in the container's own space; none for a leaf or an
/// empty container.
pub open spec fn local_box<S: Scalar>(v: LayerView<S>) -> Option<Rect<S>>
    decreases v,
{
    local_box_all(v.children)
}

pub open spec fn local_box_all<S: Scalar>(s: Seq<LayerView<S>>) -> Option<Rect<S>>
    decreases s,
{
    if s.len() == 0 {
        None
    } else {
        let b = match local_box(s.last()) {
            Some(inner) => inner.spec_translate(s.last().frame.pos.spec_to_vec2()),
            None => tight_bounds(s.last()),
        };
        match local_box_all(s.drop_last()) {
            Some(rest) => Some(rest.spec_union(b)),
            None => Some(b),
        }
    }
}

/// The box around what a container holds, in the container's own space.
pub fn children_local_bbox<S: Scalar>(layer: &Layer<S>) -> (r: Option<Rect<S>>)
    ensures
        r == local_box(layer@),
    decreases *layer,
{
    match layer.children() {
        Some(children) => {
            let ghost s = views(children@);
            let mut r: Option<Rect<S>> = None;
            let mut i: usize = 0;
            assert(s.take(0) =~= Seq::empty());
            while i < children.len()
                invariant
                    i <= children.len(),
                    s == views(children@),
                    decreases_to!(*layer => children@),
                    r == local_box_all(s.take(i as int)),
                decreases children.len() - i,
            {
                assert(s.take(i + 1).drop_last() =~= s.take(i as int));
                assert(s[i as int] == children@[i as int]@);
                let child = &children[i];
                let b = match children_local_bbox(child) {
                    Some(inner) => inner.translate(child.frame.pos.to_vec2()),
                    None => tight_rotated_bounds(child),
                };
                r = match r {
                    Some(rest) => Some(rest.union(b)),
                    None => Some(b),
                };
                i += 1;
            }
            assert(s.take(i as int) =~= s);
            r
        },
        None => {
            assert(local_box_all(layer@.children) is None);
            None
        },
    }
}

/// The box that the outline of a selected layer follows, in the space of its parent.
pub open spec fn shown_bounds<S: Scalar>(v: LayerView<S>) -> Rect<S> {
    match local_box(v) {
        Some(b) => b.spec_translate(v.frame.pos.spec_to_vec2()),
        None => v.frame.spec_bounds(),
    }
}

/// The box that the outline of a selected layer follows: what a container holds right now, or a
/// leaf's own frame.
pub fn display_bounds<S: Scalar>(layer: &Layer<S>) -> (r: Rect<S>)
    ensures
        r == shown_bounds(layer@),
{
    match children_local_bbox(layer) {
        Some(b) => b.translate(layer.frame.pos.to_vec2()),
        None => layer.frame.bounds(),
    }
}

/// Writing a leaf again from its record forgets what an earlier resize made of it, unless only
/// the earlier one scaled its style.
pub proof fn law_resizing_a_leaf_does_not_build_up<S: Scalar>(
    v: LayerView<S>,
    info: ResizeInfoView<S>,
    first: Rescale<S>,
    first_factor: Option<S>,
    second: Rescale<S>,
    second_factor: Option<S>,
)
    requires
        first_factor is None || second_factor is Some,
    ensures
        stretched_leaf(
            stretched_leaf(v, info, first, first_factor),
            info,
            second,
            second_factor,
        ) == stretched_leaf(v, info, second, second_factor),
{
    let once = stretched_leaf(v, info, second, second_factor);
    let twice = stretched_leaf(
        stretched_leaf(v, info, first, first_factor),
        info,
        second,
        second_factor,
    );
    lemma_rewritten_kind(v, info, first, first_factor, second, second_factor);
    assert(twice.kind == once.kind);
}

proof fn lemma_rewritten_kind<S: Scalar>(
    v: LayerView<S>,
    info: ResizeInfoView<S>,
    first: Rescale<S>,
    first_factor: Option<S>,
    second: Rescale<S>,
    second_factor: Option<S>,
)
    requires
        first_factor is None || second_factor is Some,
    ensures
        stretched_leaf(
            stretched_leaf(v, info, first, first_factor),
            info,
            second,
            second_factor,
        ).kind == stretched_leaf(v, info, second, second_factor).kind,
{
    let mid = stretched_leaf(v, info, first, first_factor);
    let once = stretched_leaf(v, info, second, second_factor);
    let twice = stretched_leaf(mid, info, second, second_factor);
    match (v.kind, info.original_kind) {
        (KindView::Path { points, closed }, KindView::Path { points: before, .. }) => {
            assert(once.kind->Path_points =~= twice.kind->Path_points);
        },
        (
            KindView::CompoundPath { polygons },
            KindView::CompoundPath { polygons: before },
        ) => {
            assert(once.kind->polygons.len() == twice.kind->polygons.len());
            assert forall|i: int| 0 <= i < polygons.len() implies #[trigger] once.kind->polygons[i]
                == twice.kind->polygons[i] by {
                if i < before.len() {
                    let a = once.kind->polygons[i];
                    let b = twice.kind->polygons[i];
                    assert(a.exterior =~= b.exterior);
                    assert forall|j: int| 0 <= j < a.holes.len() implies #[trigger] a.holes[j]
                        == b.holes[j] by {
                        assert(a.holes[j] =~= b.holes[j]);
                    }
                    assert(a.holes =~= b.holes);
                }
            }
            assert(once.kind->polygons =~= twice.kind->polygons);
        },
        _ => {},
    }
}

} // verus!
