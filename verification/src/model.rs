//! The document: pages of layers, and what a layer is.
//!
//! Contracts speak of layers through [`LayerView`], a tree in which a layer's
//! children stand beside its kind and every collection is a sequence.
use vstd::prelude::*;

use crate::color::Color32;
use crate::geometry::{Pos2, Rect, Vec2};
use crate::scalar::Scalar;
use crate::style::{copy_vec, Style, StyleView};
use crate::text::{TextBlock, TextBlockView};

verus! {

/// Identifies a layer within its document.
pub type LayerId = u64;

/// Hands out layer ids in ascending order, each once.
pub struct IdSource {
    pub next: u64,
}

impl IdSource {
    /// A source whose ids start at `first`.
    pub fn starting_at(first: u64) -> (r: Self)
        ensures
            r.next == first,
    {
        IdSource { next: first }
    }

    /// The next unused id.
    pub fn fresh(&mut self) -> (id: LayerId)
        requires
            old(self).next < u64::MAX,
        ensures
            id == old(self).next,
            final(self).next == old(self).next + 1,
    {
        let id = self.next;
        self.next = self.next + 1;
        id
    }
}

/// Where a layer sits in its parent: a box turned by `rotation` degrees about its center.
///
/// A line runs from `pos` to `pos + size`, so `size` may be negative.
#[derive(Debug, PartialEq)]
pub struct Frame<S> {
    pub pos: Pos2<S>,
    pub size: Vec2<S>,
    pub rotation: S,
}

impl<S: Scalar> Clone for Frame<S> {
    fn clone(&self) -> (r: Self)
        ensures
            r == *self,
    {
        *self
    }
}

impl<S: Scalar> Copy for Frame<S> {

}

impl<S: Scalar> Frame<S> {
    pub open spec fn spec_from_bounds(b: Rect<S>) -> Self {
        Frame { pos: b.min, size: b.spec_size(), rotation: S::spec_ratio(0, 1) }
    }

    pub open spec fn spec_start(self) -> Pos2<S> {
        self.pos
    }

    pub open spec fn spec_end(self) -> Pos2<S> {
        self.pos.spec_plus(self.size)
    }

    pub open spec fn spec_bounds(self) -> Rect<S> {
        Rect::spec_from_two_pos(self.pos, self.spec_end())
    }

    /// The upright box around the turned frame.
    pub open spec fn spec_rotated_bounds(self) -> Rect<S> {
        if self.rotation.spec_same(S::spec_ratio(0, 1)) {
            self.spec_bounds()
        } else {
            self.spec_bounds().spec_rotated_box(self.rotation)
        }
    }

    pub open spec fn spec_moved(self, v: Vec2<S>) -> Self {
        Frame { pos: self.pos.spec_plus(v), ..self }
    }

    pub open spec fn spec_moved_back(self, v: Vec2<S>) -> Self {
        Frame { pos: self.pos.spec_minus(v), ..self }
    }

    /// An upright frame that fills `b`.
    pub fn from_bounds(b: Rect<S>) -> (r: Self)
        ensures
            r == Self::spec_from_bounds(b),
    {
        Frame { pos: b.min, size: b.size(), rotation: S::ratio(0, 1) }
    }

    /// An upright frame from `a` to `b`, in that direction.
    pub fn from_two_points(a: Pos2<S>, b: Pos2<S>) -> (r: Self)
        ensures
            r == (Frame { pos: a, size: b.spec_from(a), rotation: S::spec_ratio(0, 1) }),
    {
        Frame { pos: a, size: b.from(a), rotation: S::ratio(0, 1) }
    }

    pub fn start(self) -> (r: Pos2<S>)
        ensures
            r == self.spec_start(),
    {
        self.pos
    }

    pub fn end(self) -> (r: Pos2<S>)
        ensures
            r == self.spec_end(),
    {
        self.pos.plus(self.size)
    }

    /// The box before it is turned.
    pub fn bounds(self) -> (r: Rect<S>)
        ensures
            r == self.spec_bounds(),
    {
        Rect::from_two_pos(self.pos, self.end())
    }

    /// The upright box around the turned frame.
    pub fn rotated_bounds(self) -> (r: Rect<S>)
        ensures
            r == self.spec_rotated_bounds(),
    {
        if self.rotation.is_same(S::ratio(0, 1)) {
            self.bounds()
        } else {
            self.bounds().rotated_box(self.rotation)
        }
    }

    pub fn moved(self, v: Vec2<S>) -> (r: Self)
        ensures
            r == self.spec_moved(v),
    {
        Frame { pos: self.pos.plus(v), size: self.size, rotation: self.rotation }
    }

    pub fn moved_back(self, v: Vec2<S>) -> (r: Self)
        ensures
            r == self.spec_moved_back(v),
    {
        Frame { pos: self.pos.minus(v), size: self.size, rotation: self.rotation }
    }
}

/// How the two handles of a path point move together.
#[derive(Clone, Copy, Debug, PartialEq, Eq, Structural)]
pub enum PointType {
    /// A corner without handles.
    Straight,
    /// Handles opposite each other and of one length.
    Mirror,
    /// Handles opposite each other, each of its own length.
    Asymmetric,
    /// Handles that move freely.
    Disconnected,
}

/// An anchor of a path and its Bezier handles, which are relative to the anchor.
#[derive(Debug, PartialEq)]
pub struct PathPoint<S> {
    pub anchor: Pos2<S>,
    pub handle_in: Option<Vec2<S>>,
    pub handle_out: Option<Vec2<S>>,
    pub point_type: PointType,
    pub corner_radius: S,
}

impl<S: Scalar> Clone for PathPoint<S> {
    fn clone(&self) -> (r: Self)
        ensures
            r == *self,
    {
        *self
    }
}

impl<S: Scalar> Copy for PathPoint<S> {

}

/// A filled region: an outer ring with holes in it.
#[derive(Debug, PartialEq)]
pub struct PathPolygon<S> {
    pub exterior: Vec<Pos2<S>>,
    pub holes: Vec<Vec<Pos2<S>>>,
}

#[verifier::ext_equal]
pub struct PolygonView<S> {
    pub exterior: Seq<Pos2<S>>,
    pub holes: Seq<Seq<Pos2<S>>>,
}

pub open spec fn ring_views<S: Scalar>(rings: Seq<Vec<Pos2<S>>>) -> Seq<Seq<Pos2<S>>> {
    Seq::new(rings.len(), |i: int| rings[i]@)
}

impl<S: Scalar> PathPolygon<S> {
    pub open spec fn view(&self) -> PolygonView<S> {
        PolygonView { exterior: self.exterior@, holes: ring_views(self.holes@) }
    }

    /// A copy of its own.
    pub fn duplicate(&self) -> (r: Self)
        ensures
            r@ == self@,
    {
        let mut holes: Vec<Vec<Pos2<S>>> = Vec::new();
        let mut i: usize = 0;
        while i < self.holes.len()
            invariant
                i <= self.holes.len(),
                holes.len() == i,
                forall|k: int| 0 <= k < i ==> (#[trigger] holes@[k])@ == self.holes@[k]@,
            decreases self.holes.len() - i,
        {
            holes.push(copy_vec(&self.holes[i]));
            i += 1;
        }
        let r = PathPolygon { exterior: copy_vec(&self.exterior), holes };
        assert(r@.holes =~= self@.holes);
        r
    }
}

pub open spec fn polygon_views<S: Scalar>(polygons: Seq<PathPolygon<S>>) -> Seq<PolygonView<S>> {
    Seq::new(polygons.len(), |i: int| polygons[i]@)
}

/// Copies of a list of polygons.
pub fn duplicate_polygons<S: Scalar>(polygons: &Vec<PathPolygon<S>>) -> (r: Vec<PathPolygon<S>>)
    ensures
        polygon_views(r@) == polygon_views(polygons@),
{
    let mut r: Vec<PathPolygon<S>> = Vec::new();
    let mut i: usize = 0;
    while i < polygons.len()
        invariant
            i <= polygons.len(),
            r.len() == i,
            forall|k: int| 0 <= k < i ==> (#[trigger] r@[k])@ == polygons@[k]@,
        decreases polygons.len() - i,
    {
        r.push(polygons[i].duplicate());
        i += 1;
    }
    assert(polygon_views(r@) =~= polygon_views(polygons@));
    r
}

/// Radii of a rectangle's corners, clockwise from the top left.
#[derive(Debug, PartialEq)]
pub struct CornerRadii<S> {
    pub top_left: S,
    pub top_right: S,
    pub bottom_right: S,
    pub bottom_left: S,
}

impl<S: Scalar> Clone for CornerRadii<S> {
    fn clone(&self) -> (r: Self)
        ensures
            r == *self,
    {
        *self
    }
}

impl<S: Scalar> Copy for CornerRadii<S> {

}

impl<S: Scalar> CornerRadii<S> {
    pub open spec fn spec_uniform(v: S) -> Self {
        CornerRadii { top_left: v, top_right: v, bottom_right: v, bottom_left: v }
    }

    /// The same radius at every corner.
    pub fn uniform(v: S) -> (r: Self)
        ensures
            r == Self::spec_uniform(v),
    {
        CornerRadii { top_left: v, top_right: v, bottom_right: v, bottom_left: v }
    }
}

/// The non-destructive colour adjustment of an image.
#[derive(Debug, PartialEq)]
pub struct ColorAdjust<S> {
    pub hue: S,
    pub saturation: S,
    pub brightness: S,
    pub contrast: S,
}

impl<S: Scalar> Clone for ColorAdjust<S> {
    fn clone(&self) -> (r: Self)
        ensures
            r == *self,
    {
        *self
    }
}

impl<S: Scalar> Copy for ColorAdjust<S> {

}

/// The marker at an end of an arrow.
#[derive(Clone, Copy, Debug, PartialEq, Eq, Structural)]
pub enum ArrowCap {
    Bare,
    Line,
    Triangle,
    Disc,
}

/// How a boolean operation combines a shape with those below it.
#[derive(Clone, Copy, Debug, PartialEq, Eq, Structural)]
pub enum BoolOp {
    Union,
    Subtract,
    Intersect,
    Difference,
    Add,
}

impl BoolOp {
    pub open spec fn spec_label(self) -> Seq<char> {
        match self {
            BoolOp::Union => "Union"@,
            BoolOp::Subtract => "Subtract"@,
            BoolOp::Intersect => "Intersect"@,
            BoolOp::Difference => "Difference"@,
            BoolOp::Add => "Add"@,
        }
    }

    /// The operation's name in menus.
    pub fn label(self) -> (r: &'static str)
        ensures
            r@ == self.spec_label(),
    {
        match self {
            BoolOp::Union => "Union",
            BoolOp::Subtract => "Subtract",
            BoolOp::Intersect => "Intersect",
            BoolOp::Difference => "Difference",
            BoolOp::Add => "Add",
        }
    }
}

/// What a layer is.
#[allow(inconsistent_fields)]
#[derive(Debug, PartialEq)]
pub enum LayerKind<S> {
    Artboard { children: Vec<Layer<S>>, background: Color32 },
    Group { children: Vec<Layer<S>> },
    BooleanGroup { children: Vec<Layer<S>> },
    Rectangle { corner_radius: CornerRadii<S> },
    Oval,
    Star { points: u32, inner_ratio: S },
    Polygon { sides: u32 },
    Line,
    Arrow { start_cap: ArrowCap, end_cap: ArrowCap },
    Path { points: Vec<PathPoint<S>>, closed: bool },
    CompoundPath { polygons: Vec<PathPolygon<S>> },
    Text { text: TextBlock<S> },
    Image {
        encoded: Vec<u8>,
        version: u64,
        color_adjust: ColorAdjust<S>,
        width: u32,
        height: u32,
    },
}

/// One node of the layer tree. Lists of layers run from back to front.
#[derive(Debug, PartialEq)]
pub struct Layer<S> {
    pub id: LayerId,
    pub name: String,
    /// Relative to the parent's position.
    pub frame: Frame<S>,
    pub kind: LayerKind<S>,
    pub visible: bool,
    pub locked: bool,
    /// Clips the siblings right behind it.
    pub is_mask: bool,
    /// Is not clipped by a mask in front of it, nor is what stands further back.
    pub ignore_mask: bool,
    /// How the layer joins those below it inside a boolean group.
    pub bool_op: BoolOp,
    pub opacity: S,
    pub style: Style<S>,
}

/// [`LayerKind`] without the children.
#[allow(inconsistent_fields)]
#[verifier::ext_equal]
pub enum KindView<S> {
    Artboard { background: Color32 },
    Group,
    BooleanGroup,
    Rectangle { corner_radius: CornerRadii<S> },
    Oval,
    Star { points: u32, inner_ratio: S },
    Polygon { sides: u32 },
    Line,
    Arrow { start_cap: ArrowCap, end_cap: ArrowCap },
    Path { points: Seq<PathPoint<S>>, closed: bool },
    CompoundPath { polygons: Seq<PolygonView<S>> },
    Text { text: TextBlockView<S> },
    Image {
        encoded: Seq<u8>,
        version: u64,
        color_adjust: ColorAdjust<S>,
        width: u32,
        height: u32,
    },
}

/// [`Layer`] as a mathematical tree.
#[verifier::ext_equal]
pub struct LayerView<S> {
    pub id: LayerId,
    pub name: Seq<char>,
    pub frame: Frame<S>,
    pub kind: KindView<S>,
    pub children: Seq<LayerView<S>>,
    pub visible: bool,
    pub locked: bool,
    pub is_mask: bool,
    pub ignore_mask: bool,
    pub bool_op: BoolOp,
    pub opacity: S,
    pub style: StyleView<S>,
}

impl<S> LayerView<S> {
    /// Whether the layer can hold others.
    pub open spec fn is_container(self) -> bool {
        self.kind is Artboard || self.kind is Group || self.kind is BooleanGroup
    }

    pub open spec fn with_children(self, children: Seq<LayerView<S>>) -> Self {
        LayerView { children, ..self }
    }

    pub open spec fn with_frame(self, frame: Frame<S>) -> Self {
        LayerView { frame, ..self }
    }
}

impl<S: Scalar> LayerKind<S> {
    /// The layers inside, none for a kind that can hold none.
    pub open spec fn inside(&self) -> Seq<Layer<S>> {
        match *self {
            LayerKind::Artboard { children, .. } => children@,
            LayerKind::Group { children } => children@,
            LayerKind::BooleanGroup { children } => children@,
            _ => Seq::empty(),
        }
    }

    pub open spec fn view(&self) -> KindView<S> {
        match *self {
            LayerKind::Artboard { background, .. } => KindView::Artboard { background },
            LayerKind::Group { .. } => KindView::Group,
            LayerKind::BooleanGroup { .. } => KindView::BooleanGroup,
            LayerKind::Rectangle { corner_radius } => KindView::Rectangle { corner_radius },
            LayerKind::Oval => KindView::Oval,
            LayerKind::Star { points, inner_ratio } => KindView::Star { points, inner_ratio },
            LayerKind::Polygon { sides } => KindView::Polygon { sides },
            LayerKind::Line => KindView::Line,
            LayerKind::Arrow { start_cap, end_cap } => KindView::Arrow { start_cap, end_cap },
            LayerKind::Path { points, closed } => KindView::Path { points: points@, closed },
            LayerKind::CompoundPath { polygons } => KindView::CompoundPath {
                polygons: polygon_views(polygons@),
            },
            LayerKind::Text { text } => KindView::Text { text: text@ },
            LayerKind::Image { encoded, version, color_adjust, width, height } => KindView::Image {
                encoded: encoded@,
                version,
                color_adjust,
                width,
                height,
            },
        }
    }
}

impl<S: Scalar> Layer<S> {
    pub open spec fn view(&self) -> LayerView<S>
        decreases *self,
    {
        LayerView {
            id: self.id,
            name: self.name@,
            frame: self.frame,
            kind: self.kind@,
            children: match self.kind {
                LayerKind::Artboard { children, .. } => views(children@),
                LayerKind::Group { children } => views(children@),
                LayerKind::BooleanGroup { children } => views(children@),
                _ => Seq::empty(),
            },
            visible: self.visible,
            locked: self.locked,
            is_mask: self.is_mask,
            ignore_mask: self.ignore_mask,
            bool_op: self.bool_op,
            opacity: self.opacity,
            style: self.style@,
        }
    }
}

/// The views of a list of layers.
pub open spec fn views<S: Scalar>(layers: Seq<Layer<S>>) -> Seq<LayerView<S>>
    decreases layers,
{
    Seq::new(
        layers.len(),
        |i: int|
            if 0 <= i < layers.len() {
                layers[i].view()
            } else {
                arbitrary()
            },
    )
}

pub broadcast proof fn views_len<S: Scalar>(layers: Seq<Layer<S>>)
    ensures
        #[trigger] views(layers).len() == layers.len(),
{
}

pub broadcast proof fn views_index<S: Scalar>(layers: Seq<Layer<S>>, i: int)
    requires
        0 <= i < layers.len(),
    ensures
        #[trigger] views(layers)[i] == layers[i]@,
{
}

pub broadcast proof fn views_update<S: Scalar>(layers: Seq<Layer<S>>, k: int, x: Layer<S>)
    requires
        0 <= k < layers.len(),
    ensures
        #[trigger] views(layers.update(k, x)) == views(layers).update(k, x@),
{
    assert(views(layers.update(k, x)) =~= views(layers).update(k, x@));
}

pub broadcast proof fn views_push<S: Scalar>(layers: Seq<Layer<S>>, x: Layer<S>)
    ensures
        #[trigger] views(layers.push(x)) == views(layers).push(x@),
{
    assert(views(layers.push(x)) =~= views(layers).push(x@));
}

pub broadcast proof fn views_insert<S: Scalar>(layers: Seq<Layer<S>>, k: int, x: Layer<S>)
    requires
        0 <= k <= layers.len(),
    ensures
        #[trigger] views(layers.insert(k, x)) == views(layers).insert(k, x@),
{
    assert(views(layers.insert(k, x)) =~= views(layers).insert(k, x@));
}

pub broadcast proof fn views_remove<S: Scalar>(layers: Seq<Layer<S>>, k: int)
    requires
        0 <= k < layers.len(),
    ensures
        #[trigger] views(layers.remove(k)) == views(layers).remove(k),
{
    assert(views(layers.remove(k)) =~= views(layers).remove(k));
}

pub broadcast proof fn view_children<S: Scalar>(layer: Layer<S>)
    ensures
        #[trigger] layer.view().children == views(layer.kind.inside()),
{
    assert(layer.view().children =~= views(layer.kind.inside()));
}

pub broadcast group group_views {
    view_children,
    views_len,
    views_index,
    views_update,
    views_push,
    views_insert,
    views_remove,
}

impl<S: Scalar> Layer<S> {
    /// What [`Layer::new`] makes of a name, a frame and a kind.
    pub open spec fn spec_new(
        id: LayerId,
        name: Seq<char>,
        frame: Frame<S>,
        kind: KindView<S>,
        children: Seq<LayerView<S>>,
    ) -> LayerView<S> {
        LayerView {
            id,
            name,
            frame,
            kind,
            children,
            visible: true,
            locked: false,
            is_mask: false,
            ignore_mask: false,
            bool_op: BoolOp::Union,
            opacity: S::spec_ratio(1, 1),
            style: Style::<S>::spec_default(),
        }
    }

    /// A visible, unlocked layer with the standard look.
    pub fn new(id: LayerId, name: &str, frame: Frame<S>, kind: LayerKind<S>) -> (r: Self)
        ensures
            r@ == Self::spec_new(id, name@, frame, kind@, views(kind.inside())),
    {
        broadcast use view_children;

        Layer {
            id,
            name: name.to_owned(),
            frame,
            kind,
            visible: true,
            locked: false,
            is_mask: false,
            ignore_mask: false,
            bool_op: BoolOp::Union,
            opacity: S::ratio(1, 1),
            style: Style::standard(),
        }
    }

    /// The layers inside this one, if it can hold any.
    pub fn children(&self) -> (r: Option<&Vec<Layer<S>>>)
        ensures
            r is Some <==> self@.is_container(),
            match r {
                Some(c) => self@.children == views(c@) && decreases_to!(*self => c@),
                None => self@.children == Seq::<LayerView<S>>::empty(),
            },
    {
        match &self.kind {
            LayerKind::Artboard { children, .. } => Some(children),
            LayerKind::Group { children } => Some(children),
            LayerKind::BooleanGroup { children } => Some(children),
            _ => None,
        }
    }

    /// The layers inside this one, to be changed.
    pub fn children_mut(&mut self) -> (r: Option<&mut Vec<Layer<S>>>)
        ensures
            r is Some <==> old(self)@.is_container(),
            match r {
                Some(c) => {
                    &&& old(self)@.children == views(c@)
                    &&& final(self)@ == old(self)@.with_children(views(final(c)@))
                },
                None => {
                    &&& *final(self) == *old(self)
                    &&& old(self)@.children == Seq::<LayerView<S>>::empty()
                },
            },
    {
        match &mut self.kind {
            LayerKind::Artboard { children, .. } => Some(children),
            LayerKind::Group { children } => Some(children),
            LayerKind::BooleanGroup { children } => Some(children),
            _ => None,
        }
    }

    /// A copy of its own, ids included.
    pub fn duplicate(&self) -> (r: Self)
        ensures
            r@ == self@,
        decreases *self,
    {
        broadcast use view_children;

        Layer {
            id: self.id,
            name: self.name.clone(),
            frame: self.frame,
            kind: self.kind.duplicate(),
            visible: self.visible,
            locked: self.locked,
            is_mask: self.is_mask,
            ignore_mask: self.ignore_mask,
            bool_op: self.bool_op,
            opacity: self.opacity,
            style: self.style.duplicate(),
        }
    }
}

impl<S: Scalar> LayerKind<S> {
    /// A copy of its own.
    pub fn duplicate(&self) -> (r: Self)
        ensures
            r@ == self@,
            views(r.inside()) == views(self.inside()),
        decreases *self,
    {
        match self {
            LayerKind::Artboard { children, background } => LayerKind::Artboard {
                children: duplicate_all(children),
                background: *background,
            },
            LayerKind::Group { children } => LayerKind::Group { children: duplicate_all(children) },
            LayerKind::BooleanGroup { children } => LayerKind::BooleanGroup {
                children: duplicate_all(children),
            },
            LayerKind::Rectangle { corner_radius } => LayerKind::Rectangle {
                corner_radius: *corner_radius,
            },
            LayerKind::Oval => LayerKind::Oval,
            LayerKind::Star { points, inner_ratio } => LayerKind::Star {
                points: *points,
                inner_ratio: *inner_ratio,
            },
            LayerKind::Polygon { sides } => LayerKind::Polygon { sides: *sides },
            LayerKind::Line => LayerKind::Line,
            LayerKind::Arrow { start_cap, end_cap } => LayerKind::Arrow {
                start_cap: *start_cap,
                end_cap: *end_cap,
            },
            LayerKind::Path { points, closed } => LayerKind::Path {
                points: copy_vec(points),
                closed: *closed,
            },
            LayerKind::CompoundPath { polygons } => LayerKind::CompoundPath {
                polygons: duplicate_polygons(polygons),
            },
            LayerKind::Text { text } => LayerKind::Text { text: text.duplicate() },
            LayerKind::Image { encoded, version, color_adjust, width, height } => LayerKind::Image {
                encoded: copy_vec(encoded),
                version: *version,
                color_adjust: *color_adjust,
                width: *width,
                height: *height,
            },
        }
    }
}

/// Copies of a list of layers, ids included.
pub fn duplicate_all<S: Scalar>(layers: &Vec<Layer<S>>) -> (r: Vec<Layer<S>>)
    ensures
        views(r@) == views(layers@),
    decreases *layers,
{
    let mut r: Vec<Layer<S>> = Vec::new();
    let mut i: usize = 0;
    while i < layers.len()
        invariant
            i <= layers.len(),
            r.len() == i,
            forall|k: int| 0 <= k < i ==> (#[trigger] r@[k])@ == layers@[k]@,
        decreases layers.len() - i,
    {
        r.push(layers[i].duplicate());
        i += 1;
    }
    assert(views(r@) =~= views(layers@));
    r
}

/// How many layers the tree under `v` has, `v` among them.
pub open spec fn count<S>(v: LayerView<S>) -> nat
    decreases v,
{
    1 + count_all(v.children)
}

/// How many layers the trees of a list have.
pub open spec fn count_all<S>(s: Seq<LayerView<S>>) -> nat
    decreases s,
{
    if s.len() == 0 {
        0
    } else {
        count_all(s.drop_last()) + count(s.last())
    }
}

/// The tree with the ids `n`, `n + 1` and so on, in document order.
pub open spec fn renumbered<S>(v: LayerView<S>, n: int) -> LayerView<S>
    decreases v,
{
    LayerView { id: n as u64, children: renumbered_all(v.children, n + 1), ..v }
}

/// The trees of a list with the ids `n`, `n + 1` and so on, in document order.
pub open spec fn renumbered_all<S>(s: Seq<LayerView<S>>, n: int) -> Seq<LayerView<S>>
    decreases s,
{
    if s.len() == 0 {
        Seq::empty()
    } else {
        renumbered_all(s.drop_last(), n).push(
            renumbered(s.last(), n + count_all(s.drop_last())),
        )
    }
}

pub proof fn lemma_count_all_grows<S>(s: Seq<LayerView<S>>, k: int)
    requires
        0 <= k < s.len(),
    ensures
        count_all(s.take(k)) + count(s[k]) == count_all(s.take(k + 1)),
        count_all(s.take(k + 1)) <= count_all(s),
    decreases s.len(),
{
    assert(s.take(k + 1).drop_last() =~= s.take(k));
    if k + 1 == s.len() {
        assert(s.take(k + 1) =~= s);
    } else {
        lemma_count_all_grows(s.drop_last(), k);
        assert(s.drop_last().take(k + 1) =~= s.take(k + 1));
    }
}

impl<S: Scalar> Layer<S> {
    /// Gives the layer and all that it holds fresh ids.
    pub fn regenerate_ids(&mut self, source: &mut IdSource)
        requires
            old(source).next + count(old(self)@) <= u64::MAX,
        ensures
            final(self)@ == renumbered(old(self)@, old(source).next as int),
            final(source).next == old(source).next + count(old(self)@),
        decreases old(self)@,
    {
        let ghost start = self@;
        self.id = source.fresh();
        match self.children_mut() {
            Some(children) => {
                assert(decreases_to!(start => start.children));
                regenerate_all_ids(children, source);
            },
            None => {
                assert(count_all(start.children) == 0);
                assert(renumbered_all(start.children, source.next as int) =~= Seq::empty());
            },
        }
    }
}

/// Gives the layers of a list and all that they hold fresh ids.
pub fn regenerate_all_ids<S: Scalar>(layers: &mut Vec<Layer<S>>, source: &mut IdSource)
    requires
        old(source).next + count_all(views(old(layers)@)) <= u64::MAX,
    ensures
        views(final(layers)@) == renumbered_all(views(old(layers)@), old(source).next as int),
        final(source).next == old(source).next + count_all(views(old(layers)@)),
    decreases views(old(layers)@),
{
    broadcast use group_views;

    let ghost s = views(layers@);
    let ghost n = source.next as int;
    let mut i: usize = 0;
    proof {
        assert(s.take(0) =~= Seq::empty());
        assert(s.skip(0) =~= s);
        assert(renumbered_all(s.take(0), n) =~= Seq::empty());
        assert(views(layers@) =~= renumbered_all(s.take(0), n) + s.skip(0));
    }
    while i < layers.len()
        invariant
            i <= layers.len(),
            layers.len() == s.len(),
            s == views(old(layers)@),
            renumbered_all(s.take(i as int), n).len() == i,
            views(layers@) == renumbered_all(s.take(i as int), n) + s.skip(i as int),
            source.next == n + count_all(s.take(i as int)),
            n + count_all(s) <= u64::MAX,
        decreases layers.len() - i,
    {
        let ghost done = renumbered_all(s.take(i as int), n);
        proof {
            lemma_count_all_grows(s, i as int);
            assert(s.take(i + 1).drop_last() =~= s.take(i as int));
            assert(views(layers@)[i as int] == s[i as int]);
            assert(decreases_to!(s => s[i as int]));
        }
        let ghost before = views(layers@);
        let layer = &mut layers[i];
        layer.regenerate_ids(source);
        proof {
            assert(views(layers@) == before.update(
                i as int,
                renumbered(s[i as int], n + count_all(s.take(i as int))),
            ));
            assert(views(layers@) =~= done.push(
                renumbered(s[i as int], n + count_all(s.take(i as int))),
            ) + s.skip(i + 1));
        }
        i += 1;
    }
    assert(s.take(i as int) =~= s);
    assert(views(layers@) =~= renumbered_all(s, n));
}

} // verus!
