//! Combining shapes: union, subtraction, intersection, difference and addition.
//!
//! A boolean group keeps its operands as editable children. What it looks like is given by a
//! program for a stack of regions ([`ShapeStep`]): this module says which shapes take part, as
//! which rings, and in which order they are combined; clipping one region with another is left to
//! whoever runs the program.
use vstd::prelude::*;

use crate::document::Page;
use crate::geometry::{Pos2, Rect, Vec2};
use crate::grouping::{bounds_of, find_common_parent_list, has_id, move_all_back, take_picked};
use crate::model::{
    group_views, polygon_views, views, BoolOp, Frame, IdSource, KindView, Layer, LayerId, LayerKind,
    LayerView, PathPolygon, PolygonView,
};
use crate::path_edit::flatten_path;
use crate::scalar::Scalar;
use crate::shapes::{
    ellipse_points, place_ring, polygon_points, rounded_rect_points, star_points, turn_ring,
};
use crate::style::{Style, StyleView};

verus! {

broadcast use group_views;

/// Whether a layer has an area that can take part in a boolean operation.
pub open spec fn fillable<S>(v: LayerView<S>) -> bool {
    match v.kind {
        KindView::Rectangle { .. }
        | KindView::Oval
        | KindView::Star { .. }
        | KindView::Polygon { .. }
        | KindView::CompoundPath { .. }
        | KindView::BooleanGroup => true,
        KindView::Path { points, closed } => closed && points.len() >= 3,
        _ => false,
    }
}

/// Whether a layer has an area that can take part in a boolean operation.
pub fn is_fillable<S: Scalar>(layer: &Layer<S>) -> (r: bool)
    ensures
        r == fillable(layer@),
{
    match &layer.kind {
        LayerKind::Rectangle { .. }
        | LayerKind::Oval
        | LayerKind::Star { .. }
        | LayerKind::Polygon { .. }
        | LayerKind::CompoundPath { .. }
        | LayerKind::BooleanGroup { .. } => true,
        LayerKind::Path { points, closed } => *closed && points.len() >= 3,
        _ => false,
    }
}

/// One step of the program that builds a region on a stack.
pub enum ShapeStep<S> {
    /// Push a region without area.
    Nothing,
    /// Push the region of some polygons.
    Rings { polygons: Vec<PathPolygon<S>> },
    /// Pop two regions and push what the operation makes of the lower and the upper one.
    Combine { op: BoolOp },
    /// Move the top region by `offset`, then turn it by `degrees` about `center`.
    Place { offset: Vec2<S>, center: Pos2<S>, degrees: S },
}

#[verifier::ext_equal]
pub enum StepView<S> {
    Nothing,
    Rings { polygons: Seq<PolygonView<S>> },
    Combine { op: BoolOp },
    Place { offset: Vec2<S>, center: Pos2<S>, degrees: S },
}

impl<S: Scalar> ShapeStep<S> {
    pub open spec fn view(&self) -> StepView<S> {
        match *self {
            ShapeStep::Nothing => StepView::Nothing,
            ShapeStep::Rings { polygons } => StepView::Rings { polygons: polygon_views(polygons@) },
            ShapeStep::Combine { op } => StepView::Combine { op },
            ShapeStep::Place { offset, center, degrees } => StepView::Place {
                offset,
                center,
                degrees,
            },
        }
    }
}

pub open spec fn step_views<S: Scalar>(s: Seq<ShapeStep<S>>) -> Seq<StepView<S>> {
    Seq::new(s.len(), |i: int| s[i]@)
}

pub open spec fn lone_ring<S>(ring: Seq<Pos2<S>>) -> Seq<PolygonView<S>> {
    seq![PolygonView { exterior: ring, holes: Seq::empty() }]
}

/// A polygon moved by `offset` and turned by `degrees` about `center`.
pub open spec fn placed_polygon<S: Scalar>(
    p: PolygonView<S>,
    offset: Vec2<S>,
    center: Pos2<S>,
    degrees: S,
) -> PolygonView<S> {
    PolygonView {
        exterior: crate::shapes::placed_ring(p.exterior, offset, center, degrees),
        holes: Seq::new(
            p.holes.len(),
            |i: int| crate::shapes::placed_ring(p.holes[i], offset, center, degrees),
        ),
    }
}

/// The polygons of a shape that is no boolean group, in the space of its parent.
pub open spec fn rings_of<S: Scalar>(v: LayerView<S>) -> Seq<PolygonView<S>> {
    let b = v.frame.spec_bounds();
    let c = b.spec_center();
    let two = S::spec_ratio(2, 1);
    let rx = b.spec_width().spec_over(two);
    let ry = b.spec_height().spec_over(two);
    let offset = v.frame.pos.spec_to_vec2();
    let degrees = v.frame.rotation;
    match v.kind {
        KindView::Rectangle { corner_radius } => lone_ring(
            crate::shapes::turned_ring(
                crate::shapes::rounded_rect(b, corner_radius),
                c,
                degrees,
            ),
        ),
        KindView::Oval => lone_ring(
            crate::shapes::turned_ring(crate::shapes::ellipse(c, rx, ry), c, degrees),
        ),
        KindView::Star { points, inner_ratio } => lone_ring(
            crate::shapes::turned_ring(
                crate::shapes::star(c, rx, ry, points, inner_ratio),
                c,
                degrees,
            ),
        ),
        KindView::Polygon { sides } => lone_ring(
            crate::shapes::turned_ring(
                crate::shapes::regular_polygon(c, rx, ry, sides),
                c,
                degrees,
            ),
        ),
        KindView::Path { points, .. } => lone_ring(
            crate::shapes::placed_ring(
                crate::path_edit::flattened(points, true),
                offset,
                c,
                degrees,
            ),
        ),
        KindView::CompoundPath { polygons } => Seq::new(
            polygons.len(),
            |i: int| placed_polygon(polygons[i], offset, c, degrees),
        ),
        _ => Seq::empty(),
    }
}

/// The program for the area of one layer, in the space of its parent.
pub open spec fn program<S: Scalar>(v: LayerView<S>) -> Seq<StepView<S>>
    decreases v, 0int,
{
    if v.kind is BooleanGroup {
        whole_program(v.children).push(
            StepView::Place {
                offset: v.frame.pos.spec_to_vec2(),
                center: v.frame.spec_bounds().spec_center(),
                degrees: v.frame.rotation,
            },
        )
    } else {
        seq![StepView::Rings { polygons: rings_of(v) }]
    }
}

/// The program for the children of a boolean group, empty where none takes part: the backmost
/// shown child with an area is the base, each one in front of it joins by its own operation.
pub open spec fn children_program<S: Scalar>(s: Seq<LayerView<S>>) -> Seq<StepView<S>>
    decreases s, 0int,
{
    if s.len() == 0 {
        Seq::empty()
    } else {
        let rest = children_program(s.drop_last());
        let v = s.last();
        if !v.visible || !fillable(v) {
            rest
        } else if rest.len() == 0 {
            program(v)
        } else {
            (rest + program(v)).push(StepView::Combine { op: v.bool_op })
        }
    }
}

/// The program for the combined shape of a boolean group's children.
pub open spec fn whole_program<S: Scalar>(s: Seq<LayerView<S>>) -> Seq<StepView<S>>
    decreases s, 1int,
{
    if children_program(s).len() == 0 {
        seq![StepView::Nothing]
    } else {
        children_program(s)
    }
}

/// One polygon without holes.
fn one_ring<S: Scalar>(ring: Vec<Pos2<S>>) -> (r: Vec<PathPolygon<S>>)
    ensures
        polygon_views(r@) == lone_ring(ring@),
{
    let ghost want = lone_ring(ring@);
    let mut r: Vec<PathPolygon<S>> = Vec::new();
    let p = PathPolygon { exterior: ring, holes: Vec::new() };
    assert(p@.holes =~= Seq::empty());
    r.push(p);
    assert(polygon_views(r@) =~= want);
    r
}

/// A polygon moved by `offset` and turned by `degrees` about `center`.
fn place_polygon<S: Scalar>(p: &PathPolygon<S>, offset: Vec2<S>, center: Pos2<S>, degrees: S) -> (r:
    PathPolygon<S>)
    ensures
        r@ == placed_polygon(p@, offset, center, degrees),
{
    let mut holes: Vec<Vec<Pos2<S>>> = Vec::new();
    let mut i: usize = 0;
    while i < p.holes.len()
        invariant
            i <= p.holes.len(),
            holes.len() == i,
            forall|k: int|
                0 <= k < i ==> (#[trigger] holes@[k])@ == crate::shapes::placed_ring(
                    p.holes@[k]@,
                    offset,
                    center,
                    degrees,
                ),
        decreases p.holes.len() - i,
    {
        holes.push(place_ring(&p.holes[i], offset, center, degrees));
        i += 1;
    }
    let r = PathPolygon { exterior: place_ring(&p.exterior, offset, center, degrees), holes };
    assert(r@.holes =~= placed_polygon(p@, offset, center, degrees).holes);
    r
}

/// The polygons of a shape that is no boolean group, in the space of its parent.
fn shape_rings<S: Scalar>(layer: &Layer<S>) -> (r: Vec<PathPolygon<S>>)
    ensures
        polygon_views(r@) == rings_of(layer@),
{
    let b = layer.frame.bounds();
    let c = b.center();
    let two = S::ratio(2, 1);
    let rx = b.width().over(two);
    let ry = b.height().over(two);
    let offset = layer.frame.pos.to_vec2();
    let degrees = layer.frame.rotation;
    match &layer.kind {
        LayerKind::Rectangle { corner_radius } => one_ring(
            turn_ring(&rounded_rect_points(b, *corner_radius), c, degrees),
        ),
        LayerKind::Oval => one_ring(turn_ring(&ellipse_points(c, rx, ry), c, degrees)),
        LayerKind::Star { points, inner_ratio } => one_ring(
            turn_ring(&star_points(c, rx, ry, *points, *inner_ratio), c, degrees),
        ),
        LayerKind::Polygon { sides } => one_ring(
            turn_ring(&polygon_points(c, rx, ry, *sides), c, degrees),
        ),
        LayerKind::Path { points, .. } => one_ring(
            place_ring(&flatten_path(points.as_slice(), true), offset, c, degrees),
        ),
        LayerKind::CompoundPath { polygons } => {
            let mut r: Vec<PathPolygon<S>> = Vec::new();
            let mut i: usize = 0;
            while i < polygons.len()
                invariant
                    i <= polygons.len(),
                    r.len() == i,
                    forall|k: int|
                        0 <= k < i ==> (#[trigger] r@[k])@ == placed_polygon(
                            polygons@[k]@,
                            offset,
                            c,
                            degrees,
                        ),
                decreases polygons.len() - i,
            {
                r.push(place_polygon(&polygons[i], offset, c, degrees));
                i += 1;
            }
            assert(polygon_views(r@) =~= rings_of(layer@));
            r
        },
        _ => {
            let r: Vec<PathPolygon<S>> = Vec::new();
            assert(polygon_views(r@) =~= Seq::empty());
            r
        },
    }
}

/// Appends the program for the area of one layer, in the space of its parent.
pub fn flatten_layer<S: Scalar>(layer: &Layer<S>, out: &mut Vec<ShapeStep<S>>) -> (r: bool)
    ensures
        r == fillable(layer@),
        r ==> step_views(final(out)@) == step_views(old(out)@) + program(layer@),
        !r ==> *final(out) == *old(out),
    decreases *layer, 1int,
{
    if !is_fillable(layer) {
        return false;
    }
    let ghost start = step_views(out@);
    match &layer.kind {
        LayerKind::BooleanGroup { children } => {
            append_group(children, out);
            let ghost mid = step_views(out@);
            assert(mid == start + whole_program(layer@.children));
            out.push(
                ShapeStep::Place {
                    offset: layer.frame.pos.to_vec2(),
                    center: layer.frame.bounds().center(),
                    degrees: layer.frame.rotation,
                },
            );
            assert(step_views(out@) =~= mid.push(program(layer@).last()));
            assert(mid.push(program(layer@).last()) =~= start + program(layer@));
        },
        _ => {
            let step = ShapeStep::Rings { polygons: shape_rings(layer) };
            out.push(step);
            assert(step_views(out@) =~= start + program(layer@));
        },
    }
    true
}

/// Appends the program for the combined shape of a boolean group's children.
fn append_group<S: Scalar>(children: &Vec<Layer<S>>, out: &mut Vec<ShapeStep<S>>)
    ensures
        step_views(final(out)@) == step_views(old(out)@) + whole_program(views(children@)),
    decreases children@, 0int,
{
    let ghost start = step_views(out@);
    let ghost s = views(children@);
    let mut any = false;
    let mut i: usize = 0;
    assert(s.take(0) =~= Seq::empty());
    assert(step_views(out@) =~= start + children_program(s.take(0)));
    while i < children.len()
        invariant
            i <= children.len(),
            s == views(children@),
            step_views(out@) == start + children_program(s.take(i as int)),
            any == (children_program(s.take(i as int)).len() > 0),
        decreases children.len() - i,
    {
        let child = &children[i];
        let ghost rest = children_program(s.take(i as int));
        assert(s.take(i + 1).drop_last() =~= s.take(i as int));
        assert(s.take(i + 1).last() == child@);
        if child.visible {
            if flatten_layer(child, out) {
                assert(program(child@).len() > 0);
                if any {
                    let ghost mid = step_views(out@);
                    let ghost last = StepView::<S>::Combine { op: child.bool_op };
                    out.push(ShapeStep::Combine { op: child.bool_op });
                    assert(step_views(out@) =~= mid.push(last));
                    assert(mid.push(last) =~= start + (rest + program(child@)).push(last));
                } else {
                    assert(start + rest + program(child@) =~= start + program(child@));
                }
                any = true;
            }
        }
        i += 1;
    }
    assert(s.take(i as int) =~= s);
    if !any {
        out.push(ShapeStep::Nothing);
        assert(step_views(out@) =~= start + whole_program(s));
    }
}

/// The program for the combined shape of a boolean group's children, in the group's own space.
pub fn compute_boolean_group<S: Scalar>(children: &Vec<Layer<S>>) -> (r: Vec<ShapeStep<S>>)
    ensures
        step_views(r@) == whole_program(views(children@)),
{
    let mut r: Vec<ShapeStep<S>> = Vec::new();
    append_group(children, &mut r);
    assert(step_views(r@) =~= whole_program(views(children@)));
    r
}

/// How many regions a program leaves on a stack that had `depth`; none where a step finds too few.
pub open spec fn depth_after<S>(steps: Seq<StepView<S>>, depth: int) -> Option<int>
    decreases steps.len(),
{
    if steps.len() == 0 {
        Some(depth)
    } else {
        match depth_after(steps.drop_last(), depth) {
            Some(d) => match steps.last() {
                StepView::Nothing | StepView::Rings { .. } => Some(d + 1),
                StepView::Combine { .. } => if d >= 2 {
                    Some(d - 1)
                } else {
                    None
                },
                StepView::Place { .. } => if d >= 1 {
                    Some(d)
                } else {
                    None
                },
            },
            None => None,
        }
    }
}

proof fn lemma_depth_concat<S>(a: Seq<StepView<S>>, b: Seq<StepView<S>>, depth: int)
    ensures
        depth_after(a + b, depth) == (match depth_after(a, depth) {
            Some(d) => depth_after(b, d),
            None => None,
        }),
    decreases b.len(),
{
    if b.len() == 0 {
        assert(a + b =~= a);
    } else {
        assert((a + b).drop_last() =~= a + b.drop_last());
        assert((a + b).last() == b.last());
        lemma_depth_concat(a, b.drop_last(), depth);
    }
}

/// The program for a boolean group leaves exactly one region on the stack and never runs short.
pub proof fn law_a_program_leaves_one_region<S: Scalar>(s: Seq<LayerView<S>>, depth: int)
    requires
        depth >= 0,
    ensures
        depth_after(whole_program(s), depth) == Some(depth + 1),
    decreases s, 1int,
{
    lemma_children_program(s, depth);
    let one = seq![StepView::<S>::Nothing];
    assert(one.drop_last() =~= Seq::empty());
    assert(depth_after(one.drop_last(), depth) == Some(depth));
}

proof fn lemma_children_program<S: Scalar>(s: Seq<LayerView<S>>, depth: int)
    requires
        depth >= 0,
    ensures
        children_program(s).len() > 0 ==> depth_after(children_program(s), depth) == Some(
            depth + 1,
        ),
    decreases s, 0int,
{
    if s.len() > 0 {
        let v = s.last();
        let rest = children_program(s.drop_last());
        lemma_children_program(s.drop_last(), depth);
        lemma_program(v, depth);
        lemma_program(v, depth + 1);
        if v.visible && fillable(v) && rest.len() > 0 {
            lemma_depth_concat(rest, program(v), depth);
            let all = (rest + program(v)).push(StepView::Combine { op: v.bool_op });
            assert(all.drop_last() =~= rest + program(v));
        }
    }
}

proof fn lemma_program<S: Scalar>(v: LayerView<S>, depth: int)
    requires
        depth >= 0,
    ensures
        depth_after(program(v), depth) == Some(depth + 1),
    decreases v, 0int,
{
    if v.kind is BooleanGroup {
        law_a_program_leaves_one_region(v.children, depth);
        assert(program(v).drop_last() =~= whole_program(v.children));
    } else {
        assert(program(v).drop_last() =~= Seq::empty());
        assert(depth_after(program(v).drop_last(), depth) == Some(depth));
    }
}

/// The operands after all but the backmost took an operation.
pub open spec fn with_op<S>(s: Seq<LayerView<S>>, op: BoolOp) -> Seq<LayerView<S>> {
    Seq::new(
        s.len(),
        |i: int|
            if i > 0 {
                LayerView { bool_op: op, ..s[i] }
            } else {
                s[i]
            },
    )
}

/// Whether every layer of the list has an area.
pub open spec fn all_fillable<S>(s: Seq<LayerView<S>>) -> bool {
    forall|i: int| 0 <= i < s.len() ==> fillable(#[trigger] s[i])
}

/// The operands that `ids` names, if they can be combined: at least two ids, all in one list, each
/// naming one layer with an area.
pub open spec fn operands<S>(s: Seq<LayerView<S>>, ids: Seq<LayerId>) -> Option<Seq<int>> {
    if ids.len() < 2 {
        None
    } else {
        match crate::tree::home(s, ids) {
            Some(p) => {
                let picked = crate::grouping::picked(crate::tree::list_at(s, p), ids);
                if picked.len() == ids.len() && all_fillable(picked) {
                    Some(p)
                } else {
                    None
                }
            },
            None => None,
        }
    }
}

/// The list after the layers that `ids` names became the members of a boolean group.
pub open spec fn combined_list<S: Scalar>(
    s: Seq<LayerView<S>>,
    ids: Seq<LayerId>,
    op: BoolOp,
    group_id: LayerId,
) -> Seq<LayerView<S>> {
    crate::grouping::kept(s, ids).insert(
        crate::grouping::slot(s, ids),
        crate::grouping::wrapped(
            group_id,
            op.spec_label(),
            KindView::BooleanGroup,
            with_op(crate::grouping::picked(s, ids), op),
        ),
    )
}

/// Whether the layers that `ids` names are as many as the ids, and all have an area.
fn can_combine<S: Scalar>(list: &Vec<Layer<S>>, ids: &[LayerId]) -> (r: bool)
    ensures
        r == ({
            let picked = crate::grouping::picked(views(list@), ids@);
            picked.len() == ids@.len() && all_fillable(picked)
        }),
{
    let ghost s = views(list@);
    let mut n: usize = 0;
    let mut all = true;
    let mut i: usize = 0;
    proof {
        reveal(Seq::filter);
        assert(s.take(0) =~= Seq::empty());
    }
    while i < list.len()
        invariant
            i <= list.len(),
            s == views(list@),
            n <= i,
            n == crate::grouping::picked(s.take(i as int), ids@).len(),
            all == all_fillable(crate::grouping::picked(s.take(i as int), ids@)),
        decreases list.len() - i,
    {
        let ghost done = crate::grouping::picked(s.take(i as int), ids@);
        let ghost next = crate::grouping::picked(s.take(i + 1), ids@);
        proof {
            reveal(Seq::filter);
            assert(s.take(i + 1).drop_last() =~= s.take(i as int));
            assert(s.take(i + 1).last() == s[i as int]);
            assert(s[i as int] == list@[i as int]@);
        }
        if has_id(ids, list[i].id) {
            assert(crate::grouping::picks::<S>(ids@)(s[i as int]));
            assert(next == done.push(s[i as int]));
            n += 1;
            let one = is_fillable(&list[i]);
            proof {
                assert(next[done.len() as int] == s[i as int]);
                assert forall|k: int| 0 <= k < done.len() implies next[k] == done[k] by {}
                if all && one {
                    assert forall|k: int| 0 <= k < next.len() implies fillable(
                        #[trigger] next[k],
                    ) by {
                        if k < done.len() {
                            assert(fillable(done[k]));
                        }
                    }
                } else if !all {
                    let k = choose|k: int| 0 <= k < done.len() && !fillable(#[trigger] done[k]);
                    assert(!fillable(next[k]));
                }
            }
            all = all && one;
        } else {
            assert(!crate::grouping::picks::<S>(ids@)(s[i as int]));
        }
        i += 1;
    }
    assert(s.take(i as int) =~= s);
    n == ids.len() && all
}

/// Gives all layers of a list but the first an operation.
fn set_ops<S: Scalar>(layers: &mut Vec<Layer<S>>, op: BoolOp)
    ensures
        views(final(layers)@) == with_op(views(old(layers)@), op),
        final(layers).len() == old(layers).len(),
{
    let ghost s = views(layers@);
    let mut i: usize = 0;
    while i < layers.len()
        invariant
            i <= layers.len(),
            layers.len() == s.len(),
            forall|j: int| 0 <= j < i ==> #[trigger] views(layers@)[j] == with_op(s, op)[j],
            forall|j: int| i <= j < s.len() ==> #[trigger] views(layers@)[j] == s[j],
        decreases layers.len() - i,
    {
        let ghost before = views(layers@);
        assert(before[i as int] == layers@[i as int]@);
        if i > 0 {
            let layer = &mut layers[i];
            layer.bool_op = op;
            assert(views(layers@) == before.update(i as int, with_op(s, op)[i as int]));
        }
        i += 1;
    }
    assert(views(layers@) =~= with_op(s, op));
}

/// Makes sibling shapes the members of a new boolean group, which takes the place of the frontmost
/// of them; all but the backmost take the operation.
///
/// Returns the group's id, or `None` with the page as it was where the shapes cannot be combined.
pub fn create_boolean_group<S: Scalar>(
    page: &mut Page<S>,
    ids: &[LayerId],
    op: BoolOp,
    source: &mut IdSource,
) -> (r: Option<LayerId>)
    requires
        old(source).next < u64::MAX,
    ensures
        match operands(old(page)@.layers, ids@) {
            Some(p) => {
                &&& r == Some(old(source).next)
                &&& final(source).next == old(source).next + 1
                &&& final(page)@ == old(page)@.with_layers(
                    crate::tree::with_list_at(
                        old(page)@.layers,
                        p,
                        combined_list(
                            crate::tree::list_at(old(page)@.layers, p),
                            ids@,
                            op,
                            old(source).next,
                        ),
                    ),
                )
            },
            None => {
                &&& r is None
                &&& *final(source) == *old(source)
                &&& final(page)@ == old(page)@
            },
        },
{
    if ids.len() < 2 {
        return None;
    }
    let ghost before = page@.layers;
    match find_common_parent_list(&mut page.layers, ids) {
        Some(parent) => {
            let ghost list = views(parent@);
            if !can_combine(parent, ids) {
                proof {
                    crate::tree::lemma_with_list_at(
                        before,
                        crate::tree::home(before, ids@)->0,
                        list,
                    );
                }
                return None;
            }
            let (mut removed, insert_at) = take_picked(parent, ids);
            assert(views(removed@).len() == ids@.len());
            set_ops(&mut removed, op);
            let bbox = bounds_of(&removed);
            move_all_back(&mut removed, bbox.min.to_vec2());
            let id = source.fresh();
            let kind = LayerKind::BooleanGroup { children: removed };
            let group = Layer::new(id, op.label(), Frame::from_bounds(bbox), kind);
            parent.insert(insert_at, group);
            Some(id)
        },
        None => None,
    }
}

/// The program that combines the layers that `ids` names, from back to front, with one operation.
pub open spec fn fold_program<S: Scalar>(s: Seq<LayerView<S>>, op: BoolOp) -> Seq<StepView<S>>
    decreases s.len(),
{
    if s.len() == 0 {
        Seq::empty()
    } else if s.len() == 1 {
        program(s[0])
    } else {
        (fold_program(s.drop_last(), op) + program(s.last())).push(StepView::Combine { op })
    }
}

/// The program for what combining the named layers gives; none where they cannot be combined.
#[verifier::rlimit(50)]
pub fn boolean_op_program<S: Scalar>(page: &Page<S>, ids: &[LayerId], op: BoolOp) -> (r: Option<
    Vec<ShapeStep<S>>,
>)
    ensures
        match operands(page@.layers, ids@) {
            Some(p) => r matches Some(steps) && step_views(steps@) == fold_program(
                crate::grouping::picked(crate::tree::list_at(page@.layers, p), ids@),
                op,
            ),
            None => r is None,
        },
{
    if ids.len() < 2 {
        return None;
    }
    match crate::grouping::find_common_parent_list_ref(&page.layers, ids) {
        Some(list) => {
            let ghost s = views(list@);
            if !can_combine(list, ids) {
                return None;
            }
            let mut steps: Vec<ShapeStep<S>> = Vec::new();
            let mut n: usize = 0;
            let mut i: usize = 0;
            proof {
                reveal(Seq::filter);
                assert(s.take(0) =~= Seq::empty());
                assert(step_views(steps@) =~= Seq::empty());
            }
            while i < list.len()
                invariant
                    i <= list.len(),
                    s == views(list@),
                    n <= i,
                    n == crate::grouping::picked(s.take(i as int), ids@).len(),
                    all_fillable(crate::grouping::picked(s, ids@)),
                    step_views(steps@) == fold_program(
                        crate::grouping::picked(s.take(i as int), ids@),
                        op,
                    ),
                decreases list.len() - i,
            {
                let ghost done = crate::grouping::picked(s.take(i as int), ids@);
                proof {
                    reveal(Seq::filter);
                    assert(s.take(i + 1).drop_last() =~= s.take(i as int));
                    assert(s.take(i + 1).last() == s[i as int]);
                    assert(s[i as int] == list@[i as int]@);
                }
                if has_id(ids, list[i].id) {
                    let ghost v = s[i as int];
                    let ghost before = step_views(steps@);
                    proof {
                        assert(crate::grouping::picks::<S>(ids@)(v));
                        assert(crate::grouping::picked(s.take(i + 1), ids@) == done.push(v));
                        assert(done.push(v).drop_last() =~= done);
                        assert(crate::grouping::picked(s, ids@).contains(v)) by {
                            broadcast use vstd::seq_lib::group_filter_ensures;
                            assert(s.contains(v));
                        }
                        let k = choose|k: int|
                            0 <= k < crate::grouping::picked(s, ids@).len()
                                && crate::grouping::picked(s, ids@)[k] == v;
                        assert(fillable(crate::grouping::picked(s, ids@)[k]));
                    }
                    let pushed = flatten_layer(&list[i], &mut steps);
                    if n > 0 {
                        steps.push(ShapeStep::Combine { op });
                        assert(step_views(steps@) =~= (before + program(v)).push(
                            StepView::Combine { op },
                        ));
                    } else {
                        assert(before =~= Seq::empty());
                        assert(step_views(steps@) =~= program(v));
                    }
                    n += 1;
                } else {
                    assert(!crate::grouping::picks::<S>(ids@)(s[i as int]));
                }
                i += 1;
            }
            assert(s.take(i as int) =~= s);
            Some(steps)
        },
        None => None,
    }
}

/// The points of a polygon: its outer ring, then its holes one after the other.
pub open spec fn polygon_points_of<S>(p: PolygonView<S>, k: nat) -> Seq<Pos2<S>>
    decreases k,
{
    if k == 0 {
        p.exterior
    } else {
        polygon_points_of(p, (k - 1) as nat) + p.holes[k - 1]
    }
}

/// The points of several polygons.
pub open spec fn all_points<S>(s: Seq<PolygonView<S>>) -> Seq<Pos2<S>>
    decreases s.len(),
{
    if s.len() == 0 {
        Seq::empty()
    } else {
        all_points(s.drop_last()) + polygon_points_of(s.last(), s.last().holes.len())
    }
}

/// The smallest box around some points.
pub open spec fn point_box<S: Scalar>(points: Seq<Pos2<S>>) -> Rect<S>
    recommends
        points.len() > 0,
    decreases points.len(),
{
    let p = points.last();
    if points.len() <= 1 {
        Rect { min: p, max: p }
    } else {
        point_box(points.drop_last()).spec_union(Rect { min: p, max: p })
    }
}

/// Takes the points of a ring into a box.
fn grow_box<S: Scalar>(b: Option<Rect<S>>, ring: &Vec<Pos2<S>>, Ghost(before): Ghost<Seq<Pos2<S>>>) -> (r:
    Option<Rect<S>>)
    requires
        b is Some <==> before.len() > 0,
        b matches Some(x) ==> x == point_box(before),
    ensures
        r is Some <==> (before + ring@).len() > 0,
        r matches Some(x) ==> x == point_box(before + ring@),
{
    let mut r = b;
    let mut i: usize = 0;
    assert(before + ring@.take(0) =~= before);
    while i < ring.len()
        invariant
            i <= ring.len(),
            r is Some <==> (before + ring@.take(i as int)).len() > 0,
            r matches Some(x) ==> x == point_box(before + ring@.take(i as int)),
        decreases ring.len() - i,
    {
        let p = ring[i];
        assert((before + ring@.take(i + 1)).drop_last() =~= before + ring@.take(i as int));
        r = match r {
            Some(x) => Some(x.union(Rect { min: p, max: p })),
            None => Some(Rect { min: p, max: p }),
        };
        i += 1;
    }
    assert(ring@.take(i as int) =~= ring@);
    r
}

/// The smallest box around the points of some polygons.
pub fn polygons_bounds<S: Scalar>(polygons: &Vec<PathPolygon<S>>) -> (r: Option<Rect<S>>)
    ensures
        r is Some <==> all_points(polygon_views(polygons@)).len() > 0,
        r matches Some(b) ==> b == point_box(all_points(polygon_views(polygons@))),
{
    let ghost s = polygon_views(polygons@);
    let mut r: Option<Rect<S>> = None;
    let mut i: usize = 0;
    assert(s.take(0) =~= Seq::empty());
    while i < polygons.len()
        invariant
            i <= polygons.len(),
            s == polygon_views(polygons@),
            r is Some <==> all_points(s.take(i as int)).len() > 0,
            r matches Some(b) ==> b == point_box(all_points(s.take(i as int))),
        decreases polygons.len() - i,
    {
        let p = &polygons[i];
        let ghost done = all_points(s.take(i as int));
        assert(s.take(i + 1).drop_last() =~= s.take(i as int));
        assert(s.take(i + 1).last() == p@);
        r = grow_box(r, &p.exterior, Ghost(done));
        let mut k: usize = 0;
        assert(done + p@.exterior =~= done + polygon_points_of(p@, 0));
        while k < p.holes.len()
            invariant
                k <= p.holes.len(),
                r is Some <==> (done + polygon_points_of(p@, k as nat)).len() > 0,
                r matches Some(b) ==> b == point_box(done + polygon_points_of(p@, k as nat)),
            decreases p.holes.len() - k,
        {
            assert(p@.holes[k as int] == p.holes@[k as int]@);
            r = grow_box(r, &p.holes[k], Ghost(done + polygon_points_of(p@, k as nat)));
            k += 1;
            assert(done + polygon_points_of(p@, (k - 1) as nat) + p@.holes[k - 1] =~= done
                + polygon_points_of(p@, k as nat));
        }
        i += 1;
        assert(all_points(s.take(i as int)) =~= done + polygon_points_of(p@, p@.holes.len()));
    }
    assert(s.take(i as int) =~= s);
    r
}

/// A ring relative to `origin`.
pub open spec fn relative_ring<S: Scalar>(ring: Seq<Pos2<S>>, origin: Pos2<S>) -> Seq<Pos2<S>> {
    Seq::new(ring.len(), |i: int| ring[i].spec_minus(origin.spec_to_vec2()))
}

pub open spec fn relative_polygon<S: Scalar>(p: PolygonView<S>, origin: Pos2<S>) -> PolygonView<S> {
    PolygonView {
        exterior: relative_ring(p.exterior, origin),
        holes: Seq::new(p.holes.len(), |i: int| relative_ring(p.holes[i], origin)),
    }
}

pub open spec fn relative_polygons<S: Scalar>(s: Seq<PolygonView<S>>, origin: Pos2<S>) -> Seq<
    PolygonView<S>,
> {
    Seq::new(s.len(), |i: int| relative_polygon(s[i], origin))
}

fn shift_ring<S: Scalar>(ring: &Vec<Pos2<S>>, origin: Pos2<S>) -> (r: Vec<Pos2<S>>)
    ensures
        r@ == relative_ring(ring@, origin),
{
    let mut r: Vec<Pos2<S>> = Vec::new();
    let mut i: usize = 0;
    while i < ring.len()
        invariant
            i <= ring.len(),
            r.len() == i,
            forall|k: int| 0 <= k < i ==> #[trigger] r@[k] == relative_ring(ring@, origin)[k],
        decreases ring.len() - i,
    {
        r.push(ring[i].minus(origin.to_vec2()));
        i += 1;
    }
    assert(r@ =~= relative_ring(ring@, origin));
    r
}

fn shift_polygons<S: Scalar>(polygons: &Vec<PathPolygon<S>>, origin: Pos2<S>) -> (r: Vec<
    PathPolygon<S>,
>)
    ensures
        polygon_views(r@) == relative_polygons(polygon_views(polygons@), origin),
{
    let ghost s = polygon_views(polygons@);
    let mut r: Vec<PathPolygon<S>> = Vec::new();
    let mut i: usize = 0;
    while i < polygons.len()
        invariant
            i <= polygons.len(),
            s == polygon_views(polygons@),
            r.len() == i,
            forall|k: int| 0 <= k < i ==> (#[trigger] r@[k])@ == relative_polygons(s, origin)[k],
        decreases polygons.len() - i,
    {
        let p = &polygons[i];
        let mut holes: Vec<Vec<Pos2<S>>> = Vec::new();
        let mut k: usize = 0;
        while k < p.holes.len()
            invariant
                k <= p.holes.len(),
                holes.len() == k,
                forall|j: int|
                    0 <= j < k ==> (#[trigger] holes@[j])@ == relative_ring(p.holes@[j]@, origin),
            decreases p.holes.len() - k,
        {
            holes.push(shift_ring(&p.holes[k], origin));
            k += 1;
        }
        let q = PathPolygon { exterior: shift_ring(&p.exterior, origin), holes };
        assert(q@.holes =~= relative_polygon(p@, origin).holes);
        r.push(q);
        i += 1;
    }
    assert(polygon_views(r@) =~= relative_polygons(s, origin));
    r
}

/// A compound path over some polygons, framed by the box of their points.
pub open spec fn compound_layer<S: Scalar>(
    id: LayerId,
    name: Seq<char>,
    style: StyleView<S>,
    polygons: Seq<PolygonView<S>>,
) -> LayerView<S> {
    let b = point_box(all_points(polygons));
    LayerView {
        style,
        ..Layer::<S>::spec_new(
            id,
            name,
            Frame::spec_from_bounds(b),
            KindView::CompoundPath { polygons: relative_polygons(polygons, b.min) },
            Seq::empty(),
        )
    }
}

/// A compound path over some polygons, framed by the box of their points.
pub fn compound_path_layer<S: Scalar>(
    id: LayerId,
    name: &str,
    style: Style<S>,
    polygons: &Vec<PathPolygon<S>>,
) -> (r: Layer<S>)
    requires
        all_points(polygon_views(polygons@)).len() > 0,
    ensures
        r@ == compound_layer(id, name@, style@, polygon_views(polygons@)),
{
    let b = match polygons_bounds(polygons) {
        Some(b) => b,
        None => vstd::pervasive::unreached(),
    };
    let kind = LayerKind::CompoundPath { polygons: shift_polygons(polygons, b.min) };
    assert(views(kind.inside()) =~= Seq::empty());
    let mut layer = Layer::new(id, name, Frame::from_bounds(b), kind);
    layer.style = style;
    layer
}

/// Replaces sibling shapes with one compound path, which takes the place and the look of the
/// frontmost of them. `result` is the region that running [`boolean_op_program`] gave.
///
/// Returns the new layer's id, or `None` with the page as it was where the shapes cannot be
/// combined or the region has no points.
pub fn apply_boolean_op<S: Scalar>(
    page: &mut Page<S>,
    ids: &[LayerId],
    op: BoolOp,
    result: &Vec<PathPolygon<S>>,
    source: &mut IdSource,
) -> (r: Option<LayerId>)
    requires
        old(source).next < u64::MAX,
    ensures
        match operands(old(page)@.layers, ids@) {
            Some(p) if all_points(polygon_views(result@)).len() > 0 => {
                let list = crate::tree::list_at(old(page)@.layers, p);
                let picked = crate::grouping::picked(list, ids@);
                &&& r == Some(old(source).next)
                &&& final(source).next == old(source).next + 1
                &&& final(page)@ == old(page)@.with_layers(
                    crate::tree::with_list_at(
                        old(page)@.layers,
                        p,
                        crate::grouping::kept(list, ids@).insert(
                            crate::grouping::slot(list, ids@),
                            compound_layer(
                                old(source).next,
                                op.spec_label(),
                                picked.last().style,
                                polygon_views(result@),
                            ),
                        ),
                    ),
                )
            },
            _ => {
                &&& r is None
                &&& *final(source) == *old(source)
                &&& final(page)@ == old(page)@
            },
        },
{
    if ids.len() < 2 || polygons_bounds(result).is_none() {
        return None;
    }
    let ghost before = page@.layers;
    match find_common_parent_list(&mut page.layers, ids) {
        Some(parent) => {
            let ghost list = views(parent@);
            if !can_combine(parent, ids) {
                proof {
                    crate::tree::lemma_with_list_at(
                        before,
                        crate::tree::home(before, ids@)->0,
                        list,
                    );
                }
                return None;
            }
            let (removed, insert_at) = take_picked(parent, ids);
            assert(views(removed@).len() == ids@.len());
            assert(views(removed@).last() == removed@[removed@.len() - 1]@);
            let style = removed[removed.len() - 1].style.duplicate();
            let id = source.fresh();
            let layer = compound_path_layer(id, op.label(), style, result);
            parent.insert(insert_at, layer);
            Some(id)
        },
        None => None,
    }
}

/// A ring with its first point repeated at the end, unless it ends there already.
pub open spec fn closed_ring<S: Scalar>(points: Seq<Pos2<S>>) -> Seq<Pos2<S>> {
    let tolerance = S::spec_ratio(1, 1000000000);
    if points.len() > 0 && (tolerance.spec_lt(
        points.first().x.spec_minus(points.last().x).spec_magnitude(),
    ) || tolerance.spec_lt(points.first().y.spec_minus(points.last().y).spec_magnitude())) {
        points.push(points.first())
    } else {
        points
    }
}

/// A ring with its first point repeated at the end, unless it ends there already.
pub fn ring_from_points<S: Scalar>(points: &Vec<Pos2<S>>) -> (r: Vec<Pos2<S>>)
    ensures
        r@ == closed_ring(points@),
{
    let mut r = crate::style::copy_vec(points);
    if r.len() > 0 {
        let first = r[0];
        let last = r[r.len() - 1];
        let tolerance = S::ratio(1, 1000000000);
        if tolerance.is_lt(first.x.minus(last.x).magnitude()) || tolerance.is_lt(
            first.y.minus(last.y).magnitude(),
        ) {
            r.push(first);
        }
    }
    r
}

/// A ring without the repetition of its first point at the end.
pub open spec fn open_ring<S: Scalar>(points: Seq<Pos2<S>>) -> Seq<Pos2<S>> {
    let tolerance = S::spec_ratio(1, 1000000);
    if points.len() >= 2 && points.first().x.spec_minus(points.last().x).spec_magnitude().spec_lt(
        tolerance,
    ) && points.first().y.spec_minus(points.last().y).spec_magnitude().spec_lt(tolerance) {
        points.drop_last()
    } else {
        points
    }
}

/// A ring without the repetition of its first point at the end.
pub fn ring_to_points<S: Scalar>(ring: &Vec<Pos2<S>>) -> (r: Vec<Pos2<S>>)
    ensures
        r@ == open_ring(ring@),
{
    let mut r = crate::style::copy_vec(ring);
    if r.len() >= 2 {
        let first = r[0];
        let last = r[r.len() - 1];
        let tolerance = S::ratio(1, 1000000);
        if first.x.minus(last.x).magnitude().is_lt(tolerance) && first.y.minus(
            last.y,
        ).magnitude().is_lt(tolerance) {
            let gone = r.pop();
            assert(r@ =~= ring@.drop_last());
        }
    }
    r
}

/// A ring whose ends are apart is opened again after it was closed; the distance of its first
/// point from itself has to count as nothing.
pub proof fn law_closed_rings_open_again<S: Scalar>(points: Seq<Pos2<S>>)
    requires
        points.len() > 0,
        closed_ring(points) != points,
        points[0].x.spec_minus(points[0].x).spec_magnitude().spec_lt(S::spec_ratio(1, 1000000)),
        points[0].y.spec_minus(points[0].y).spec_magnitude().spec_lt(S::spec_ratio(1, 1000000)),
    ensures
        open_ring(closed_ring(points)) == points,
{
    assert(points.push(points.first()).drop_last() =~= points);
}

/// Two regions added without clipping: the polygons of the lower one, then those of the upper.
pub fn joined_regions<S: Scalar>(lower: Vec<PathPolygon<S>>, upper: Vec<PathPolygon<S>>) -> (r: Vec<
    PathPolygon<S>,
>)
    ensures
        polygon_views(r@) == polygon_views(lower@) + polygon_views(upper@),
{
    let mut r = lower;
    let mut rest = upper;
    let ghost both = r@ + rest@;
    r.append(&mut rest);
    assert(r@ =~= both);
    assert(polygon_views(r@) =~= polygon_views(lower@) + polygon_views(upper@));
    r
}

} // verus!
