//! Aligning, distributing and tidying sibling layers.
//!
//! Every operation goes by a layer's turned footprint and only moves it.
use vstd::prelude::*;

use crate::document::Page;
use crate::geometry::{Pos2, Rect, Vec2};
use crate::grouping::{find_common_parent_list, has_id};
use crate::model::{group_views, views, Layer, LayerId, LayerKind, LayerView};
use crate::order::{sort_stable, stable_sorted, SortKey};
use crate::scalar::Scalar;

verus! {

broadcast use group_views;

#[derive(Clone, Copy, Debug, PartialEq, Eq, Structural)]
pub enum AlignEdge {
    Left,
    HCenter,
    Right,
    Top,
    VCenter,
    Bottom,
}

#[derive(Clone, Copy, Debug, PartialEq, Eq, Structural)]
pub enum DistributeAxis {
    Horizontal,
    Vertical,
}

/// How far a box has to move for its edge to meet the same edge of `target`.
pub open spec fn align_delta<S: Scalar>(b: Rect<S>, target: Rect<S>, edge: AlignEdge) -> Vec2<S> {
    let zero = S::spec_ratio(0, 1);
    match edge {
        AlignEdge::Left => Vec2 { x: target.min.x.spec_minus(b.min.x), y: zero },
        AlignEdge::HCenter => Vec2 {
            x: target.spec_center().x.spec_minus(b.spec_center().x),
            y: zero,
        },
        AlignEdge::Right => Vec2 { x: target.max.x.spec_minus(b.max.x), y: zero },
        AlignEdge::Top => Vec2 { x: zero, y: target.min.y.spec_minus(b.min.y) },
        AlignEdge::VCenter => Vec2 {
            x: zero,
            y: target.spec_center().y.spec_minus(b.spec_center().y),
        },
        AlignEdge::Bottom => Vec2 { x: zero, y: target.max.y.spec_minus(b.max.y) },
    }
}

/// How far a box has to move for its edge to meet the same edge of `target`.
fn delta_to<S: Scalar>(b: Rect<S>, target: Rect<S>, edge: AlignEdge) -> (r: Vec2<S>)
    ensures
        r == align_delta(b, target, edge),
{
    let zero = S::ratio(0, 1);
    match edge {
        AlignEdge::Left => Vec2 { x: target.min.x.minus(b.min.x), y: zero },
        AlignEdge::HCenter => Vec2 { x: target.center().x.minus(b.center().x), y: zero },
        AlignEdge::Right => Vec2 { x: target.max.x.minus(b.max.x), y: zero },
        AlignEdge::Top => Vec2 { x: zero, y: target.min.y.minus(b.min.y) },
        AlignEdge::VCenter => Vec2 { x: zero, y: target.center().y.minus(b.center().y) },
        AlignEdge::Bottom => Vec2 { x: zero, y: target.max.y.minus(b.max.y) },
    }
}

/// The list with each layer that `ids` names aligned to `target`.
pub open spec fn aligned_list<S: Scalar>(
    s: Seq<LayerView<S>>,
    ids: Seq<LayerId>,
    edge: AlignEdge,
    target: Rect<S>,
) -> Seq<LayerView<S>> {
    Seq::new(
        s.len(),
        |i: int|
            if ids.contains(s[i].id) {
                s[i].with_frame(
                    s[i].frame.spec_moved(
                        align_delta(s[i].frame.spec_rotated_bounds(), target, edge),
                    ),
                )
            } else {
                s[i]
            },
    )
}

/// What alignment goes by: the given box, or the one around the named layers; nothing where they
/// are fewer than two.
pub open spec fn align_target<S: Scalar>(
    s: Seq<LayerView<S>>,
    ids: Seq<LayerId>,
    align_to: Option<Rect<S>>,
) -> Option<Rect<S>> {
    if crate::grouping::picked(s, ids).len() < 2 {
        None
    } else {
        match align_to {
            Some(t) => Some(t),
            None => Some(crate::grouping::union_bounds(crate::grouping::picked(s, ids))),
        }
    }
}

/// The layers after an alignment.
pub open spec fn aligned<S: Scalar>(
    s: Seq<LayerView<S>>,
    ids: Seq<LayerId>,
    edge: AlignEdge,
    align_to: Option<Rect<S>>,
) -> Seq<LayerView<S>> {
    match (if ids.len() < 2 {
        None
    } else {
        crate::tree::home(s, ids)
    }) {
        Some(p) => {
            let list = crate::tree::list_at(s, p);
            match align_target(list, ids, align_to) {
                Some(t) => crate::tree::with_list_at(s, p, aligned_list(list, ids, edge, t)),
                None => s,
            }
        },
        None => s,
    }
}

/// How many layers of the list `ids` names, and the box around them.
fn picked_bounds<S: Scalar>(layers: &Vec<Layer<S>>, ids: &[LayerId]) -> (r: (
    usize,
    Option<Rect<S>>,
))
    ensures
        r.0 == crate::grouping::picked(views(layers@), ids@).len(),
        r.1 is Some <==> r.0 > 0,
        r.1 matches Some(b) ==> b == crate::grouping::union_bounds(
            crate::grouping::picked(views(layers@), ids@),
        ),
{
    let ghost s = views(layers@);
    let mut n: usize = 0;
    let mut r: Option<Rect<S>> = None;
    let mut i: usize = 0;
    proof {
        reveal(Seq::filter);
        assert(s.take(0) =~= Seq::empty());
    }
    while i < layers.len()
        invariant
            i <= layers.len(),
            n <= i,
            s == views(layers@),
            n == crate::grouping::picked(s.take(i as int), ids@).len(),
            r is Some <==> n > 0,
            r matches Some(b) ==> b == crate::grouping::union_bounds(
                crate::grouping::picked(s.take(i as int), ids@),
            ),
        decreases layers.len() - i,
    {
        let ghost done = crate::grouping::picked(s.take(i as int), ids@);
        proof {
            reveal(Seq::filter);
            assert(s.take(i + 1).drop_last() =~= s.take(i as int));
            assert(s.take(i + 1).last() == s[i as int]);
            assert(s[i as int] == layers@[i as int]@);
        }
        if has_id(ids, layers[i].id) {
            let b = layers[i].frame.rotated_bounds();
            proof {
                assert(crate::grouping::picks::<S>(ids@)(s[i as int]));
                assert(done.push(s[i as int]).drop_last() =~= done);
            }
            r = match r {
                Some(rest) => Some(rest.union(b)),
                None => Some(b),
            };
            n += 1;
        } else {
            assert(!crate::grouping::picks::<S>(ids@)(s[i as int]));
        }
        i += 1;
    }
    assert(s.take(i as int) =~= s);
    (n, r)
}

/// Aligns sibling layers to an edge or center of `align_to`, given in their own space, or of the
/// box around them.
///
/// Nothing happens without a common parent, or where the ids name fewer than two layers.
pub fn align<S: Scalar>(
    page: &mut Page<S>,
    ids: &[LayerId],
    edge: AlignEdge,
    align_to: Option<Rect<S>>,
)
    ensures
        final(page)@ == old(page)@.with_layers(aligned(old(page)@.layers, ids@, edge, align_to)),
{
    if ids.len() < 2 {
        return;
    }
    let ghost before = page@.layers;
    match find_common_parent_list(&mut page.layers, ids) {
        Some(list) => {
            let ghost s = views(list@);
            let (n, bounds) = picked_bounds(list, ids);
            if n < 2 {
                proof {
                    crate::tree::lemma_with_list_at(
                        before,
                        crate::tree::home(before, ids@)->0,
                        s,
                    );
                }
                return;
            }
            let target = match (align_to, bounds) {
                (Some(t), _) => t,
                (None, Some(b)) => b,
                (None, None) => vstd::pervasive::unreached(),
            };
            let mut i: usize = 0;
            while i < list.len()
                invariant
                    i <= list.len(),
                    list.len() == s.len(),
                    forall|j: int|
                        0 <= j < i ==> #[trigger] views(list@)[j] == aligned_list(
                            s,
                            ids@,
                            edge,
                            target,
                        )[j],
                    forall|j: int| i <= j < s.len() ==> #[trigger] views(list@)[j] == s[j],
                decreases list.len() - i,
            {
                let ghost now = views(list@);
                assert(now[i as int] == list@[i as int]@);
                let layer = &mut list[i];
                if has_id(ids, layer.id) {
                    let b = layer.frame.rotated_bounds();
                    layer.frame = layer.frame.moved(delta_to(b, target, edge));
                }
                assert(views(list@) == now.update(
                    i as int,
                    aligned_list(s, ids@, edge, target)[i as int],
                ));
                i += 1;
            }
            assert(views(list@) =~= aligned_list(s, ids@, edge, target));
        },
        None => {},
    }
}

/// The nearest artboard around the first layer with the given id, `outer` being the one around
/// the list; the outer option is empty where there is no such layer.
pub open spec fn artboard_around<S>(
    s: Seq<LayerView<S>>,
    id: LayerId,
    outer: Option<LayerId>,
) -> Option<Option<LayerId>>
    decreases s,
{
    if s.len() == 0 {
        None
    } else if s[0].id == id {
        Some(outer)
    } else {
        let inner = if s[0].kind is Artboard {
            Some(s[0].id)
        } else {
            outer
        };
        match artboard_around(s[0].children, id, inner) {
            Some(found) => Some(found),
            None => artboard_around(s.drop_first(), id, outer),
        }
    }
}

/// The nearest artboard around a layer.
pub fn nearest_ancestor_artboard<S: Scalar>(
    layers: &Vec<Layer<S>>,
    id: LayerId,
    current: Option<LayerId>,
) -> (r: Option<Option<LayerId>>)
    ensures
        r == artboard_around(views(layers@), id, current),
    decreases layers@,
{
    let ghost s = views(layers@);
    assert(s.skip(0) =~= s);
    let mut i: usize = 0;
    while i < layers.len()
        invariant
            i <= layers.len(),
            s == views(layers@),
            artboard_around(s, id, current) == artboard_around(s.skip(i as int), id, current),
        decreases layers.len() - i,
    {
        let layer = &layers[i];
        let ghost rest = s.skip(i as int);
        assert(rest[0] == layer@);
        assert(rest.drop_first() =~= s.skip(i + 1));
        if layer.id == id {
            return Some(current);
        }
        let next = match &layer.kind {
            LayerKind::Artboard { .. } => Some(layer.id),
            _ => current,
        };
        match layer.children() {
            Some(children) => {
                let found = nearest_ancestor_artboard(children, id, next);
                if found.is_some() {
                    return found;
                }
            },
            None => {
                assert(artboard_around(layer@.children, id, next) is None);
            },
        }
        i += 1;
    }
    None
}

/// The box of the nearest artboard around a layer, in the space of the layer's siblings.
pub open spec fn artboard_box<S: Scalar>(s: Seq<LayerView<S>>, id: LayerId) -> Option<Rect<S>> {
    match artboard_around(s, id, None) {
        Some(Some(a)) => match (
            crate::tree::find(s, a),
            crate::document::offset_of(s, a, Vec2::spec_zero()),
            crate::document::offset_of(s, id, Vec2::spec_zero()),
        ) {
            (Some(v), Some(outer), Some(inner)) => Some(
                v.frame.spec_bounds().spec_translate(outer).spec_translate(inner.spec_negated()),
            ),
            _ => None,
        },
        _ => None,
    }
}

/// The box of the nearest artboard around a layer, in the space of the layer's siblings; none
/// where the layer does not exist or is in no artboard.
pub fn artboard_bounds_in_parent_space<S: Scalar>(page: &Page<S>, id: LayerId) -> (r: Option<
    Rect<S>,
>)
    ensures
        r == artboard_box(page@.layers, id),
{
    match nearest_ancestor_artboard(&page.layers, id, None) {
        Some(Some(a)) => match (page.find(a), page.absolute_offset(a), page.absolute_offset(id)) {
            (Some(artboard), Some(outer), Some(inner)) => Some(
                artboard.frame.bounds().translate(outer).translate(inner.negated()),
            ),
            _ => None,
        },
        _ => None,
    }
}

/// The indices of the first `k` layers that `ids` names.
pub open spec fn picked_indices<S>(s: Seq<LayerView<S>>, ids: Seq<LayerId>, k: nat) -> Seq<usize>
    decreases k,
{
    if k == 0 {
        Seq::empty()
    } else {
        let rest = picked_indices(s, ids, (k - 1) as nat);
        if ids.contains(s[k - 1].id) {
            rest.push((k - 1) as usize)
        } else {
            rest
        }
    }
}

/// The indices of the layers that `ids` names.
fn indices_of<S: Scalar>(layers: &Vec<Layer<S>>, ids: &[LayerId]) -> (r: Vec<usize>)
    ensures
        r@ == picked_indices(views(layers@), ids@, layers@.len()),
        forall|i: int| 0 <= i < r@.len() ==> #[trigger] r@[i] < layers@.len(),
{
    let ghost s = views(layers@);
    let mut r: Vec<usize> = Vec::new();
    let mut i: usize = 0;
    while i < layers.len()
        invariant
            i <= layers.len(),
            s == views(layers@),
            r@ == picked_indices(s, ids@, i as nat),
            forall|k: int| 0 <= k < r@.len() ==> #[trigger] r@[k] < i,
        decreases layers.len() - i,
    {
        assert(s[i as int] == layers@[i as int]@);
        if has_id(ids, layers[i].id) {
            r.push(i);
        }
        i += 1;
    }
    r
}

pub open spec fn low<S>(b: Rect<S>, axis: DistributeAxis) -> S {
    match axis {
        DistributeAxis::Horizontal => b.min.x,
        DistributeAxis::Vertical => b.min.y,
    }
}

pub open spec fn high<S>(b: Rect<S>, axis: DistributeAxis) -> S {
    match axis {
        DistributeAxis::Horizontal => b.max.x,
        DistributeAxis::Vertical => b.max.y,
    }
}

pub open spec fn extent<S: Scalar>(b: Rect<S>, axis: DistributeAxis) -> S {
    match axis {
        DistributeAxis::Horizontal => b.spec_width(),
        DistributeAxis::Vertical => b.spec_height(),
    }
}

/// A layer moved along the axis.
pub open spec fn slid<S: Scalar>(v: LayerView<S>, by: S, axis: DistributeAxis) -> LayerView<S> {
    let p = v.frame.pos;
    v.with_frame(
        crate::model::Frame {
            pos: match axis {
                DistributeAxis::Horizontal => Pos2 { x: p.x.spec_plus(by), y: p.y },
                DistributeAxis::Vertical => Pos2 { x: p.x, y: p.y.spec_plus(by) },
            },
            ..v.frame
        },
    )
}

/// What layers are sorted by along an axis.
pub open spec fn axis_keys<S: Scalar>(s: Seq<LayerView<S>>, axis: DistributeAxis) -> Seq<
    SortKey<S>,
> {
    Seq::new(
        s.len(),
        |i: int|
            SortKey { first: low(s[i].frame.spec_rotated_bounds(), axis), next: None::<S> },
    )
}

/// The extents of the first `k` layers of `order` together.
pub open spec fn total_extent<S: Scalar>(
    s: Seq<LayerView<S>>,
    order: Seq<usize>,
    axis: DistributeAxis,
    k: nat,
) -> S
    decreases k,
{
    if k == 0 {
        S::spec_ratio(0, 1)
    } else {
        total_extent(s, order, axis, (k - 1) as nat).spec_plus(
            extent(s[order[k - 1] as int].frame.spec_rotated_bounds(), axis),
        )
    }
}

/// The gap that parts the layers of `order` evenly between its ends.
pub open spec fn even_gap<S: Scalar>(
    s: Seq<LayerView<S>>,
    order: Seq<usize>,
    axis: DistributeAxis,
) -> S {
    let first = s[order[0] as int].frame.spec_rotated_bounds();
    let last = s[order.last() as int].frame.spec_rotated_bounds();
    high(last, axis).spec_minus(low(first, axis)).spec_minus(
        total_extent(s, order, axis, order.len()),
    ).spec_over(S::spec_ratio(order.len() as int, 1).spec_minus(S::spec_ratio(1, 1)))
}

/// The list after the layers of `order` from its second to its `k`-th were put in place one after
/// the other, and where the next one starts.
pub open spec fn spread<S: Scalar>(
    s: Seq<LayerView<S>>,
    order: Seq<usize>,
    axis: DistributeAxis,
    gap: S,
    k: nat,
) -> (Seq<LayerView<S>>, S)
    decreases k,
{
    if k <= 1 {
        (s, high(s[order[0] as int].frame.spec_rotated_bounds(), axis).spec_plus(gap))
    } else {
        let (t, cursor) = spread(s, order, axis, gap, (k - 1) as nat);
        let i = order[k - 1] as int;
        let b = t[i].frame.spec_rotated_bounds();
        (
            t.update(i, slid(t[i], cursor.spec_minus(low(b, axis)), axis)),
            cursor.spec_plus(extent(b, axis).spec_plus(gap)),
        )
    }
}

/// The list after a distribution of the layers that `ids` names.
pub open spec fn distributed_list<S: Scalar>(
    s: Seq<LayerView<S>>,
    ids: Seq<LayerId>,
    axis: DistributeAxis,
) -> Seq<LayerView<S>> {
    let order = stable_sorted(picked_indices(s, ids, s.len()), axis_keys(s, axis));
    if order.len() < 3 {
        s
    } else {
        spread(s, order, axis, even_gap(s, order, axis), (order.len() - 1) as nat).0
    }
}

/// The layers after a distribution.
pub open spec fn distributed<S: Scalar>(
    s: Seq<LayerView<S>>,
    ids: Seq<LayerId>,
    axis: DistributeAxis,
) -> Seq<LayerView<S>> {
    match (if ids.len() < 3 {
        None
    } else {
        crate::tree::home(s, ids)
    }) {
        Some(p) => crate::tree::with_list_at(
            s,
            p,
            distributed_list(crate::tree::list_at(s, p), ids, axis),
        ),
        None => s,
    }
}

fn low_of<S: Scalar>(b: Rect<S>, axis: DistributeAxis) -> (r: S)
    ensures
        r == low(b, axis),
{
    match axis {
        DistributeAxis::Horizontal => b.min.x,
        DistributeAxis::Vertical => b.min.y,
    }
}

fn high_of<S: Scalar>(b: Rect<S>, axis: DistributeAxis) -> (r: S)
    ensures
        r == high(b, axis),
{
    match axis {
        DistributeAxis::Horizontal => b.max.x,
        DistributeAxis::Vertical => b.max.y,
    }
}

fn extent_of<S: Scalar>(b: Rect<S>, axis: DistributeAxis) -> (r: S)
    ensures
        r == extent(b, axis),
{
    match axis {
        DistributeAxis::Horizontal => b.width(),
        DistributeAxis::Vertical => b.height(),
    }
}

/// Moves a layer along the axis.
fn slide<S: Scalar>(layer: &mut Layer<S>, by: S, axis: DistributeAxis)
    ensures
        final(layer)@ == slid(old(layer)@, by, axis),
{
    let p = layer.frame.pos;
    layer.frame.pos = match axis {
        DistributeAxis::Horizontal => Pos2 { x: p.x.plus(by), y: p.y },
        DistributeAxis::Vertical => Pos2 { x: p.x, y: p.y.plus(by) },
    };
}

/// The keys of all layers of a list.
fn keys_along<S: Scalar>(layers: &Vec<Layer<S>>, axis: DistributeAxis) -> (r: Vec<SortKey<S>>)
    ensures
        r@ == axis_keys(views(layers@), axis),
{
    let ghost s = views(layers@);
    let mut r: Vec<SortKey<S>> = Vec::new();
    let mut i: usize = 0;
    while i < layers.len()
        invariant
            i <= layers.len(),
            s == views(layers@),
            r.len() == i,
            forall|k: int| 0 <= k < i ==> #[trigger] r@[k] == axis_keys(s, axis)[k],
        decreases layers.len() - i,
    {
        assert(s[i as int] == layers@[i as int]@);
        r.push(SortKey { first: low_of(layers[i].frame.rotated_bounds(), axis), next: None });
        i += 1;
    }
    assert(r@ =~= axis_keys(s, axis));
    r
}

/// Spaces the layers that `ids` names evenly within a list.
fn distribute_list<S: Scalar>(list: &mut Vec<Layer<S>>, ids: &[LayerId], axis: DistributeAxis)
    ensures
        views(final(list)@) == distributed_list(views(old(list)@), ids@, axis),
{
    let ghost s = views(list@);
    let order = sort_stable(&indices_of(list, ids), &keys_along(list, axis));
    let n = order.len();
    if n < 3 {
        return;
    }
    let first = list[order[0]].frame.rotated_bounds();
    let last = list[order[n - 1]].frame.rotated_bounds();
    assert(s[order@[0] as int] == list@[order@[0] as int]@);
    assert(s[order@[n - 1] as int] == list@[order@[n - 1] as int]@);
    let mut sum = S::ratio(0, 1);
    let mut k: usize = 0;
    while k < n
        invariant
            k <= n,
            n == order.len(),
            views(list@) == s,
            list.len() == s.len(),
            forall|i: int| 0 <= i < order@.len() ==> #[trigger] order@[i] < s.len(),
            sum == total_extent(s, order@, axis, k as nat),
        decreases n - k,
    {
        assert(s[order@[k as int] as int] == list@[order@[k as int] as int]@);
        sum = sum.plus(extent_of(list[order[k]].frame.rotated_bounds(), axis));
        k += 1;
    }
    let gap = high_of(last, axis).minus(low_of(first, axis)).minus(sum).over(
        S::of_count(n as u64).minus(S::ratio(1, 1)),
    );
    assert(gap == even_gap(s, order@, axis));
    let mut cursor = high_of(first, axis).plus(gap);
    let mut m: usize = 1;
    while m < n - 1
        invariant
            1 <= m <= n - 1,
            n == order.len(),
            list.len() == s.len(),
            forall|i: int| 0 <= i < order@.len() ==> #[trigger] order@[i] < s.len(),
            spread(s, order@, axis, gap, m as nat) == (views(list@), cursor),
        decreases n - 1 - m,
    {
        let i = order[m];
        assert(views(list@)[i as int] == list@[i as int]@);
        let layer = &mut list[i];
        let b = layer.frame.rotated_bounds();
        slide(layer, cursor.minus(low_of(b, axis)), axis);
        cursor = cursor.plus(extent_of(b, axis).plus(gap));
        m += 1;
    }
}

/// Spaces sibling layers evenly along an axis; the first and the last along it stay.
///
/// Nothing happens with fewer than three ids or layers, or without a common parent.
pub fn distribute<S: Scalar>(page: &mut Page<S>, ids: &[LayerId], axis: DistributeAxis)
    ensures
        final(page)@ == old(page)@.with_layers(distributed(old(page)@.layers, ids@, axis)),
{
    if ids.len() < 3 {
        return;
    }
    match find_common_parent_list(&mut page.layers, ids) {
        Some(list) => {
            distribute_list(list, ids, axis);
        },
        None => {},
    }
}

/// The first number from `c` on whose square is at least `n`.
pub open spec fn root_from(n: int, c: int) -> int
    decreases n - c,
{
    if c >= n || c * c >= n {
        c
    } else {
        root_from(n, c + 1)
    }
}

/// The square root of `n`, rounded up.
pub fn column_count(n: usize) -> (c: usize)
    requires
        n >= 1,
    ensures
        c == root_from(n as int, 1),
        1 <= c <= n,
{
    let mut c: usize = 1;
    while c < n && c < (n - 1) / c + 1
        invariant
            1 <= c <= n,
            root_from(n as int, 1) == root_from(n as int, c as int),
        decreases n - c,
    {
        assert(c * c < n) by (nonlinear_arith)
            requires
                c < (n - 1) / (c as int) + 1,
                c >= 1,
                n >= 1,
        ;
        c += 1;
    }
    if c < n {
        assert(c * c >= n) by (nonlinear_arith)
            requires
                c >= (n - 1) / (c as int) + 1,
                c >= 1,
                n >= 1,
        ;
    }
    c
}

/// The number of columns is the square root rounded up: its square suffices, and that of no
/// smaller number does.
pub proof fn law_columns_are_the_root_rounded_up(n: int)
    requires
        n >= 1,
    ensures
        root_from(n, 1) >= 1,
        root_from(n, 1) * root_from(n, 1) >= n,
        forall|c: int| 1 <= c < root_from(n, 1) ==> #[trigger] (c * c) < n,
{
    lemma_root_from(n, 1);
}

proof fn lemma_root_from(n: int, c: int)
    requires
        n >= 1,
        c >= 1,
    ensures
        root_from(n, c) >= c,
        root_from(n, c) * root_from(n, c) >= n,
        forall|d: int| c <= d < root_from(n, c) ==> #[trigger] (d * d) < n,
    decreases n - c,
{
    if c >= n {
        assert(c * c >= n) by (nonlinear_arith)
            requires
                c >= n,
                n >= 1,
        ;
    } else if c * c < n {
        lemma_root_from(n, c + 1);
    }
}

/// What layers are sorted by in reading order.
pub open spec fn reading_keys<S: Scalar>(s: Seq<LayerView<S>>) -> Seq<SortKey<S>> {
    Seq::new(
        s.len(),
        |i: int|
            SortKey {
                first: s[i].frame.spec_rotated_bounds().min.y,
                next: Some(s[i].frame.spec_rotated_bounds().min.x),
            },
    )
}

/// The least `x` and the least `y` of the first `k` layers of `order`.
pub open spec fn top_left<S: Scalar>(s: Seq<LayerView<S>>, order: Seq<usize>, k: nat) -> Pos2<S>
    recommends
        k > 0,
    decreases k,
{
    let p = s[order[k - 1] as int].frame.spec_rotated_bounds().min;
    if k <= 1 {
        p
    } else {
        let rest = top_left(s, order, (k - 1) as nat);
        Pos2 { x: rest.x.spec_lesser(p.x), y: rest.y.spec_lesser(p.y) }
    }
}

/// The widest among the first `k` layers of `order` that stand in column `c` of `cols`.
pub open spec fn column_width<S: Scalar>(
    s: Seq<LayerView<S>>,
    order: Seq<usize>,
    cols: int,
    c: int,
    k: nat,
) -> S
    decreases k,
{
    if k == 0 {
        S::spec_ratio(0, 1)
    } else {
        let rest = column_width(s, order, cols, c, (k - 1) as nat);
        if (k - 1) % cols == c {
            rest.spec_greater(s[order[k - 1] as int].frame.spec_rotated_bounds().spec_width())
        } else {
            rest
        }
    }
}

/// The tallest among the first `k` layers of `order` that stand in row `r` of a grid of `cols` columns.
pub open spec fn row_height<S: Scalar>(
    s: Seq<LayerView<S>>,
    order: Seq<usize>,
    cols: int,
    r: int,
    k: nat,
) -> S
    decreases k,
{
    if k == 0 {
        S::spec_ratio(0, 1)
    } else {
        let rest = row_height(s, order, cols, r, (k - 1) as nat);
        if (k - 1) / cols == r {
            rest.spec_greater(s[order[k - 1] as int].frame.spec_rotated_bounds().spec_height())
        } else {
            rest
        }
    }
}

/// Where column `c` starts.
pub open spec fn column_x<S: Scalar>(
    s: Seq<LayerView<S>>,
    order: Seq<usize>,
    cols: int,
    spacing: S,
    c: nat,
) -> S
    decreases c,
{
    if c == 0 {
        top_left(s, order, order.len()).x
    } else {
        column_x(s, order, cols, spacing, (c - 1) as nat).spec_plus(
            column_width(s, order, cols, c - 1, order.len()).spec_plus(spacing),
        )
    }
}

/// Where row `r` starts.
pub open spec fn row_y<S: Scalar>(
    s: Seq<LayerView<S>>,
    order: Seq<usize>,
    cols: int,
    spacing: S,
    r: nat,
) -> S
    decreases r,
{
    if r == 0 {
        top_left(s, order, order.len()).y
    } else {
        row_y(s, order, cols, spacing, (r - 1) as nat).spec_plus(
            row_height(s, order, cols, r - 1, order.len()).spec_plus(spacing),
        )
    }
}

/// The list after the first `k` layers of `order` were put into their cells.
pub open spec fn placed<S: Scalar>(
    s: Seq<LayerView<S>>,
    order: Seq<usize>,
    cols: int,
    spacing: S,
    k: nat,
) -> Seq<LayerView<S>>
    decreases k,
{
    if k == 0 {
        s
    } else {
        let t = placed(s, order, cols, spacing, (k - 1) as nat);
        let i = order[k - 1] as int;
        let cell = Pos2 {
            x: column_x(s, order, cols, spacing, ((k - 1) % cols) as nat),
            y: row_y(s, order, cols, spacing, ((k - 1) / cols) as nat),
        };
        t.update(
            i,
            t[i].with_frame(
                t[i].frame.spec_moved(cell.spec_from(t[i].frame.spec_rotated_bounds().min)),
            ),
        )
    }
}

/// The list after the layers that `ids` names were tidied into a grid.
pub open spec fn tidied_list<S: Scalar>(
    s: Seq<LayerView<S>>,
    ids: Seq<LayerId>,
    spacing: S,
) -> Seq<LayerView<S>> {
    let order = stable_sorted(picked_indices(s, ids, s.len()), reading_keys(s));
    if order.len() < 2 {
        s
    } else {
        placed(s, order, root_from(order.len() as int, 1), spacing, order.len())
    }
}

/// The layers after tidying.
pub open spec fn tidied<S: Scalar>(s: Seq<LayerView<S>>, ids: Seq<LayerId>, spacing: S) -> Seq<
    LayerView<S>,
> {
    match (if ids.len() < 2 {
        None
    } else {
        crate::tree::home(s, ids)
    }) {
        Some(p) => crate::tree::with_list_at(
            s,
            p,
            tidied_list(crate::tree::list_at(s, p), ids, spacing),
        ),
        None => s,
    }
}

/// The keys of all layers of a list in reading order.
fn keys_for_reading<S: Scalar>(layers: &Vec<Layer<S>>) -> (r: Vec<SortKey<S>>)
    ensures
        r@ == reading_keys(views(layers@)),
{
    let ghost s = views(layers@);
    let mut r: Vec<SortKey<S>> = Vec::new();
    let mut i: usize = 0;
    while i < layers.len()
        invariant
            i <= layers.len(),
            s == views(layers@),
            r.len() == i,
            forall|k: int| 0 <= k < i ==> #[trigger] r@[k] == reading_keys(s)[k],
        decreases layers.len() - i,
    {
        assert(s[i as int] == layers@[i as int]@);
        let b = layers[i].frame.rotated_bounds();
        r.push(SortKey { first: b.min.y, next: Some(b.min.x) });
        i += 1;
    }
    assert(r@ =~= reading_keys(s));
    r
}

/// The starts of the columns and of the rows.
#[verifier::rlimit(50)]
fn grid_lines<S: Scalar>(
    list: &Vec<Layer<S>>,
    order: &Vec<usize>,
    cols: usize,
    rows: usize,
    spacing: S,
) -> (r: (Vec<S>, Vec<S>))
    requires
        order.len() > 0,
        cols > 0,
        rows > 0,
        order.len() <= rows * cols,
        forall|i: int| 0 <= i < order@.len() ==> #[trigger] order@[i] < list@.len(),
    ensures
        r.0@.len() == cols,
        r.1@.len() == rows,
        forall|c: int|
            0 <= c < cols ==> #[trigger] r.0@[c] == column_x(
                views(list@),
                order@,
                cols as int,
                spacing,
                c as nat,
            ),
        forall|q: int|
            0 <= q < rows ==> #[trigger] r.1@[q] == row_y(
                views(list@),
                order@,
                cols as int,
                spacing,
                q as nat,
            ),
{
    let ghost s = views(list@);
    let n = order.len();
    let mut widths: Vec<S> = Vec::new();
    let mut c: usize = 0;
    while c < cols
        invariant
            c <= cols,
            widths.len() == c,
            forall|j: int|
                0 <= j < c ==> #[trigger] widths@[j] == column_width(s, order@, cols as int, j, 0),
        decreases cols - c,
    {
        widths.push(S::ratio(0, 1));
        c += 1;
    }
    let mut heights: Vec<S> = Vec::new();
    let mut q: usize = 0;
    while q < rows
        invariant
            q <= rows,
            heights.len() == q,
            forall|j: int|
                0 <= j < q ==> #[trigger] heights@[j] == row_height(s, order@, cols as int, j, 0),
        decreases rows - q,
    {
        heights.push(S::ratio(0, 1));
        q += 1;
    }
    let mut origin = list[order[0]].frame.rotated_bounds().min;
    assert(s[order@[0] as int] == list@[order@[0] as int]@);
    let mut k: usize = 0;
    while k < n
        invariant
            k <= n,
            n == order.len(),
            n > 0,
            cols > 0,
            n <= rows * cols,
            s == views(list@),
            widths.len() == cols,
            heights.len() == rows,
            forall|i: int| 0 <= i < order@.len() ==> #[trigger] order@[i] < list@.len(),
            k == 0 ==> origin == s[order@[0] as int].frame.spec_rotated_bounds().min,
            k > 0 ==> origin == top_left(s, order@, k as nat),
            forall|j: int|
                0 <= j < cols ==> #[trigger] widths@[j] == column_width(
                    s,
                    order@,
                    cols as int,
                    j,
                    k as nat,
                ),
            forall|j: int|
                0 <= j < rows ==> #[trigger] heights@[j] == row_height(
                    s,
                    order@,
                    cols as int,
                    j,
                    k as nat,
                ),
        decreases n - k,
    {
        assert(s[order@[k as int] as int] == list@[order@[k as int] as int]@);
        let b = list[order[k]].frame.rotated_bounds();
        if k > 0 {
            origin = Pos2 { x: origin.x.lesser(b.min.x), y: origin.y.lesser(b.min.y) };
        }
        let col = k % cols;
        let row = k / cols;
        assert(row < rows) by (nonlinear_arith)
            requires
                k < n,
                n <= rows * cols,
                cols > 0,
                row == k / cols,
        ;
        widths.set(col, widths[col].greater(b.width()));
        heights.set(row, heights[row].greater(b.height()));
        k += 1;
    }
    let mut xs: Vec<S> = Vec::new();
    let mut x = origin.x;
    let mut ci: usize = 0;
    while ci < cols
        invariant
            ci <= cols,
            n == order.len(),
            widths.len() == cols,
            xs.len() == ci,
            forall|j: int|
                0 <= j < cols ==> #[trigger] widths@[j] == column_width(
                    s,
                    order@,
                    cols as int,
                    j,
                    n as nat,
                ),
            x == column_x(s, order@, cols as int, spacing, ci as nat),
            forall|j: int|
                0 <= j < ci ==> #[trigger] xs@[j] == column_x(
                    s,
                    order@,
                    cols as int,
                    spacing,
                    j as nat,
                ),
        decreases cols - ci,
    {
        xs.push(x);
        x = x.plus(widths[ci].plus(spacing));
        ci += 1;
    }
    let mut ys: Vec<S> = Vec::new();
    let mut y = origin.y;
    let mut ri: usize = 0;
    while ri < rows
        invariant
            ri <= rows,
            n == order.len(),
            heights.len() == rows,
            ys.len() == ri,
            forall|j: int|
                0 <= j < rows ==> #[trigger] heights@[j] == row_height(
                    s,
                    order@,
                    cols as int,
                    j,
                    n as nat,
                ),
            y == row_y(s, order@, cols as int, spacing, ri as nat),
            forall|j: int|
                0 <= j < ri ==> #[trigger] ys@[j] == row_y(
                    s,
                    order@,
                    cols as int,
                    spacing,
                    j as nat,
                ),
        decreases rows - ri,
    {
        ys.push(y);
        y = y.plus(heights[ri].plus(spacing));
        ri += 1;
    }
    (xs, ys)
}

/// Arranges sibling layers in reading order into a grid with as many columns as the square root
/// of their number, rounded up; each column and row as large as its largest member, `spacing`
/// apart.
///
/// Nothing happens with fewer than two ids or layers, or without a common parent.
#[verifier::rlimit(50)]
pub fn tidy<S: Scalar>(page: &mut Page<S>, ids: &[LayerId], spacing: S)
    ensures
        final(page)@ == old(page)@.with_layers(tidied(old(page)@.layers, ids@, spacing)),
{
    if ids.len() < 2 {
        return;
    }
    let ghost before = page@.layers;
    match find_common_parent_list(&mut page.layers, ids) {
        Some(list) => {
            let ghost s = views(list@);
            let picked = indices_of(list, ids);
            let order = sort_stable(&picked, &keys_for_reading(list));
            let n = order.len();
            if n < 2 {
                proof {
                    crate::tree::lemma_with_list_at(
                        before,
                        crate::tree::home(before, ids@)->0,
                        s,
                    );
                }
                return;
            }
            let cols = column_count(n);
            let rows: usize = (n - 1) / cols + 1;
            assert(n <= rows * cols) by (nonlinear_arith)
                requires
                    rows == (n - 1) / (cols as int) + 1,
                    cols > 0,
                    n > 0,
            ;
            let (xs, ys) = grid_lines(list, &order, cols, rows, spacing);
            let mut k: usize = 0;
            while k < n
                invariant
                    k <= n,
                    n == order.len(),
                    cols > 0,
                    n <= rows * cols,
                    xs.len() == cols,
                    ys.len() == rows,
                    list.len() == s.len(),
                    forall|i: int| 0 <= i < order@.len() ==> #[trigger] order@[i] < s.len(),
                    forall|c: int|
                        0 <= c < cols ==> #[trigger] xs@[c] == column_x(
                            s,
                            order@,
                            cols as int,
                            spacing,
                            c as nat,
                        ),
                    forall|q: int|
                        0 <= q < rows ==> #[trigger] ys@[q] == row_y(
                            s,
                            order@,
                            cols as int,
                            spacing,
                            q as nat,
                        ),
                    views(list@) == placed(s, order@, cols as int, spacing, k as nat),
                decreases n - k,
            {
                let i = order[k];
                let row = k / cols;
                assert(row < rows) by (nonlinear_arith)
                    requires
                        k < n,
                        n <= rows * cols,
                        cols > 0,
                        row == k / cols,
                ;
                let cell = Pos2 { x: xs[k % cols], y: ys[row] };
                assert(views(list@)[i as int] == list@[i as int]@);
                let layer = &mut list[i];
                let b = layer.frame.rotated_bounds();
                layer.frame = layer.frame.moved(cell.from(b.min));
                k += 1;
            }
        },
        None => {},
    }
}

/// Whether two lists hold the same layers but for where they are.
pub open spec fn same_but_moved<S>(s: Seq<LayerView<S>>, t: Seq<LayerView<S>>) -> bool {
    &&& s.len() == t.len()
    &&& forall|i: int|
        0 <= i < s.len() ==> {
            let f = crate::model::Frame { pos: (#[trigger] t[i]).frame.pos, ..s[i].frame };
            t[i] == s[i].with_frame(f)
        }
}

/// Aligning only moves layers, and only those that are named.
pub proof fn law_aligning_only_moves_the_named<S: Scalar>(
    s: Seq<LayerView<S>>,
    ids: Seq<LayerId>,
    edge: AlignEdge,
    target: Rect<S>,
)
    ensures
        same_but_moved(s, aligned_list(s, ids, edge, target)),
        forall|i: int|
            0 <= i < s.len() && !ids.contains((#[trigger] s[i]).id) ==> aligned_list(
                s,
                ids,
                edge,
                target,
            )[i] == s[i],
{
}

pub proof fn lemma_spread_moves<S: Scalar>(
    s: Seq<LayerView<S>>,
    order: Seq<usize>,
    axis: DistributeAxis,
    gap: S,
    k: nat,
)
    requires
        0 < order.len(),
        k <= order.len(),
        forall|i: int| 0 <= i < order.len() ==> #[trigger] order[i] < s.len(),
    ensures
        same_but_moved(s, spread(s, order, axis, gap, k).0),
        forall|i: int|
            0 <= i < s.len() && (forall|j: int| 1 <= j < k ==> #[trigger] order[j] != i)
                ==> #[trigger] spread(s, order, axis, gap, k).0[i] == s[i],
    decreases k,
{
    if k > 1 {
        lemma_spread_moves(s, order, axis, gap, (k - 1) as nat);
        let t = spread(s, order, axis, gap, (k - 1) as nat).0;
        let m = order[k - 1] as int;
        let u = spread(s, order, axis, gap, k).0;
        assert forall|i: int|
            0 <= i < s.len() && (forall|j: int| 1 <= j < k ==> #[trigger] order[j] != i)
            implies #[trigger] u[i] == s[i] by {
            assert(order[k - 1] != i);
            assert(t[i] == s[i]);
        }
        assert forall|i: int| 0 <= i < s.len() implies ({
            let f = crate::model::Frame { pos: (#[trigger] u[i]).frame.pos, ..s[i].frame };
            u[i] == s[i].with_frame(f)
        }) by {
            assert(t[i] == s[i].with_frame(
                crate::model::Frame { pos: t[i].frame.pos, ..s[i].frame },
            ));
        }
    }
}

/// Distributing only moves layers, and leaves the first and the last along the axis where they
/// are, as it does layers that are not named.
pub proof fn law_distributing_keeps_the_ends<S: Scalar>(
    s: Seq<LayerView<S>>,
    ids: Seq<LayerId>,
    axis: DistributeAxis,
)
    requires
        s.len() <= usize::MAX,
    ensures
        same_but_moved(s, distributed_list(s, ids, axis)),
        forall|i: int|
            0 <= i < s.len() && !ids.contains((#[trigger] s[i]).id) ==> distributed_list(
                s,
                ids,
                axis,
            )[i] == s[i],
        ({
            let order = stable_sorted(picked_indices(s, ids, s.len()), axis_keys(s, axis));
            order.len() >= 3 ==> distributed_list(s, ids, axis)[order[0] as int]
                == s[order[0] as int] && distributed_list(s, ids, axis)[order.last() as int]
                == s[order.last() as int]
        }),
{
    broadcast use vstd::seq_lib::group_to_multiset_ensures;

    let items = picked_indices(s, ids, s.len());
    let order = stable_sorted(items, axis_keys(s, axis));
    lemma_picked_indices(s, ids, s.len());
    crate::order::lemma_sorted_members(items, axis_keys(s, axis), s.len() as int);
    crate::order::lemma_sorted_keeps_items(items, axis_keys(s, axis));
    assert(order.no_duplicates()) by {
        items.lemma_multiset_has_no_duplicates();
        order.lemma_multiset_has_no_duplicates_conv();
    }
    if order.len() >= 3 {
        let gap = even_gap(s, order, axis);
        let k = (order.len() - 1) as nat;
        lemma_spread_moves(s, order, axis, gap, k);
        let t = spread(s, order, axis, gap, k).0;
        assert forall|i: int| 0 <= i < s.len() && !ids.contains((#[trigger] s[i]).id) implies t[i]
            == s[i] by {
            assert forall|j: int| 1 <= j < k implies #[trigger] order[j] != i by {
                if order[j] == i {
                    assert(order.to_multiset().count(order[j]) > 0);
                    assert(items.contains(order[j]));
                }
            }
        }
        assert forall|j: int| 1 <= j < k implies #[trigger] order[j] != order[0] by {}
        assert forall|j: int| 1 <= j < k implies #[trigger] order[j] != order.last() by {}
        assert(t[order[0] as int] == s[order[0] as int]);
        assert(t[order.last() as int] == s[order.last() as int]);
    }
}

pub proof fn lemma_picked_indices<S>(s: Seq<LayerView<S>>, ids: Seq<LayerId>, k: nat)
    requires
        k <= s.len() <= usize::MAX,
    ensures
        picked_indices(s, ids, k).no_duplicates(),
        forall|i: int|
            0 <= i < picked_indices(s, ids, k).len() ==> (#[trigger] picked_indices(s, ids, k)[i])
                < k && ids.contains(s[picked_indices(s, ids, k)[i] as int].id),
    decreases k,
{
    if k > 0 {
        lemma_picked_indices(s, ids, (k - 1) as nat);
    }
}

} // verus!
