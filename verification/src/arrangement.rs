//! What layers look like once they were aligned, distributed or tidied.
//!
//! The laws speak of numbers with sixteen binary places, which are added and taken away without
//! loss as long as no sum leaves their range; each says how far from the corner the layers may be.
use vstd::prelude::*;

use crate::alignment::{
    align_delta, align_target, aligned, aligned_list, axis_keys, column_width, column_x, distributed,
    distributed_list, even_gap, extent, high, law_columns_are_the_root_rounded_up,
    lemma_picked_indices, lemma_spread_moves, low, picked_indices, placed, reading_keys, root_from,
    row_height, row_y, slid, spread, tidied, tidied_list, top_left, total_extent, AlignEdge,
    DistributeAxis,
};
use crate::fixed::{in_turn, quotient, sine_units, Fixed};
use crate::geometry::{Pos2, Rect, Vec2};
use crate::grouping::{picked, picks, union_bounds};
use crate::model::{Frame, LayerId, LayerView};
use crate::order::{
    is_sorted, law_sorting_sorts, lemma_sorted_keeps_items, lemma_sorted_members, stable_sorted,
    SortKey,
};
use crate::scalar::Scalar;
use crate::tree::{home, lemma_home, lemma_with_list_at, list_at};

verus! {

/// Whether a frame begins within two thousand and forty-eight units of the corner and is no longer
/// than that on either side; it may be turned.
pub open spec fn is_compact(f: Frame<Fixed>) -> bool {
    &&& -0x800_0000 <= f.pos.x.raw <= 0x800_0000
    &&& -0x800_0000 <= f.pos.y.raw <= 0x800_0000
    &&& -0x800_0000 <= f.size.x.raw <= 0x800_0000
    &&& -0x800_0000 <= f.size.y.raw <= 0x800_0000
}

/// Whether every layer of the list that `ids` names is compact.
pub open spec fn are_compact(s: Seq<LayerView<Fixed>>, ids: Seq<LayerId>) -> bool {
    forall|i: int|
        0 <= i < s.len() && ids.contains((#[trigger] s[i]).id) ==> is_compact(s[i].frame)
}

/// How far a point is across from the center it was turned about.
#[verifier::opaque]
spec fn across(dx: int, dy: int, degrees: Fixed) -> int {
    quotient(dx * degrees.spec_cos_deg().raw, 65536) - quotient(
        dy * degrees.spec_sin_deg().raw,
        65536,
    )
}

/// How far a point is below the center it was turned about.
#[verifier::opaque]
spec fn below(dx: int, dy: int, degrees: Fixed) -> int {
    quotient(dx * degrees.spec_sin_deg().raw, 65536) + quotient(
        dy * degrees.spec_cos_deg().raw,
        65536,
    )
}

/// A point turned about a center.
#[verifier::opaque]
spec fn turned(p: Pos2<Fixed>, c: Pos2<Fixed>, degrees: Fixed) -> Pos2<Fixed> {
    p.spec_rotated(c, degrees)
}

/// The box around four points.
#[verifier::opaque]
spec fn around(a: Pos2<Fixed>, b: Pos2<Fixed>, c: Pos2<Fixed>, d: Pos2<Fixed>) -> Rect<Fixed> {
    Rect { min: a, max: a }.spec_union(Rect { min: b, max: b }).spec_union(
        Rect { min: c, max: c },
    ).spec_union(Rect { min: d, max: d })
}

/// The box around the turned corners of another.
proof fn lemma_rotated_box(b: Rect<Fixed>, degrees: Fixed)
    ensures
        ({
            let c = b.spec_center();
            b.spec_rotated_box(degrees) == around(
                turned(b.min, c, degrees),
                turned(Pos2 { x: b.max.x, y: b.min.y }, c, degrees),
                turned(b.max, c, degrees),
                turned(Pos2 { x: b.min.x, y: b.max.y }, c, degrees),
            )
        }),
{
    reveal(turned);
    reveal(around);
    reveal(Rect::spec_rotated_box);
    let corners = b.spec_corners();
    assert(corners[0] == b.min);
    assert(corners[1] == (Pos2 { x: b.max.x, y: b.min.y }));
    assert(corners[2] == b.max);
    assert(corners[3] == (Pos2 { x: b.min.x, y: b.max.y }));
}

/// A sine is no more than one.
pub proof fn lemma_sine(units: int)
    ensures
        -65536 <= sine_units(units) <= 65536,
{
    let t = in_turn(units);
    let half = 11796480int;
    let x = if t < half {
        t
    } else {
        t - half
    };
    let a = x / 256;
    let b = (half - x) / 256;
    let p = a * b;
    assert(0 <= p <= 530841600) by (nonlinear_arith)
        requires
            0 <= a,
            0 <= b,
            a + b <= 46080,
            p == a * b,
    ;
    let n = 4 * p * 65536;
    let d = 2654208000 - p;
    assert(0 <= n / d <= 65536) by (nonlinear_arith)
        requires
            0 <= n <= d * 65536,
            d > 0,
    ;
}

/// What is left of a length when it is taken times a sine.
pub proof fn lemma_share(d: int, k: int, limit: int)
    requires
        -limit <= d <= limit,
        -65536 <= k <= 65536,
    ensures
        -limit <= quotient(d * k, 65536) <= limit,
{
    assert(-limit * 65536 <= d * k <= limit * 65536) by (nonlinear_arith)
        requires
            -limit <= d <= limit,
            -65536 <= k <= 65536,
    ;
}

/// A point turned about a center is where its distances from it put it.
proof fn lemma_turned_point(p: Pos2<Fixed>, c: Pos2<Fixed>, degrees: Fixed)
    requires
        -0x400_0001 <= p.x.raw - c.x.raw <= 0x400_0001,
        -0x400_0001 <= p.y.raw - c.y.raw <= 0x400_0001,
        -0x4000_0000 <= c.x.raw <= 0x4000_0000,
        -0x4000_0000 <= c.y.raw <= 0x4000_0000,
    ensures
        ({
            let dx = p.x.raw - c.x.raw;
            let dy = p.y.raw - c.y.raw;
            let q = turned(p, c, degrees);
            &&& q.x.raw == c.x.raw + across(dx, dy, degrees)
            &&& q.y.raw == c.y.raw + below(dx, dy, degrees)
            &&& -0x800_0002 <= across(dx, dy, degrees) <= 0x800_0002
            &&& -0x800_0002 <= below(dx, dy, degrees) <= 0x800_0002
        }),
{
    reveal(turned);
    reveal(across);
    reveal(below);
    let dx = p.x.raw - c.x.raw;
    let dy = p.y.raw - c.y.raw;
    lemma_sine(degrees.raw as int);
    lemma_sine(degrees.raw + 5898240);
    let sin = degrees.spec_sin_deg().raw as int;
    let cos = degrees.spec_cos_deg().raw as int;
    lemma_share(dx, sin, 0x400_0001);
    lemma_share(dx, cos, 0x400_0001);
    lemma_share(dy, sin, 0x400_0001);
    lemma_share(dy, cos, 0x400_0001);
    let d = p.spec_from(c);
    assert(d.x.raw == dx && d.y.raw == dy);
    assert(d.x.spec_times(degrees.spec_cos_deg()).raw == quotient(dx * cos, 65536));
    assert(d.y.spec_times(degrees.spec_sin_deg()).raw == quotient(dy * sin, 65536));
    assert(d.x.spec_times(degrees.spec_sin_deg()).raw == quotient(dx * sin, 65536));
    assert(d.y.spec_times(degrees.spec_cos_deg()).raw == quotient(dy * cos, 65536));
}

/// The middle between two numbers, rounded down.
proof fn lemma_middle(a: Fixed, b: Fixed)
    requires
        -0x8000_0000 <= a.raw + b.raw < 0x8000_0000,
    ensures
        a.spec_plus(b).spec_over(Fixed::spec_ratio(2, 1)).raw == (a.raw + b.raw) / 2,
{
    assert(Fixed::spec_ratio(2, 1).raw == 131072);
    let n = a.raw + b.raw;
    assert((n * 65536) / 131072 == n / 2);
}

/// The box around a frame turned: where its corners are, seen from its center.
proof fn lemma_turned_box(f: Frame<Fixed>)
    requires
        -0x3800_0000 <= f.pos.x.raw <= 0x3800_0000,
        -0x3800_0000 <= f.pos.y.raw <= 0x3800_0000,
        -0x800_0000 <= f.size.x.raw <= 0x800_0000,
        -0x800_0000 <= f.size.y.raw <= 0x800_0000,
    ensures
        ({
            let b = f.spec_bounds();
            let c = b.spec_center();
            let r = b.spec_rotated_box(f.rotation);
            let l = b.min.x.raw - c.x.raw;
            let t = b.min.y.raw - c.y.raw;
            let h = b.max.x.raw - c.x.raw;
            let v = b.max.y.raw - c.y.raw;
            let x1 = across(l, t, f.rotation);
            let x2 = across(h, t, f.rotation);
            let x3 = across(h, v, f.rotation);
            let x4 = across(l, v, f.rotation);
            let y1 = below(l, t, f.rotation);
            let y2 = below(h, t, f.rotation);
            let y3 = below(h, v, f.rotation);
            let y4 = below(l, v, f.rotation);
            &&& c.x.raw == (b.min.x.raw + b.max.x.raw) / 2
            &&& c.y.raw == (b.min.y.raw + b.max.y.raw) / 2
            &&& r.min.x.raw == c.x.raw + least(x1, x2, x3, x4)
            &&& r.min.y.raw == c.y.raw + least(y1, y2, y3, y4)
            &&& r.max.x.raw == c.x.raw - least(-x1, -x2, -x3, -x4)
            &&& r.max.y.raw == c.y.raw - least(-y1, -y2, -y3, -y4)
            &&& -0x800_0002 <= least(x1, x2, x3, x4) <= -least(-x1, -x2, -x3, -x4) <= 0x800_0002
            &&& -0x800_0002 <= least(y1, y2, y3, y4) <= -least(-y1, -y2, -y3, -y4) <= 0x800_0002
        }),
{
    let b = f.spec_bounds();
    let c = b.spec_center();
    lemma_bounds(f);
    lemma_middle(b.min.x, b.max.x);
    lemma_middle(b.min.y, b.max.y);
    let p1 = b.min;
    let p2 = Pos2 { x: b.max.x, y: b.min.y };
    let p3 = b.max;
    let p4 = Pos2 { x: b.min.x, y: b.max.y };
    lemma_turned_point(p1, c, f.rotation);
    lemma_turned_point(p2, c, f.rotation);
    lemma_turned_point(p3, c, f.rotation);
    lemma_turned_point(p4, c, f.rotation);
    lemma_rotated_box(b, f.rotation);
    lemma_around(
        turned(p1, c, f.rotation),
        turned(p2, c, f.rotation),
        turned(p3, c, f.rotation),
        turned(p4, c, f.rotation),
    );
}

/// The upright box of a frame, and how far its edges are apart.
proof fn lemma_bounds(f: Frame<Fixed>)
    requires
        -0x3800_0000 <= f.pos.x.raw <= 0x3800_0000,
        -0x3800_0000 <= f.pos.y.raw <= 0x3800_0000,
        -0x800_0000 <= f.size.x.raw <= 0x800_0000,
        -0x800_0000 <= f.size.y.raw <= 0x800_0000,
    ensures
        ({
            let b = f.spec_bounds();
            &&& -0x4000_0000 <= b.min.x.raw <= f.pos.x.raw <= b.max.x.raw <= 0x4000_0000
            &&& -0x4000_0000 <= b.min.y.raw <= f.pos.y.raw <= b.max.y.raw <= 0x4000_0000
            &&& b.max.x.raw - b.min.x.raw <= 0x800_0000
            &&& b.max.y.raw - b.min.y.raw <= 0x800_0000
            &&& b.min.x.raw + b.max.x.raw == 2 * f.pos.x.raw + f.size.x.raw
            &&& b.min.y.raw + b.max.y.raw == 2 * f.pos.y.raw + f.size.y.raw
        }),
{
}

/// The box around four points.
proof fn lemma_around(a: Pos2<Fixed>, b: Pos2<Fixed>, c: Pos2<Fixed>, d: Pos2<Fixed>)
    ensures
        ({
            let r = around(a, b, c, d);
            &&& r.min.x.raw == least(a.x.raw as int, b.x.raw as int, c.x.raw as int, d.x.raw as int)
            &&& r.min.y.raw == least(a.y.raw as int, b.y.raw as int, c.y.raw as int, d.y.raw as int)
            &&& r.max.x.raw == -least(-a.x.raw, -b.x.raw, -c.x.raw, -d.x.raw)
            &&& r.max.y.raw == -least(-a.y.raw, -b.y.raw, -c.y.raw, -d.y.raw)
        }),
{
    reveal(around);
}

/// The least of four numbers.
spec fn least(a: int, b: int, c: int, d: int) -> int {
    let p = if b < a {
        b
    } else {
        a
    };
    let q = if d < c {
        d
    } else {
        c
    };
    if q < p {
        q
    } else {
        p
    }
}

/// The box around a compact frame is near it.
pub proof fn lemma_compact_box(f: Frame<Fixed>)
    requires
        is_compact(f),
    ensures
        ({
            let b = f.spec_rotated_bounds();
            &&& -0x1400_0004 <= b.min.x.raw <= b.max.x.raw <= 0x1400_0004
            &&& -0x1400_0004 <= b.min.y.raw <= b.max.y.raw <= 0x1400_0004
            &&& -0xc00_0004 <= f.pos.x.raw - b.min.x.raw <= 0xc00_0004
            &&& -0xc00_0004 <= f.pos.y.raw - b.min.y.raw <= 0xc00_0004
        }),
{
    if f.rotation.raw != 0 {
        lemma_turned_box(f);
    }
}

/// A compact frame that is moved takes the box around it along.
proof fn lemma_box_moves(f: Frame<Fixed>, v: Vec2<Fixed>)
    requires
        is_compact(f),
        -0x3800_0000 <= f.pos.x.raw + v.x.raw <= 0x3800_0000,
        -0x3800_0000 <= f.pos.y.raw + v.y.raw <= 0x3800_0000,
    ensures
        ({
            let b = f.spec_rotated_bounds();
            let r = f.spec_moved(v).spec_rotated_bounds();
            &&& r.min.x.raw == b.min.x.raw + v.x.raw
            &&& r.min.y.raw == b.min.y.raw + v.y.raw
            &&& r.max.x.raw == b.max.x.raw + v.x.raw
            &&& r.max.y.raw == b.max.y.raw + v.y.raw
        }),
{
    let g = f.spec_moved(v);
    let b = f.spec_bounds();
    let r = g.spec_bounds();
    assert(r.min.x.raw == b.min.x.raw + v.x.raw);
    assert(r.min.y.raw == b.min.y.raw + v.y.raw);
    assert(r.max.x.raw == b.max.x.raw + v.x.raw);
    assert(r.max.y.raw == b.max.y.raw + v.y.raw);
    if f.rotation.raw != 0 {
        lemma_turned_box(f);
        lemma_turned_box(g);
        assert(r.spec_center().x.raw == b.spec_center().x.raw + v.x.raw);
        assert(r.spec_center().y.raw == b.spec_center().y.raw + v.y.raw);
    }
}

/// Whether a box is within four thousand and ninety-six units of the corner.
pub open spec fn is_near(b: Rect<Fixed>) -> bool {
    &&& -0x1000_0000 <= b.min.x.raw <= 0x1000_0000
    &&& -0x1000_0000 <= b.min.y.raw <= 0x1000_0000
    &&& -0x1000_0000 <= b.max.x.raw <= 0x1000_0000
    &&& -0x1000_0000 <= b.max.y.raw <= 0x1000_0000
}

/// The edge or center of a box that alignment goes by.
pub open spec fn edge_of<S: Scalar>(b: Rect<S>, edge: AlignEdge) -> S {
    match edge {
        AlignEdge::Left => b.min.x,
        AlignEdge::HCenter => b.spec_center().x,
        AlignEdge::Right => b.max.x,
        AlignEdge::Top => b.min.y,
        AlignEdge::VCenter => b.spec_center().y,
        AlignEdge::Bottom => b.max.y,
    }
}

/// Whether the edges of a box are as far from the corner as those of a compact frame may be.
spec fn is_footprint(b: Rect<Fixed>) -> bool {
    &&& -0x1400_0004 <= b.min.x.raw <= 0x1400_0004
    &&& -0x1400_0004 <= b.min.y.raw <= 0x1400_0004
    &&& -0x1400_0004 <= b.max.x.raw <= 0x1400_0004
    &&& -0x1400_0004 <= b.max.y.raw <= 0x1400_0004
}

proof fn lemma_compact_union(s: Seq<LayerView<Fixed>>)
    requires
        s.len() > 0,
        forall|i: int| 0 <= i < s.len() ==> is_compact((#[trigger] s[i]).frame),
    ensures
        is_footprint(union_bounds(s)),
    decreases s.len(),
{
    lemma_compact_box(s[s.len() - 1].frame);
    if s.len() > 1 {
        let t = s.drop_last();
        assert forall|i: int| 0 <= i < t.len() implies is_compact((#[trigger] t[i]).frame) by {
            assert(t[i] == s[i]);
        }
        lemma_compact_union(t);
    }
}

/// A box that is moved as alignment asks meets its target.
proof fn lemma_edge_meets(f: Frame<Fixed>, target: Rect<Fixed>, edge: AlignEdge)
    requires
        is_compact(f),
        is_footprint(target),
    ensures
        edge_of(
            f.spec_moved(
                align_delta(f.spec_rotated_bounds(), target, edge),
            ).spec_rotated_bounds(),
            edge,
        ) == edge_of(target, edge),
{
    let b = f.spec_rotated_bounds();
    let v = align_delta(b, target, edge);
    lemma_compact_box(f);
    lemma_middle(b.min.x, b.max.x);
    lemma_middle(b.min.y, b.max.y);
    lemma_middle(target.min.x, target.max.x);
    lemma_middle(target.min.y, target.max.y);
    lemma_box_moves(f, v);
    let r = f.spec_moved(v).spec_rotated_bounds();
    lemma_middle(r.min.x, r.max.x);
    lemma_middle(r.min.y, r.max.y);
}

/// Once layers were aligned, the chosen edge or center of the box around each of them, turned as
/// it is, is that of what they were aligned to.
pub proof fn law_aligned_layers_meet_the_target(
    s: Seq<LayerView<Fixed>>,
    ids: Seq<LayerId>,
    edge: AlignEdge,
    align_to: Option<Rect<Fixed>>,
    i: int,
)
    requires
        ids.len() >= 2,
        home(s, ids) is Some,
        ({
            let list = list_at(s, home(s, ids)->0);
            &&& align_target(list, ids, align_to) is Some
            &&& are_compact(list, ids)
            &&& 0 <= i < list.len()
            &&& ids.contains(list[i].id)
        }),
        align_to matches Some(t) ==> is_near(t),
    ensures
        ({
            let p = home(s, ids)->0;
            let after = list_at(aligned(s, ids, edge, align_to), p);
            let target = align_target(list_at(s, p), ids, align_to)->0;
            edge_of(after[i].frame.spec_rotated_bounds(), edge) == edge_of(target, edge)
        }),
{
    let p = home(s, ids)->0;
    let list = list_at(s, p);
    let target = align_target(list, ids, align_to)->0;
    lemma_home(s, ids);
    lemma_with_list_at(s, p, aligned_list(list, ids, edge, target));
    if align_to is None {
        let chosen = picked(list, ids);
        assert forall|k: int| 0 <= k < chosen.len() implies is_compact(
            (#[trigger] chosen[k]).frame,
        ) by {
            assert(chosen.contains(chosen[k]));
            list.lemma_filter_contains_rev(picks::<Fixed>(ids), chosen[k]);
            let j = choose|j: int| 0 <= j < list.len() && list[j] == chosen[k];
            list.lemma_filter_pred(picks::<Fixed>(ids), k);
            assert(picks::<Fixed>(ids)(list[j]));
            assert(ids.contains(list[j].id));
        }
        lemma_compact_union(chosen);
    }
    lemma_edge_meets(list[i].frame, target, edge);
}

/// The layers that `ids` names, in their order along an axis.
pub open spec fn along(s: Seq<LayerView<Fixed>>, ids: Seq<LayerId>, axis: DistributeAxis) -> Seq<
    usize,
> {
    stable_sorted(picked_indices(s, ids, s.len()), axis_keys(s, axis))
}

/// Where the turned box of a layer begins along an axis.
pub open spec fn begin(v: LayerView<Fixed>, axis: DistributeAxis) -> int {
    low(v.frame.spec_rotated_bounds(), axis).raw as int
}

/// Where the turned box of a layer ends along an axis.
pub open spec fn end(v: LayerView<Fixed>, axis: DistributeAxis) -> int {
    high(v.frame.spec_rotated_bounds(), axis).raw as int
}

/// What the layers of `order` leave free between the beginning of the first and the end of the
/// last; less than nothing, where they overlap.
pub open spec fn room(s: Seq<LayerView<Fixed>>, order: Seq<usize>, axis: DistributeAxis) -> int {
    end(s[order.last() as int], axis) - begin(s[order[0] as int], axis) - total_extent(
        s,
        order,
        axis,
        order.len(),
    ).raw
}

/// The gap between a layer of `order` and the next.
pub open spec fn gap_after(
    s: Seq<LayerView<Fixed>>,
    order: Seq<usize>,
    axis: DistributeAxis,
    k: int,
) -> int {
    begin(s[order[k + 1] as int], axis) - end(s[order[k] as int], axis)
}

/// Whether `order` names layers of the list, each of them once, that are compact.
spec fn is_order(s: Seq<LayerView<Fixed>>, order: Seq<usize>) -> bool {
    &&& order.no_duplicates()
    &&& forall|j: int|
        0 <= j < order.len() ==> (#[trigger] order[j]) < s.len() && is_compact(
            s[order[j] as int].frame,
        )
}

/// The named layers in an order that sorting gave them.
proof fn lemma_is_order(s: Seq<LayerView<Fixed>>, ids: Seq<LayerId>, keys: Seq<SortKey<Fixed>>)
    requires
        s.len() <= usize::MAX,
        are_compact(s, ids),
    ensures
        is_order(s, stable_sorted(picked_indices(s, ids, s.len()), keys)),
        forall|j: int|
            0 <= j < picked_indices(s, ids, s.len()).len() ==> ids.contains(
                s[(#[trigger] stable_sorted(
                    picked_indices(s, ids, s.len()),
                    keys,
                )[j]) as int].id,
            ),
{
    broadcast use vstd::seq_lib::group_to_multiset_ensures;

    let items = picked_indices(s, ids, s.len());
    let order = stable_sorted(items, keys);
    lemma_picked_indices(s, ids, s.len());
    lemma_sorted_members(items, keys, s.len() as int);
    lemma_sorted_keeps_items(items, keys);
    items.lemma_multiset_has_no_duplicates();
    order.lemma_multiset_has_no_duplicates_conv();
    assert forall|j: int| 0 <= j < order.len() implies (#[trigger] order[j]) < s.len()
        && is_compact(s[order[j] as int].frame) && ids.contains(s[order[j] as int].id) by {
        assert(order.to_multiset().count(order[j]) > 0);
        assert(items.contains(order[j]));
        let k = choose|k: int| 0 <= k < items.len() && items[k] == order[j];
        assert(ids.contains(s[items[k] as int].id));
    }
}

/// The extents of layers add up exactly, as long as their sum is within the range of numbers.
proof fn lemma_extents_add_up(
    s: Seq<LayerView<Fixed>>,
    order: Seq<usize>,
    axis: DistributeAxis,
    k: nat,
    n: nat,
)
    requires
        is_order(s, order),
        k <= n <= order.len(),
        total_extent(s, order, axis, n).raw < i32::MAX,
    ensures
        0 <= total_extent(s, order, axis, k).raw <= total_extent(s, order, axis, n).raw,
        k > 0 ==> total_extent(s, order, axis, k).raw == total_extent(
            s,
            order,
            axis,
            (k - 1) as nat,
        ).raw + end(s[order[k - 1] as int], axis) - begin(s[order[k - 1] as int], axis),
    decreases n,
{
    if n > 0 {
        let last = s[order[n - 1] as int];
        assert(order[n - 1] < s.len());
        lemma_compact_box(last.frame);
        lemma_extent_is_exact(last, axis);
        let before = total_extent(s, order, axis, (n - 1) as nat);
        assert(total_extent(s, order, axis, n) == before.spec_plus(
            extent(last.frame.spec_rotated_bounds(), axis),
        ));
        if k < n {
            lemma_extents_add_up(s, order, axis, k, (n - 1) as nat);
        } else {
            lemma_extents_add_up(s, order, axis, (n - 1) as nat, (n - 1) as nat);
        }
    }
}

proof fn lemma_extent_is_exact(v: LayerView<Fixed>, axis: DistributeAxis)
    requires
        is_compact(v.frame),
    ensures
        extent(v.frame.spec_rotated_bounds(), axis).raw == end(v, axis) - begin(v, axis),
        begin(v, axis) <= end(v, axis),
        -0x1400_0004 <= begin(v, axis),
        end(v, axis) <= 0x1400_0004,
{
    lemma_compact_box(v.frame);
}

/// The even gap is the room shared out, rounded down.
proof fn lemma_even_gap(s: Seq<LayerView<Fixed>>, order: Seq<usize>, axis: DistributeAxis)
    requires
        is_order(s, order),
        3 <= order.len() <= 32767,
        total_extent(s, order, axis, order.len()).raw <= 0x1400_0000,
    ensures
        even_gap(s, order, axis).raw == room(s, order, axis) / (order.len() - 1),
{
    let n = order.len() as int;
    let m = n - 1;
    let r = room(s, order, axis);
    assert(order[0] < s.len() && order[n - 1] < s.len());
    lemma_extent_is_exact(s[order[0] as int], axis);
    lemma_extent_is_exact(s[order.last() as int], axis);
    lemma_extents_add_up(s, order, axis, n as nat, n as nat);
    let parts = Fixed::spec_ratio(n, 1).spec_minus(Fixed::spec_ratio(1, 1));
    assert(parts.raw == m * 65536);
    let q = r / m;
    assert(r == m * q + r % m) by {
        vstd::arithmetic::div_mod::lemma_fundamental_div_mod(r, m);
    }
    assert(r * 65536 == q * (m * 65536) + (r % m) * 65536) by (nonlinear_arith)
        requires
            r == m * q + r % m,
    ;
    vstd::arithmetic::div_mod::lemma_fundamental_div_mod_converse(
        r * 65536,
        m * 65536,
        q,
        (r % m) * 65536,
    );
    assert((r * 65536) / (m * 65536) == q);
    assert(-0x8000_0000 < q < 0x8000_0000) by (nonlinear_arith)
        requires
            q == r / m,
            m >= 1,
            -0x8000_0000 < r < 0x8000_0000,
    ;
}

/// Where a layer goes when it is put behind the first `k`: not far from where the layers were.
proof fn lemma_share_of_room(r: int, m: int, k: int)
    requires
        0 <= k <= m,
        m > 0,
    ensures
        r >= 0 ==> 0 <= k * (r / m) <= r,
        r < 0 ==> r - m <= k * (r / m) <= 0,
{
    let q = r / m;
    vstd::arithmetic::div_mod::lemma_fundamental_div_mod(r, m);
    assert(r >= 0 ==> q >= 0) by (nonlinear_arith)
        requires
            q == r / m,
            m > 0,
    ;
    assert(r < 0 ==> q <= 0) by (nonlinear_arith)
        requires
            q == r / m,
            m > 0,
    ;
    assert(q >= 0 ==> 0 <= k * q <= m * q) by (nonlinear_arith)
        requires
            0 <= k <= m,
    ;
    assert(q <= 0 ==> m * q <= k * q <= 0) by (nonlinear_arith)
        requires
            0 <= k <= m,
    ;
}

/// A layer that was slid begins where it was to begin, and is as long as before.
proof fn lemma_slid(v: LayerView<Fixed>, cursor: Fixed, axis: DistributeAxis)
    requires
        is_compact(v.frame),
        -0x2900_0000 <= cursor.raw <= 0x2900_0000,
    ensures
        ({
            let w = slid(v, cursor.spec_minus(low(v.frame.spec_rotated_bounds(), axis)), axis);
            &&& begin(w, axis) == cursor.raw
            &&& end(w, axis) == cursor.raw + end(v, axis) - begin(v, axis)
        }),
{
    let by = cursor.spec_minus(low(v.frame.spec_rotated_bounds(), axis));
    let zero = Fixed { raw: 0 };
    let d = match axis {
        DistributeAxis::Horizontal => Vec2 { x: by, y: zero },
        DistributeAxis::Vertical => Vec2 { x: zero, y: by },
    };
    lemma_compact_box(v.frame);
    assert(slid(v, by, axis).frame == v.frame.spec_moved(d));
    lemma_box_moves(v.frame, d);
}

/// Where the `j`-th layer of `order` is to begin.
#[verifier::opaque]
spec fn mark(s: Seq<LayerView<Fixed>>, order: Seq<usize>, axis: DistributeAxis, j: int) -> int {
    begin(s[order[0] as int], axis) + total_extent(s, order, axis, j as nat).raw + j * even_gap(
        s,
        order,
        axis,
    ).raw
}

/// Each layer begins a gap behind the one before it, and none far from where they were.
proof fn lemma_mark(s: Seq<LayerView<Fixed>>, order: Seq<usize>, axis: DistributeAxis, j: int)
    requires
        is_order(s, order),
        3 <= order.len() <= 32767,
        0 <= j < order.len(),
        total_extent(s, order, axis, order.len()).raw <= 0x1400_0000,
    ensures
        -0x2900_0000 <= mark(s, order, axis, j) <= 0x2900_0000,
        mark(s, order, axis, 0) == begin(s[order[0] as int], axis),
        j > 0 ==> mark(s, order, axis, j) == mark(s, order, axis, j - 1) + end(
            s[order[j - 1] as int],
            axis,
        ) - begin(s[order[j - 1] as int], axis) + even_gap(s, order, axis).raw,
{
    reveal(mark);
    let n = order.len();
    let m = n - 1;
    let gap = even_gap(s, order, axis).raw as int;
    let r = room(s, order, axis);
    assert(order[0] < s.len() && order[m] < s.len());
    lemma_extent_is_exact(s[order[0] as int], axis);
    lemma_extent_is_exact(s[order.last() as int], axis);
    lemma_extents_add_up(s, order, axis, j as nat, n);
    lemma_extents_add_up(s, order, axis, n, n);
    lemma_even_gap(s, order, axis);
    lemma_share_of_room(r, m, j);
    assert(total_extent(s, order, axis, 0).raw == 0);
    assert(0 * gap == 0);
    assert(j * gap == (j - 1) * gap + gap) by (nonlinear_arith);
}

/// Whether the first `k` layers of `order` are where they are to be, as long as they were.
#[verifier::opaque]
spec fn in_place(
    s: Seq<LayerView<Fixed>>,
    t: Seq<LayerView<Fixed>>,
    order: Seq<usize>,
    axis: DistributeAxis,
    k: int,
) -> bool {
    forall|j: int|
        0 <= j < k ==> begin(t[#[trigger] order[j] as int], axis) == mark(s, order, axis, j) && end(
            t[order[j] as int],
            axis,
        ) == mark(s, order, axis, j) + end(s[order[j] as int], axis) - begin(
            s[order[j] as int],
            axis,
        )
}

/// One layer more is in place.
proof fn lemma_one_more_in_place(
    s: Seq<LayerView<Fixed>>,
    t: Seq<LayerView<Fixed>>,
    order: Seq<usize>,
    axis: DistributeAxis,
    k: int,
    cursor: Fixed,
)
    requires
        is_order(s, order),
        0 <= k < order.len(),
        t.len() == s.len(),
        t[order[k] as int] == s[order[k] as int],
        cursor.raw == mark(s, order, axis, k),
        -0x2900_0000 <= cursor.raw <= 0x2900_0000,
        in_place(s, t, order, axis, k),
    ensures
        ({
            let i = order[k] as int;
            let b = t[i].frame.spec_rotated_bounds();
            in_place(
                s,
                t.update(i, slid(t[i], cursor.spec_minus(low(b, axis)), axis)),
                order,
                axis,
                k + 1,
            )
        }),
{
    reveal(in_place);
    let i = order[k] as int;
    assert(order[k] < s.len());
    lemma_slid(s[i], cursor, axis);
    let w = slid(t[i], cursor.spec_minus(low(t[i].frame.spec_rotated_bounds(), axis)), axis);
    let u = t.update(i, w);
    assert forall|j: int| 0 <= j < k + 1 implies begin(u[#[trigger] order[j] as int], axis) == mark(
        s,
        order,
        axis,
        j,
    ) && end(u[order[j] as int], axis) == mark(s, order, axis, j) + end(s[order[j] as int], axis)
        - begin(s[order[j] as int], axis) by {
        if j < k {
            assert(order[j] != order[k]);
            assert(order[j] < s.len());
            assert(u[order[j] as int] == t[order[j] as int]);
        } else {
            assert(u[order[j] as int] == w);
        }
    }
}

/// Where the layers of `order` are after the first `k` were put in place, and where the next one
/// begins.
proof fn lemma_spread(s: Seq<LayerView<Fixed>>, order: Seq<usize>, axis: DistributeAxis, k: nat)
    requires
        is_order(s, order),
        3 <= order.len() <= 32767,
        1 <= k < order.len(),
        total_extent(s, order, axis, order.len()).raw <= 0x1400_0000,
    ensures
        ({
            let (t, cursor) = spread(s, order, axis, even_gap(s, order, axis), k);
            &&& t.len() == s.len()
            &&& cursor.raw == mark(s, order, axis, k as int)
            &&& in_place(s, t, order, axis, k as int)
        }),
    decreases k,
{
    let gap = even_gap(s, order, axis);
    lemma_mark(s, order, axis, k as int);
    lemma_mark(s, order, axis, k - 1);
    if k == 1 {
        reveal(in_place);
        assert(order[0] < s.len());
        lemma_extent_is_exact(s[order[0] as int], axis);
    } else {
        let j = (k - 1) as nat;
        lemma_spread(s, order, axis, j);
        lemma_spread_moves(s, order, axis, gap, j);
        let (t, cursor) = spread(s, order, axis, gap, j);
        let i = order[k - 1] as int;
        assert(order[k - 1] < s.len());
        assert forall|q: int| 1 <= q < j implies #[trigger] order[q] != i by {}
        assert(t[i] == s[i]);
        lemma_extent_is_exact(s[i], axis);
        lemma_one_more_in_place(s, t, order, axis, j as int, cursor);
    }
}

/// Once layers were distributed, the gaps between neighbours along the axis are equal: each is the
/// room between the first and the last, shared out and rounded down, and the last one has in
/// addition what the rounding left over.
pub proof fn law_distributed_gaps_are_equal(
    s: Seq<LayerView<Fixed>>,
    ids: Seq<LayerId>,
    axis: DistributeAxis,
    k: int,
)
    requires
        ids.len() >= 3,
        home(s, ids) is Some,
        ({
            let list = list_at(s, home(s, ids)->0);
            let order = along(list, ids, axis);
            &&& list.len() <= usize::MAX
            &&& are_compact(list, ids)
            &&& 3 <= order.len() <= 32767
            &&& total_extent(list, order, axis, order.len()).raw <= 0x1400_0000
            &&& 0 <= k < order.len() - 1
        }),
    ensures
        ({
            let p = home(s, ids)->0;
            let list = list_at(s, p);
            let order = along(list, ids, axis);
            let after = list_at(distributed(s, ids, axis), p);
            let m = order.len() - 1;
            let r = room(list, order, axis);
            gap_after(after, order, axis, k) == r / m + (if k == m - 1 {
                r % m
            } else {
                0
            })
        }),
{
    let p = home(s, ids)->0;
    let list = list_at(s, p);
    let order = along(list, ids, axis);
    let n = order.len();
    let m = n - 1;
    let r = room(list, order, axis);
    let gap = even_gap(list, order, axis);
    lemma_home(s, ids);
    lemma_with_list_at(s, p, distributed_list(list, ids, axis));
    lemma_is_order(list, ids, axis_keys(list, axis));
    lemma_even_gap(list, order, axis);
    lemma_spread(list, order, axis, m as nat);
    lemma_spread_moves(list, order, axis, gap, m as nat);
    let t = spread(list, order, axis, gap, m as nat).0;
    assert(list_at(distributed(s, ids, axis), p) == t);
    assert(order[k] < list.len() && order[k + 1] < list.len());
    reveal(in_place);
    lemma_mark(list, order, axis, k);
    lemma_mark(list, order, axis, k + 1);
    if k == m - 1 {
        let i = order.last() as int;
        assert forall|j: int| 1 <= j < m implies #[trigger] order[j] != i by {}
        assert(t[i] == list[i]);
        lemma_extents_add_up(list, order, axis, n, n);
        vstd::arithmetic::div_mod::lemma_fundamental_div_mod(r, m);
        reveal(mark);
    }
}

/// The layers that `ids` names, in reading order.
pub open spec fn reading(s: Seq<LayerView<Fixed>>, ids: Seq<LayerId>) -> Seq<usize> {
    stable_sorted(picked_indices(s, ids, s.len()), reading_keys(s))
}

/// Whether two boxes are at least a distance apart, beside or above each other.
pub open spec fn are_apart(a: Rect<Fixed>, b: Rect<Fixed>, distance: Fixed) -> bool {
    ||| a.max.x.raw + distance.raw <= b.min.x.raw
    ||| b.max.x.raw + distance.raw <= a.min.x.raw
    ||| a.max.y.raw + distance.raw <= b.min.y.raw
    ||| b.max.y.raw + distance.raw <= a.min.y.raw
}

/// The corner of the layers of `order` is not far.
proof fn lemma_top_left(s: Seq<LayerView<Fixed>>, order: Seq<usize>, k: nat)
    requires
        is_order(s, order),
        1 <= k <= order.len(),
    ensures
        -0x1400_0004 <= top_left(s, order, k).x.raw <= 0x1400_0004,
        -0x1400_0004 <= top_left(s, order, k).y.raw <= 0x1400_0004,
    decreases k,
{
    assert(order[k - 1] < s.len());
    lemma_compact_box(s[order[k - 1] as int].frame);
    if k > 1 {
        lemma_top_left(s, order, (k - 1) as nat);
    }
}

/// A column is as wide as each layer in it.
proof fn lemma_column_holds(
    s: Seq<LayerView<Fixed>>,
    order: Seq<usize>,
    cols: int,
    c: int,
    k: nat,
    j: int,
)
    requires
        is_order(s, order),
        k <= order.len(),
    ensures
        0 <= column_width(s, order, cols, c, k).raw,
        0 <= j < k && j % cols == c ==> {
            let b = s[order[j] as int].frame.spec_rotated_bounds();
            b.max.x.raw - b.min.x.raw <= column_width(s, order, cols, c, k).raw
        },
    decreases k,
{
    if k > 0 {
        assert(order[k - 1] < s.len());
        lemma_compact_box(s[order[k - 1] as int].frame);
        lemma_column_holds(s, order, cols, c, (k - 1) as nat, j);
    }
}

/// A row is as high as each layer in it.
proof fn lemma_row_holds(
    s: Seq<LayerView<Fixed>>,
    order: Seq<usize>,
    cols: int,
    r: int,
    k: nat,
    j: int,
)
    requires
        is_order(s, order),
        k <= order.len(),
    ensures
        0 <= row_height(s, order, cols, r, k).raw,
        0 <= j < k && j / cols == r ==> {
            let b = s[order[j] as int].frame.spec_rotated_bounds();
            b.max.y.raw - b.min.y.raw <= row_height(s, order, cols, r, k).raw
        },
    decreases k,
{
    if k > 0 {
        assert(order[k - 1] < s.len());
        lemma_compact_box(s[order[k - 1] as int].frame);
        lemma_row_holds(s, order, cols, r, (k - 1) as nat, j);
    }
}

/// A column begins behind the one before it.
proof fn lemma_columns(
    s: Seq<LayerView<Fixed>>,
    order: Seq<usize>,
    cols: int,
    spacing: Fixed,
    c: nat,
    n: nat,
)
    requires
        is_order(s, order),
        c <= n,
        spacing.raw >= 0,
        column_x(s, order, cols, spacing, n).raw - column_x(s, order, cols, spacing, 0).raw
            <= 0x1400_0000,
        -0x1400_0004 <= column_x(s, order, cols, spacing, 0).raw <= 0x1400_0004,
    ensures
        column_x(s, order, cols, spacing, 0).raw <= column_x(s, order, cols, spacing, c).raw
            <= column_x(s, order, cols, spacing, n).raw,
        c < n ==> column_x(s, order, cols, spacing, c).raw + column_width(
            s,
            order,
            cols,
            c as int,
            order.len(),
        ).raw + spacing.raw <= column_x(s, order, cols, spacing, n).raw,
    decreases n,
{
    if n > 0 {
        let d = (n - 1) as nat;
        lemma_column_holds(s, order, cols, d as int, order.len(), 0);
        let w = column_width(s, order, cols, d as int, order.len());
        assert(column_x(s, order, cols, spacing, n) == column_x(
            s,
            order,
            cols,
            spacing,
            d,
        ).spec_plus(w.spec_plus(spacing)));
        if c < n {
            lemma_columns(s, order, cols, spacing, c, d);
        } else {
            lemma_columns(s, order, cols, spacing, d, d);
        }
    }
}

/// A row begins below the one before it.
proof fn lemma_rows(
    s: Seq<LayerView<Fixed>>,
    order: Seq<usize>,
    cols: int,
    spacing: Fixed,
    r: nat,
    n: nat,
)
    requires
        is_order(s, order),
        r <= n,
        spacing.raw >= 0,
        row_y(s, order, cols, spacing, n).raw - row_y(s, order, cols, spacing, 0).raw
            <= 0x1400_0000,
        -0x1400_0004 <= row_y(s, order, cols, spacing, 0).raw <= 0x1400_0004,
    ensures
        row_y(s, order, cols, spacing, 0).raw <= row_y(s, order, cols, spacing, r).raw <= row_y(
            s,
            order,
            cols,
            spacing,
            n,
        ).raw,
        r < n ==> row_y(s, order, cols, spacing, r).raw + row_height(
            s,
            order,
            cols,
            r as int,
            order.len(),
        ).raw + spacing.raw <= row_y(s, order, cols, spacing, n).raw,
    decreases n,
{
    if n > 0 {
        let d = (n - 1) as nat;
        lemma_row_holds(s, order, cols, d as int, order.len(), 0);
        let w = row_height(s, order, cols, d as int, order.len());
        assert(row_y(s, order, cols, spacing, n) == row_y(s, order, cols, spacing, d).spec_plus(
            w.spec_plus(spacing),
        ));
        if r < n {
            lemma_rows(s, order, cols, spacing, r, d);
        } else {
            lemma_rows(s, order, cols, spacing, d, d);
        }
    }
}

/// Whether the grid that the layers of `order` make is no wider and no higher than five thousand one
/// hundred and twenty units, and its cells are not drawn into each other.
pub open spec fn fits_in_a_grid(
    s: Seq<LayerView<Fixed>>,
    order: Seq<usize>,
    spacing: Fixed,
) -> bool {
    let n = order.len() as int;
    let cols = root_from(n, 1);
    let rows = (n - 1) / cols + 1;
    let corner = top_left(s, order, order.len());
    &&& n >= 2
    &&& spacing.raw >= 0
    &&& column_x(s, order, cols, spacing, cols as nat).raw - corner.x.raw <= 0x1400_0000
    &&& row_y(s, order, cols, spacing, rows as nat).raw - corner.y.raw <= 0x1400_0000
}

/// Where the `j`-th layer of `order` goes.
#[verifier::opaque]
spec fn cell(
    s: Seq<LayerView<Fixed>>,
    order: Seq<usize>,
    cols: int,
    spacing: Fixed,
    j: int,
) -> Pos2<Fixed> {
    Pos2 {
        x: column_x(s, order, cols, spacing, (j % cols) as nat),
        y: row_y(s, order, cols, spacing, (j / cols) as nat),
    }
}

/// The column and the row of a layer.
proof fn lemma_column_and_row(n: int, j: int)
    requires
        0 <= j < n,
    ensures
        ({
            let cols = root_from(n, 1);
            &&& cols >= 1
            &&& 0 <= j % cols < cols
            &&& 0 <= j / cols <= (n - 1) / cols
            &&& 0int % cols == 0
            &&& 0int / cols == 0
        }),
{
    law_columns_are_the_root_rounded_up(n);
    let cols = root_from(n, 1);
    vstd::arithmetic::div_mod::lemma_mod_bound(j, cols);
    vstd::arithmetic::div_mod::lemma_div_pos_is_pos(j, cols);
    vstd::arithmetic::div_mod::lemma_div_is_ordered(j, n - 1, cols);
    vstd::arithmetic::div_mod::lemma_fundamental_div_mod_converse(0, cols, 0, 0);
}

/// The cells are at the corner of the layers or behind it, and not far.
proof fn lemma_cell(s: Seq<LayerView<Fixed>>, order: Seq<usize>, spacing: Fixed, j: int)
    requires
        is_order(s, order),
        fits_in_a_grid(s, order, spacing),
        0 <= j < order.len(),
    ensures
        ({
            let cols = root_from(order.len() as int, 1);
            let corner = top_left(s, order, order.len());
            let c = cell(s, order, cols, spacing, j);
            &&& -0x1400_0004 <= corner.x.raw <= c.x.raw <= 0x2800_0004
            &&& -0x1400_0004 <= corner.y.raw <= c.y.raw <= 0x2800_0004
            &&& cell(s, order, cols, spacing, 0) == corner
        }),
{
    reveal(cell);
    let n = order.len() as int;
    let cols = root_from(n, 1);
    let rows = (n - 1) / cols + 1;
    lemma_column_and_row(n, j);
    lemma_top_left(s, order, order.len());
    lemma_columns(s, order, cols, spacing, (j % cols) as nat, cols as nat);
    lemma_rows(s, order, cols, spacing, (j / cols) as nat, rows as nat);
}

/// Two layers in their cells are apart.
proof fn lemma_cells_apart(
    s: Seq<LayerView<Fixed>>,
    order: Seq<usize>,
    spacing: Fixed,
    j: int,
    k: int,
)
    requires
        is_order(s, order),
        fits_in_a_grid(s, order, spacing),
        0 <= j < k < order.len(),
    ensures
        ({
            let cols = root_from(order.len() as int, 1);
            let a = s[order[j] as int].frame.spec_rotated_bounds();
            let b = s[order[k] as int].frame.spec_rotated_bounds();
            let p = cell(s, order, cols, spacing, j);
            let q = cell(s, order, cols, spacing, k);
            ||| p.x.raw + a.max.x.raw - a.min.x.raw + spacing.raw <= q.x.raw
            ||| q.x.raw + b.max.x.raw - b.min.x.raw + spacing.raw <= p.x.raw
            ||| p.y.raw + a.max.y.raw - a.min.y.raw + spacing.raw <= q.y.raw
        }),
{
    reveal(cell);
    let n = order.len() as int;
    let cols = root_from(n, 1);
    let rows = (n - 1) / cols + 1;
    lemma_column_and_row(n, j);
    lemma_column_and_row(n, k);
    lemma_top_left(s, order, order.len());
    let cj = j % cols;
    let ck = k % cols;
    lemma_columns(s, order, cols, spacing, cj as nat, cols as nat);
    lemma_columns(s, order, cols, spacing, ck as nat, cols as nat);
    lemma_column_holds(s, order, cols, cj, order.len(), j);
    lemma_column_holds(s, order, cols, ck, order.len(), k);
    if cj < ck {
        lemma_columns(s, order, cols, spacing, cj as nat, ck as nat);
    } else if ck < cj {
        lemma_columns(s, order, cols, spacing, ck as nat, cj as nat);
    } else {
        let rj = j / cols;
        let rk = k / cols;
        vstd::arithmetic::div_mod::lemma_fundamental_div_mod(j, cols);
        vstd::arithmetic::div_mod::lemma_fundamental_div_mod(k, cols);
        vstd::arithmetic::div_mod::lemma_div_is_ordered(j, k, cols);
        assert(rj != rk);
        lemma_rows(s, order, cols, spacing, rk as nat, rows as nat);
        lemma_row_holds(s, order, cols, rj, order.len(), j);
        lemma_rows(s, order, cols, spacing, rj as nat, rk as nat);
    }
}

/// Whether the first `k` layers of `order` are in their cells, as large as they were.
#[verifier::opaque]
spec fn in_cells(
    s: Seq<LayerView<Fixed>>,
    t: Seq<LayerView<Fixed>>,
    order: Seq<usize>,
    cols: int,
    spacing: Fixed,
    k: int,
) -> bool {
    forall|j: int|
        0 <= j < k ==> sits_at(
            s[#[trigger] order[j] as int].frame.spec_rotated_bounds(),
            t[order[j] as int].frame.spec_rotated_bounds(),
            cell(s, order, cols, spacing, j),
        )
}

/// Whether a box is another one put at a place.
spec fn sits_at(old_box: Rect<Fixed>, b: Rect<Fixed>, p: Pos2<Fixed>) -> bool {
    &&& b.min == p
    &&& b.max.x.raw == p.x.raw + old_box.max.x.raw - old_box.min.x.raw
    &&& b.max.y.raw == p.y.raw + old_box.max.y.raw - old_box.min.y.raw
}

proof fn lemma_put_at(f: Frame<Fixed>, p: Pos2<Fixed>)
    requires
        is_compact(f),
        -0x2900_0000 <= p.x.raw <= 0x2900_0000,
        -0x2900_0000 <= p.y.raw <= 0x2900_0000,
    ensures
        sits_at(
            f.spec_rotated_bounds(),
            f.spec_moved(p.spec_from(f.spec_rotated_bounds().min)).spec_rotated_bounds(),
            p,
        ),
{
    lemma_compact_box(f);
    lemma_box_moves(f, p.spec_from(f.spec_rotated_bounds().min));
}

/// Where the layers of `order` are after the first `k` were put into their cells.
proof fn lemma_placed(s: Seq<LayerView<Fixed>>, order: Seq<usize>, spacing: Fixed, k: nat)
    requires
        is_order(s, order),
        fits_in_a_grid(s, order, spacing),
        k <= order.len(),
    ensures
        ({
            let cols = root_from(order.len() as int, 1);
            let t = placed(s, order, cols, spacing, k);
            &&& t.len() == s.len()
            &&& in_cells(s, t, order, cols, spacing, k as int)
            &&& forall|j: int| k <= j < order.len() ==> t[#[trigger] order[j] as int]
                == s[order[j] as int]
        }),
    decreases k,
{
    reveal(in_cells);
    let cols = root_from(order.len() as int, 1);
    if k > 0 {
        lemma_placed(s, order, spacing, (k - 1) as nat);
        let t = placed(s, order, cols, spacing, (k - 1) as nat);
        let u = placed(s, order, cols, spacing, k);
        let i = order[k - 1] as int;
        let c = cell(s, order, cols, spacing, k - 1);
        assert(order[k - 1] < s.len());
        assert(t[i] == s[i]);
        lemma_cell(s, order, spacing, k - 1);
        lemma_put_at(s[i].frame, c);
        assert(u == t.update(
            i,
            t[i].with_frame(t[i].frame.spec_moved(c.spec_from(t[i].frame.spec_rotated_bounds().min))),
        )) by {
            reveal(cell);
        }
        assert forall|j: int| 0 <= j < order.len() && j != k - 1 implies u[#[trigger] order[j] as int]
            == t[order[j] as int] by {
            assert(order[j] != order[k - 1]);
            assert(order[j] < s.len());
        }
    }
}

/// The corner of layers in their cells is that of the first cell.
proof fn lemma_corner_stays(
    s: Seq<LayerView<Fixed>>,
    t: Seq<LayerView<Fixed>>,
    order: Seq<usize>,
    spacing: Fixed,
    k: nat,
)
    requires
        is_order(s, order),
        fits_in_a_grid(s, order, spacing),
        in_cells(s, t, order, root_from(order.len() as int, 1), spacing, order.len() as int),
        1 <= k <= order.len(),
    ensures
        top_left(t, order, k) == top_left(s, order, order.len()),
    decreases k,
{
    reveal(in_cells);
    assert(order[k - 1] < s.len());
    lemma_cell(s, order, spacing, k - 1);
    if k > 1 {
        lemma_corner_stays(s, t, order, spacing, (k - 1) as nat);
    }
}

/// Once layers were tidied, no two of the boxes around them overlap: they are at least the spacing
/// apart.
pub proof fn law_tidied_layers_are_apart(
    s: Seq<LayerView<Fixed>>,
    ids: Seq<LayerId>,
    spacing: Fixed,
    j: int,
    k: int,
)
    requires
        ids.len() >= 2,
        home(s, ids) is Some,
        ({
            let list = list_at(s, home(s, ids)->0);
            let order = reading(list, ids);
            &&& list.len() <= usize::MAX
            &&& are_compact(list, ids)
            &&& fits_in_a_grid(list, order, spacing)
            &&& 0 <= j < k < order.len()
        }),
    ensures
        ({
            let p = home(s, ids)->0;
            let order = reading(list_at(s, p), ids);
            let after = list_at(tidied(s, ids, spacing), p);
            are_apart(
                after[order[j] as int].frame.spec_rotated_bounds(),
                after[order[k] as int].frame.spec_rotated_bounds(),
                spacing,
            )
        }),
{
    let p = home(s, ids)->0;
    let list = list_at(s, p);
    let order = reading(list, ids);
    lemma_home(s, ids);
    lemma_with_list_at(s, p, tidied_list(list, ids, spacing));
    lemma_is_order(list, ids, reading_keys(list));
    lemma_placed(list, order, spacing, order.len());
    lemma_cells_apart(list, order, spacing, j, k);
    reveal(in_cells);
    assert(order[j] < list.len() && order[k] < list.len());
}

/// Tidying leaves the corner of the layers, the least that any of the boxes around them begin at
/// across and down, where it was.
pub proof fn law_tidying_keeps_the_corner(
    s: Seq<LayerView<Fixed>>,
    ids: Seq<LayerId>,
    spacing: Fixed,
)
    requires
        ids.len() >= 2,
        home(s, ids) is Some,
        ({
            let list = list_at(s, home(s, ids)->0);
            &&& list.len() <= usize::MAX
            &&& are_compact(list, ids)
            &&& fits_in_a_grid(list, reading(list, ids), spacing)
        }),
    ensures
        ({
            let p = home(s, ids)->0;
            let order = reading(list_at(s, p), ids);
            top_left(list_at(tidied(s, ids, spacing), p), order, order.len()) == top_left(
                list_at(s, p),
                order,
                order.len(),
            )
        }),
{
    let p = home(s, ids)->0;
    let list = list_at(s, p);
    let order = reading(list, ids);
    lemma_home(s, ids);
    lemma_with_list_at(s, p, tidied_list(list, ids, spacing));
    lemma_is_order(list, ids, reading_keys(list));
    lemma_placed(list, order, spacing, order.len());
    lemma_corner_stays(
        list,
        placed(list, order, root_from(order.len() as int, 1), spacing, order.len()),
        order,
        spacing,
        order.len(),
    );
}

/// The orders that distributing and tidying go by: no layer is before one that it follows along
/// the axis, or in reading order, and each named layer is in them once.
pub proof fn law_orders_are_sorted(
    s: Seq<LayerView<Fixed>>,
    ids: Seq<LayerId>,
    axis: DistributeAxis,
)
    requires
        s.len() <= usize::MAX,
    ensures
        is_sorted(along(s, ids, axis), axis_keys(s, axis)),
        is_sorted(reading(s, ids), reading_keys(s)),
        along(s, ids, axis).to_multiset() == picked_indices(s, ids, s.len()).to_multiset(),
        reading(s, ids).to_multiset() == picked_indices(s, ids, s.len()).to_multiset(),
{
    lemma_picked_indices(s, ids, s.len());
    law_sorting_sorts(picked_indices(s, ids, s.len()), axis_keys(s, axis));
    law_sorting_sorts(picked_indices(s, ids, s.len()), reading_keys(s));
}

} // verus!
