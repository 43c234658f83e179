//! Where layers are on the page, and which operations leave them there.
//!
//! A layer's position is relative to what holds it, so an operation that changes the holder has to
//! move the layer back. Numbers may be rounded or cut off at the end of their range; each law here
//! says of which sums it speaks.
use vstd::prelude::*;

use crate::arrangement::{is_compact, lemma_compact_box};
use crate::census::{how_many, lemma_many_at, lemma_many_removed};
use crate::fixed::Fixed;
use crate::geometry::{Pos2, Vec2};
use crate::grouping::{
    grouped, grouped_list, ids_of, kept, lemma_slot, moved, moved_back, picked, picks, skips, slot,
    ungrouped, ungrouped_list, union_bounds,
};
use crate::model::{KindView, LayerId, LayerView};
use crate::path_edit::{anchor_box, normalized};
use crate::scalar::Scalar;
use crate::transform::{refitted, refitted_all, tight_union};
use crate::tree::{
    home, home_from, holds, holds_all, lemma_home, lemma_position_is, lemma_with_list_at, list_at,
    valid_path, with_list_at,
};

verus! {

/// Whether a point taken back by `v` and moved by `v` again is where it was.
pub open spec fn comes_back<S: Scalar>(p: Pos2<S>, v: Vec2<S>) -> bool {
    p.spec_minus(v).spec_plus(v) == p
}

/// Whether a point inside something at `base` stays where it is when that something is moved by
/// `v` and the point is taken back by `v`.
pub open spec fn stays_put<S: Scalar>(base: Pos2<S>, v: Vec2<S>, inside: Pos2<S>) -> bool {
    base.spec_plus(v).spec_plus(inside.spec_minus(v).spec_to_vec2()) == base.spec_plus(
        inside.spec_to_vec2(),
    )
}

/// Whether the way from `origin` to `p` leads from `origin` to `p`.
pub open spec fn is_reached<S: Scalar>(origin: Pos2<S>, p: Pos2<S>) -> bool {
    origin.spec_plus(p.spec_minus(origin.spec_to_vec2()).spec_to_vec2()) == p
}

/// Whether a number is so far from the ends of its range that the sum and the difference of three
/// such numbers are within it.
pub open spec fn is_small(n: Fixed) -> bool {
    -0x2000_0000 <= n.raw <= 0x2000_0000
}

/// Numbers with sixteen binary places are added and taken away without loss, as long as they are
/// small.
pub proof fn law_small_numbers_add_up(p: Pos2<Fixed>, q: Pos2<Fixed>, v: Vec2<Fixed>)
    requires
        is_small(p.x) && is_small(p.y),
        is_small(q.x) && is_small(q.y),
        is_small(v.x) && is_small(v.y),
    ensures
        comes_back(p, v),
        stays_put(p, v, q),
        is_reached(p, q),
{
}

/// Whether the layers of the list that `ids` names stand next to each other.
#[verifier::opaque]
pub open spec fn are_neighbours<S>(s: Seq<LayerView<S>>, ids: Seq<LayerId>) -> bool {
    forall|i: int, j: int, k: int|
        #![trigger s[i], s[j], s[k]]
        0 <= i <= j <= k < s.len() && ids.contains(s[i].id) && ids.contains(s[k].id)
            ==> ids.contains(s[j].id)
}

proof fn lemma_nothing_picked<S>(s: Seq<LayerView<S>>, ids: Seq<LayerId>)
    requires
        forall|i: int| 0 <= i < s.len() ==> !ids.contains((#[trigger] s[i]).id),
    ensures
        picked(s, ids) == Seq::<LayerView<S>>::empty(),
        kept(s, ids) == s,
    decreases s.len(),
{
    reveal(Seq::filter);
    if s.len() > 0 {
        let t = s.drop_last();
        assert forall|i: int| 0 <= i < t.len() implies !ids.contains((#[trigger] t[i]).id) by {
            assert(s[i] == t[i]);
        }
        lemma_nothing_picked(t, ids);
        assert(!picks::<S>(ids)(s.last()));
        assert(skips::<S>(ids)(s.last()));
        assert(t.push(s.last()) =~= s);
    } else {
        assert(s =~= Seq::empty());
    }
}

/// The neighbours are so without the last layer of the list; and where that layer and another are
/// named, the one behind it is.
proof fn lemma_neighbours_in_front<S>(s: Seq<LayerView<S>>, ids: Seq<LayerId>)
    requires
        s.len() > 0,
        are_neighbours(s, ids),
    ensures
        are_neighbours(s.drop_last(), ids),
        ids.contains(s.last().id) && (exists|i: int|
            0 <= i < s.len() - 1 && ids.contains((#[trigger] s[i]).id)) ==> s.len() >= 2
            && ids.contains(s[s.len() - 2].id),
{
    reveal(are_neighbours);
    let t = s.drop_last();
    assert forall|i: int, j: int, k: int|
        #![trigger t[i], t[j], t[k]]
        0 <= i <= j <= k < t.len() && ids.contains(t[i].id) && ids.contains(
            t[k].id,
        ) implies ids.contains(t[j].id) by {
        assert(s[i] == t[i] && s[j] == t[j] && s[k] == t[k]);
    }
    if ids.contains(s.last().id) && exists|i: int|
        0 <= i < s.len() - 1 && ids.contains((#[trigger] s[i]).id) {
        let i = choose|i: int| 0 <= i < s.len() - 1 && ids.contains((#[trigger] s[i]).id);
        assert(ids.contains(s[s.len() - 1].id));
        assert(ids.contains(s[s.len() - 2].id));
    }
}

/// What is picked, kept and behind the frontmost named layer, with one layer more in the list.
proof fn lemma_one_more<S>(t: Seq<LayerView<S>>, x: LayerView<S>, ids: Seq<LayerId>)
    ensures
        ids.contains(x.id) ==> picked(t.push(x), ids) == picked(t, ids).push(x) && kept(
            t.push(x),
            ids,
        ) == kept(t, ids) && slot(t.push(x), ids) == kept(t, ids).len(),
        !ids.contains(x.id) ==> picked(t.push(x), ids) == picked(t, ids) && kept(t.push(x), ids)
            == kept(t, ids).push(x) && slot(t.push(x), ids) == slot(t, ids),
{
    reveal(Seq::filter);
    let s = t.push(x);
    assert(s.drop_last() =~= t);
    assert(s.last() == x);
    assert(picks::<S>(ids)(x) == ids.contains(x.id));
    assert(skips::<S>(ids)(x) == !ids.contains(x.id));
}

proof fn lemma_last_picked<A>(k: Seq<A>, p: Seq<A>, x: A)
    ensures
        k.take(k.len() as int) + p.push(x) + k.skip(k.len() as int) == (k + p).push(x),
{
    assert(k.take(k.len() as int) + p.push(x) + k.skip(k.len() as int) =~= (k + p).push(x));
}

proof fn lemma_last_kept<A>(k: Seq<A>, p: Seq<A>, at: int, x: A)
    requires
        0 <= at <= k.len(),
    ensures
        k.push(x).take(at) + p + k.push(x).skip(at) == (k.take(at) + p + k.skip(at)).push(x),
{
    assert(k.push(x).take(at) + p + k.push(x).skip(at) =~= (k.take(at) + p + k.skip(at)).push(x));
}

proof fn lemma_nothing_behind<A>(k: Seq<A>, p: Seq<A>)
    ensures
        k.take(k.len() as int) + p + k.skip(k.len() as int) == k + p,
        k + Seq::empty() == k,
{
    assert(k.take(k.len() as int) + p + k.skip(k.len() as int) =~= k + p);
    assert(k + Seq::empty() =~= k);
}

/// The picked layers put back where the frontmost of them was, among those that stayed.
#[verifier::opaque]
spec fn put_back<S>(s: Seq<LayerView<S>>, ids: Seq<LayerId>) -> Seq<LayerView<S>> {
    kept(s, ids).take(slot(s, ids)) + picked(s, ids) + kept(s, ids).skip(slot(s, ids))
}

proof fn lemma_put_back_kept<S>(t: Seq<LayerView<S>>, x: LayerView<S>, ids: Seq<LayerId>)
    requires
        !ids.contains(x.id),
    ensures
        put_back(t.push(x), ids) == put_back(t, ids).push(x),
{
    reveal(put_back);
    lemma_one_more(t, x, ids);
    lemma_slot(t, ids);
    lemma_last_kept(kept(t, ids), picked(t, ids), slot(t, ids), x);
}

proof fn lemma_put_back_picked<S>(t: Seq<LayerView<S>>, x: LayerView<S>, ids: Seq<LayerId>)
    requires
        ids.contains(x.id),
    ensures
        put_back(t.push(x), ids) == (kept(t, ids) + picked(t, ids)).push(x),
        slot(t, ids) == kept(t, ids).len() ==> put_back(t, ids) == kept(t, ids) + picked(t, ids),
{
    reveal(put_back);
    lemma_one_more(t, x, ids);
    lemma_last_picked(kept(t, ids), picked(t, ids), x);
    lemma_nothing_behind(kept(t, ids), picked(t, ids));
}

/// Where the last layer is named, and those before it were put back, it is put back behind them.
proof fn lemma_last_put_back<S>(t: Seq<LayerView<S>>, x: LayerView<S>, ids: Seq<LayerId>)
    requires
        ids.contains(x.id),
        put_back(t, ids) == t,
        (exists|i: int| 0 <= i < t.len() && ids.contains((#[trigger] t[i]).id)) ==> t.len() > 0
            && ids.contains(t.last().id),
    ensures
        put_back(t.push(x), ids) == t.push(x),
{
    lemma_put_back_picked(t, x, ids);
    if exists|i: int| 0 <= i < t.len() && ids.contains((#[trigger] t[i]).id) {
        let u = t.drop_last();
        assert(u.push(t.last()) =~= t);
        lemma_one_more(u, t.last(), ids);
    } else {
        lemma_nothing_picked(t, ids);
        lemma_nothing_behind(t, t);
    }
}

/// Neighbours put back where the frontmost of them was, among those that stayed, give the list.
proof fn lemma_neighbours_put_back<S>(s: Seq<LayerView<S>>, ids: Seq<LayerId>)
    requires
        are_neighbours(s, ids),
    ensures
        put_back(s, ids) == s,
    decreases s.len(),
{
    if s.len() == 0 {
        reveal(put_back);
        lemma_nothing_picked(s, ids);
        assert(put_back(s, ids) =~= s);
    } else {
        let t = s.drop_last();
        let x = s.last();
        assert(t.push(x) =~= s);
        lemma_neighbours_in_front(s, ids);
        lemma_neighbours_put_back(t, ids);
        if ids.contains(x.id) {
            assert((exists|i: int| 0 <= i < t.len() && ids.contains((#[trigger] t[i]).id))
                ==> t.len() > 0 && ids.contains(t.last().id)) by {
                if exists|i: int| 0 <= i < t.len() && ids.contains((#[trigger] t[i]).id) {
                    let i = choose|i: int| 0 <= i < t.len() && ids.contains((#[trigger] t[i]).id);
                    assert(ids.contains(s[i].id));
                }
            }
            lemma_last_put_back(t, x, ids);
        } else {
            lemma_put_back_kept(t, x, ids);
        }
    }
}

/// A list holds no layer with an id that nothing bears.
proof fn lemma_unborne_is_not_held<S>(s: Seq<LayerView<S>>, path: Seq<int>, id: LayerId)
    requires
        valid_path(s, path),
        how_many(s, id) == 0,
    ensures
        !holds(list_at(s, path), id),
        how_many(list_at(s, path), id) == 0,
{
    let list = list_at(s, path);
    lemma_many_at(s, path, Seq::empty(), id);
    if holds(list, id) {
        let i = choose|i: int| 0 <= i < list.len() && (#[trigger] list[i]).id == id;
        lemma_many_removed(list, i, id);
    }
}

/// A layer with an id that nothing else bears is found in the list that it was put into.
proof fn lemma_new_home<S>(
    s: Seq<LayerView<S>>,
    path: Seq<int>,
    list: Seq<LayerView<S>>,
    id: LayerId,
)
    requires
        valid_path(s, path),
        how_many(s, id) == 0,
        holds(list, id),
    ensures
        home(with_list_at(s, path, list), seq![id]) == Some(path),
    decreases path.len(),
{
    let t = with_list_at(s, path, list);
    assert(seq![id][0] == id);
    if path.len() == 0 {
        assert(holds_all(t, seq![id]));
        assert(path =~= Seq::empty());
    } else {
        let k = path[0];
        let rest = path.drop_first();
        lemma_unborne_is_not_held(s, Seq::empty(), id);
        assert(list_at(s, Seq::<int>::empty()) == s);
        lemma_inside_unborne(s, k, id);
        lemma_new_home(s[k].children, rest, list, id);
        assert(!holds_all(t, seq![id])) by {
            assert(!holds(t, id)) by {
                if holds(t, id) {
                    let i = choose|i: int| 0 <= i < t.len() && (#[trigger] t[i]).id == id;
                    assert(s[i].id == id);
                }
            }
        }
        lemma_home_is_at(s, t, id, 0, k, rest);
        assert(seq![k] + rest =~= path);
    }
}

/// What a layer holds bears no id that nothing bears.
proof fn lemma_inside_unborne<S>(s: Seq<LayerView<S>>, k: int, id: LayerId)
    requires
        0 <= k < s.len(),
        how_many(s, id) == 0,
    ensures
        how_many(s[k].children, id) == 0,
{
    lemma_many_removed(s, k, id);
}

proof fn lemma_home_is_at<S>(
    s: Seq<LayerView<S>>,
    t: Seq<LayerView<S>>,
    id: LayerId,
    from: int,
    k: int,
    rest: Seq<int>,
)
    requires
        0 <= from <= k < s.len(),
        t.len() == s.len(),
        forall|j: int| 0 <= j < k ==> t[j] == #[trigger] s[j],
        how_many(s, id) == 0,
        t[k].is_container(),
        home(t[k].children, seq![id]) == Some(rest),
    ensures
        home_from(t, seq![id], from as nat) == Some(seq![k] + rest),
    decreases k - from,
{
    if from < k {
        assert(t[from] == s[from]);
        lemma_inside_unborne(s, from, id);
        let inner = s[from].children;
        lemma_home(inner, seq![id]);
        if let Some(p) = home(inner, seq![id]) {
            lemma_unborne_is_not_held(inner, p, id);
            assert(seq![id][0] == id);
            assert(holds(list_at(inner, p), seq![id][0]));
        }
        lemma_home_is_at(s, t, id, from + 1, k, rest);
    }
}

/// Ungrouping a group of neighbours gives back the layers as they were before they were grouped,
/// and selects them in their order; each of their positions has to come back when the group's is
/// taken off it and added again.
pub proof fn law_ungrouping_neighbours_restores_all<S: Scalar>(
    s: Seq<LayerView<S>>,
    ids: Seq<LayerId>,
    group_id: LayerId,
)
    requires
        how_many(s, group_id) == 0,
        grouped(s, ids, group_id) is Some,
        ({
            let list = list_at(s, home(s, ids)->0);
            let v = union_bounds(picked(list, ids)).min.spec_to_vec2();
            &&& are_neighbours(list, ids)
            &&& forall|i: int|
                0 <= i < picked(list, ids).len() ==> comes_back(
                    (#[trigger] picked(list, ids)[i]).frame.pos,
                    v,
                )
        }),
    ensures
        ungrouped(grouped(s, ids, group_id)->0, group_id) == Some(
            (s, ids_of(picked(list_at(s, home(s, ids)->0), ids))),
        ),
{
    lemma_home(s, ids);
    let p = home(s, ids)->0;
    let list = list_at(s, p);
    let g = grouped_list(list, ids, group_id);
    let at = slot(list, ids);
    let chosen = picked(list, ids);
    let v = union_bounds(chosen).min.spec_to_vec2();
    lemma_slot(list, ids);
    lemma_unborne_is_not_held(s, p, group_id);
    assert(g[at].id == group_id);
    assert(holds(g, group_id));
    lemma_new_home(s, p, g, group_id);
    lemma_with_list_at(s, p, g);
    assert forall|j: int| 0 <= j < at implies (#[trigger] g[j]).id != group_id by {
        let x = kept(list, ids)[j];
        assert(g[j] == x);
        assert(kept(list, ids).contains(x));
        list.lemma_filter_contains_rev(skips::<S>(ids), x);
        if x.id == group_id {
            let i = choose|i: int| 0 <= i < list.len() && list[i] == x;
            assert(list[i].id == group_id);
        }
    }
    lemma_position_is(g, group_id, at);
    assert(moved(moved_back(chosen, v), v) =~= chosen) by {
        assert forall|i: int| 0 <= i < chosen.len() implies moved(moved_back(chosen, v), v)[i]
            == chosen[i] by {
            assert(comes_back(chosen[i].frame.pos, v));
        }
    }
    assert(ids_of(moved_back(chosen, v)) =~= ids_of(chosen));
    assert(g.take(at) =~= kept(list, ids).take(at));
    assert(g.skip(at + 1) =~= kept(list, ids).skip(at));
    lemma_neighbours_put_back(list, ids);
    reveal(put_back);
    assert(ungrouped_list(g, at) == list);
}

/// Whether a layer is upright, and its position and size are so small that nothing is lost when
/// they are added up.
pub open spec fn is_small_and_upright(v: LayerView<Fixed>) -> bool {
    &&& v.frame.rotation.raw == 0
    &&& -0x1000_0000 <= v.frame.pos.x.raw <= 0x1000_0000
    &&& -0x1000_0000 <= v.frame.pos.y.raw <= 0x1000_0000
    &&& -0x1000_0000 <= v.frame.size.x.raw <= 0x1000_0000
    &&& -0x1000_0000 <= v.frame.size.y.raw <= 0x1000_0000
}

/// Whether a layer is upright and small, or turned and compact.
pub open spec fn adds_up(v: LayerView<Fixed>) -> bool {
    is_small_and_upright(v) || is_compact(v.frame)
}

/// The box around layers that add up begins at small numbers.
proof fn lemma_small_union(s: Seq<LayerView<Fixed>>)
    requires
        s.len() > 0,
        forall|i: int| 0 <= i < s.len() ==> adds_up(#[trigger] s[i]),
    ensures
        is_small(union_bounds(s).min.x),
        is_small(union_bounds(s).min.y),
    decreases s.len(),
{
    let last = s[s.len() - 1];
    assert(adds_up(last));
    let b = last.frame.spec_rotated_bounds();
    if is_compact(last.frame) {
        lemma_compact_box(last.frame);
    } else {
        assert(b == last.frame.spec_bounds());
    }
    assert(is_small(b.min.x) && is_small(b.min.y));
    if s.len() > 1 {
        let t = s.drop_last();
        assert forall|i: int| 0 <= i < t.len() implies adds_up(#[trigger] t[i]) by {
            assert(t[i] == s[i]);
        }
        lemma_small_union(t);
    }
}

/// Grouping neighbours and ungrouping them again gives the page as it was, and selects them in
/// their order: of numbers with sixteen binary places, wherever the neighbours are within two
/// thousand units of the corner, or upright and within four thousand.
pub proof fn law_ungrouping_undoes_grouping_exactly(
    s: Seq<LayerView<Fixed>>,
    ids: Seq<LayerId>,
    group_id: LayerId,
)
    requires
        how_many(s, group_id) == 0,
        grouped(s, ids, group_id) is Some,
        are_neighbours(list_at(s, home(s, ids)->0), ids),
        forall|i: int|
            0 <= i < picked(list_at(s, home(s, ids)->0), ids).len() ==> adds_up(
                #[trigger] picked(list_at(s, home(s, ids)->0), ids)[i],
            ),
    ensures
        ungrouped(grouped(s, ids, group_id)->0, group_id) == Some(
            (s, ids_of(picked(list_at(s, home(s, ids)->0), ids))),
        ),
{
    let chosen = picked(list_at(s, home(s, ids)->0), ids);
    let v = union_bounds(chosen).min.spec_to_vec2();
    assert forall|i: int| 0 <= i < chosen.len() implies comes_back(
        (#[trigger] chosen[i]).frame.pos,
        v,
    ) by {
        assert(adds_up(chosen[i]));
        lemma_small_union(chosen);
        law_small_numbers_add_up(chosen[i].frame.pos, chosen[i].frame.pos, v);
    }
    law_ungrouping_neighbours_restores_all(s, ids, group_id);
}

/// A container that is fitted to what it holds moves nothing on the page: each member is where its
/// own fitting left it.
pub proof fn law_refitting_moves_nothing<S: Scalar>(v: LayerView<S>, i: int)
    requires
        v.is_container(),
        0 <= i < v.children.len(),
        stays_put(
            v.frame.pos,
            tight_union(refitted_all(v.children)).min.spec_to_vec2(),
            refitted(v.children[i]).frame.pos,
        ),
    ensures
        refitted(v).children.len() == v.children.len(),
        refitted(v).children[i].id == v.children[i].id,
        refitted(v).frame.pos.spec_plus(refitted(v).children[i].frame.pos.spec_to_vec2())
            == v.frame.pos.spec_plus(refitted(v.children[i]).frame.pos.spec_to_vec2()),
{
    crate::transform::lemma_refitted_all(v.children);
}

/// A path whose frame is fitted to its anchors keeps each of them where it was.
pub proof fn law_normalizing_moves_no_anchor<S: Scalar>(v: LayerView<S>, i: int)
    requires
        v.kind matches KindView::Path { points, .. } && 0 <= i < points.len() && is_reached(
            anchor_box(points, v.frame.pos).min,
            v.frame.pos.spec_plus(points[i].anchor.spec_to_vec2()),
        ),
    ensures
        normalized(v).kind matches KindView::Path { points, .. }
            && normalized(v).frame.pos.spec_plus(points[i].anchor.spec_to_vec2())
            == v.frame.pos.spec_plus(v.kind->Path_points[i].anchor.spec_to_vec2()),
{
}

} // verus!
