//! How many layers of a tree bear an id, and that no operation loses a layer or makes two alike.
use vstd::prelude::*;

use crate::document::without;
use crate::geometry::Vec2;
use crate::grouping::{
    at_home, can_copy, can_copy_all, copied, copied_once, copy_of, grouped, grouped_list, kept,
    lemma_slot, min_int, moved, moved_back, moved_layer, picked, picks, skips, slot, ungrouped,
    ungrouped_list, union_bounds, wrapped,
};
use crate::model::{count, count_all, renumbered, renumbered_all, KindView, LayerId, LayerView};
use crate::scalar::Scalar;
use crate::tree::{
    find, home, lemma_home, lemma_position, list_at, owner_at, position, replace, valid_path,
    with_list_at,
};

verus! {

/// How many of the layers, and of all that they hold, bear the id.
pub open spec fn how_many<S>(s: Seq<LayerView<S>>, id: LayerId) -> nat
    decreases s,
{
    if s.len() == 0 {
        0
    } else {
        how_many(s.drop_last(), id) + bearers(s.last(), id)
    }
}

/// How many bear the id, of a layer and all that it holds.
pub open spec fn bearers<S>(v: LayerView<S>, id: LayerId) -> nat
    decreases v,
{
    how_many(v.children, id) + if v.id == id {
        1nat
    } else {
        0
    }
}

/// Whether every id is borne at most once, and none from `next` on.
pub open spec fn distinct<S>(s: Seq<LayerView<S>>, next: int) -> bool {
    forall|id: LayerId| #[trigger]
        how_many(s, id) <= if id < next {
            1nat
        } else {
            0
        }
}

proof fn lemma_many_joined<S>(a: Seq<LayerView<S>>, b: Seq<LayerView<S>>, id: LayerId)
    ensures
        how_many(a + b, id) == how_many(a, id) + how_many(b, id),
    decreases b.len(),
{
    if b.len() == 0 {
        assert(a + b =~= a);
    } else {
        assert((a + b).drop_last() =~= a + b.drop_last());
        lemma_many_joined(a, b.drop_last(), id);
    }
}

proof fn lemma_many_alone<S>(v: LayerView<S>, id: LayerId)
    ensures
        how_many(seq![v], id) == bearers(v, id),
{
    assert(seq![v].drop_last() =~= Seq::empty());
    assert(how_many(seq![v].drop_last(), id) == 0);
}

proof fn lemma_many_inserted<S>(s: Seq<LayerView<S>>, k: int, v: LayerView<S>, id: LayerId)
    requires
        0 <= k <= s.len(),
    ensures
        how_many(s.insert(k, v), id) == how_many(s, id) + bearers(v, id),
{
    assert(s.insert(k, v) =~= s.take(k) + seq![v] + s.skip(k));
    assert(s =~= s.take(k) + s.skip(k));
    lemma_many_joined(s.take(k), s.skip(k), id);
    lemma_many_joined(s.take(k), seq![v], id);
    lemma_many_joined(s.take(k) + seq![v], s.skip(k), id);
    lemma_many_alone(v, id);
}

pub proof fn lemma_many_removed<S>(s: Seq<LayerView<S>>, k: int, id: LayerId)
    requires
        0 <= k < s.len(),
    ensures
        how_many(s.remove(k), id) + bearers(s[k], id) == how_many(s, id),
{
    assert(s.remove(k).insert(k, s[k]) =~= s);
    lemma_many_inserted(s.remove(k), k, s[k], id);
}

proof fn lemma_many_updated<S>(s: Seq<LayerView<S>>, k: int, v: LayerView<S>, id: LayerId)
    requires
        0 <= k < s.len(),
    ensures
        how_many(s.update(k, v), id) + bearers(s[k], id) == how_many(s, id) + bearers(v, id),
{
    assert(s.update(k, v) =~= s.remove(k).insert(k, v));
    lemma_many_removed(s, k, id);
    lemma_many_inserted(s.remove(k), k, v, id);
}

pub proof fn lemma_many_at<S>(
    s: Seq<LayerView<S>>,
    path: Seq<int>,
    list: Seq<LayerView<S>>,
    id: LayerId,
)
    requires
        valid_path(s, path),
    ensures
        how_many(with_list_at(s, path, list), id) + how_many(list_at(s, path), id) == how_many(
            s,
            id,
        ) + how_many(list, id),
    decreases path.len(),
{
    if path.len() > 0 {
        let k = path[0];
        lemma_many_at(s[k].children, path.drop_first(), list, id);
        let v = s[k].with_children(with_list_at(s[k].children, path.drop_first(), list));
        lemma_many_updated(s, k, v, id);
    }
}

proof fn lemma_many_replaced<S>(
    s: Seq<LayerView<S>>,
    wanted: LayerId,
    v: LayerView<S>,
    id: LayerId,
)
    requires
        find(s, wanted) is Some,
    ensures
        how_many(replace(s, wanted, v), id) + bearers(find(s, wanted)->0, id) == how_many(s, id)
            + bearers(v, id),
    decreases s,
{
    if s[0].id == wanted {
        lemma_many_updated(s, 0, v, id);
    } else if find(s[0].children, wanted) is Some {
        lemma_many_replaced(s[0].children, wanted, v, id);
        let w = s[0].with_children(replace(s[0].children, wanted, v));
        lemma_many_updated(s, 0, w, id);
    } else {
        let t = s.drop_first();
        lemma_many_replaced(t, wanted, v, id);
        lemma_many_joined(seq![s[0]], replace(t, wanted, v), id);
        lemma_many_joined(seq![s[0]], t, id);
        assert(seq![s[0]] + t =~= s);
    }
}

proof fn lemma_many_parted<S>(s: Seq<LayerView<S>>, ids: Seq<LayerId>, id: LayerId)
    ensures
        how_many(picked(s, ids), id) + how_many(kept(s, ids), id) == how_many(s, id),
    decreases s.len(),
{
    reveal(Seq::filter);
    if s.len() > 0 {
        let t = s.drop_last();
        let v = s.last();
        lemma_many_parted(t, ids, id);
        assert(picks::<S>(ids)(v) == ids.contains(v.id));
        assert(skips::<S>(ids)(v) == !ids.contains(v.id));
        if ids.contains(v.id) {
            assert(picked(s, ids).drop_last() =~= picked(t, ids));
        } else {
            assert(kept(s, ids).drop_last() =~= kept(t, ids));
        }
    }
}

proof fn lemma_many_moved_back<S: Scalar>(s: Seq<LayerView<S>>, v: Vec2<S>, id: LayerId)
    ensures
        how_many(moved_back(s, v), id) == how_many(s, id),
    decreases s.len(),
{
    if s.len() > 0 {
        assert(moved_back(s, v).drop_last() =~= moved_back(s.drop_last(), v));
        lemma_many_moved_back(s.drop_last(), v, id);
        assert(bearers(moved_back(s, v).last(), id) == bearers(s.last(), id));
    }
}

proof fn lemma_many_moved<S: Scalar>(s: Seq<LayerView<S>>, v: Vec2<S>, id: LayerId)
    ensures
        how_many(moved(s, v), id) == how_many(s, id),
    decreases s.len(),
{
    if s.len() > 0 {
        assert(moved(s, v).drop_last() =~= moved(s.drop_last(), v));
        lemma_many_moved(s.drop_last(), v, id);
        assert(bearers(moved(s, v).last(), id) == bearers(s.last(), id));
    }
}

proof fn lemma_many_renumbered<S>(v: LayerView<S>, n: int, id: LayerId)
    requires
        0 <= n,
        n + count(v) <= u64::MAX + 1,
    ensures
        bearers(renumbered(v, n), id) == if n <= id < n + count(v) {
            1nat
        } else {
            0
        },
    decreases v,
{
    lemma_many_renumbered_all(v.children, n + 1, id);
}

proof fn lemma_many_renumbered_all<S>(s: Seq<LayerView<S>>, n: int, id: LayerId)
    requires
        0 <= n,
        n + count_all(s) <= u64::MAX + 1,
    ensures
        how_many(renumbered_all(s, n), id) == if n <= id < n + count_all(s) {
            1nat
        } else {
            0
        },
    decreases s,
{
    if s.len() > 0 {
        let t = s.drop_last();
        lemma_many_renumbered_all(t, n, id);
        lemma_many_renumbered(s.last(), n + count_all(t), id);
        assert(renumbered_all(s, n).drop_last() =~= renumbered_all(t, n));
    }
}

/// Grouping loses no layer and adds none but the group.
pub proof fn law_grouping_keeps_every_layer<S: Scalar>(
    s: Seq<LayerView<S>>,
    ids: Seq<LayerId>,
    group_id: LayerId,
    id: LayerId,
)
    requires
        grouped(s, ids, group_id) is Some,
    ensures
        how_many(grouped(s, ids, group_id)->0, id) == how_many(s, id) + if id == group_id {
            1nat
        } else {
            0
        },
{
    lemma_home(s, ids);
    let p = home(s, ids)->0;
    let list = list_at(s, p);
    let g = grouped_list(list, ids, group_id);
    lemma_many_at(s, p, g, id);
    lemma_many_parted(list, ids, id);
    lemma_slot(list, ids);
    let v = wrapped(
        group_id,
        "Group"@,
        KindView::Group,
        picked(list, ids),
    );
    lemma_many_inserted(kept(list, ids), slot(list, ids), v, id);
    lemma_many_moved_back(
        picked(list, ids),
        union_bounds(picked(list, ids)).min.spec_to_vec2(),
        id,
    );
}

/// Ungrouping loses no layer but the group and adds none.
pub proof fn law_ungrouping_keeps_every_layer<S: Scalar>(
    s: Seq<LayerView<S>>,
    group_id: LayerId,
    id: LayerId,
)
    requires
        ungrouped(s, group_id) is Some,
    ensures
        how_many(ungrouped(s, group_id).unwrap().0, id) + (if id == group_id {
            1nat
        } else {
            0
        }) == how_many(s, id),
{
    lemma_home(s, seq![group_id]);
    let p = home(s, seq![group_id])->0;
    let list = list_at(s, p);
    assert(seq![group_id][0] == group_id);
    assert(seq![group_id].contains(group_id));
    lemma_position(list, group_id);
    let k = position(list, group_id);
    let members = moved(list[k].children, list[k].frame.pos.spec_to_vec2());
    lemma_many_at(s, p, ungrouped_list(list, k), id);
    lemma_many_joined(list.take(k), members, id);
    lemma_many_joined(list.take(k) + members, list.skip(k + 1), id);
    lemma_many_joined(list.take(k), list.skip(k + 1), id);
    assert(list.remove(k) =~= list.take(k) + list.skip(k + 1));
    lemma_many_removed(list, k, id);
    lemma_many_moved(list[k].children, list[k].frame.pos.spec_to_vec2(), id);
}

/// Ungrouping the group that a list's layers were gathered in puts them, in their order, where the
/// frontmost of them was; each was moved back by the group's place and forth by it again.
pub proof fn law_ungrouping_undoes_grouping<S: Scalar>(
    s: Seq<LayerView<S>>,
    ids: Seq<LayerId>,
    group_id: LayerId,
)
    ensures
        ({
            let at = slot(s, ids);
            let v = union_bounds(picked(s, ids)).min.spec_to_vec2();
            ungrouped_list(grouped_list(s, ids, group_id), at) == kept(s, ids).take(at) + moved(
                moved_back(picked(s, ids), v),
                v,
            ) + kept(s, ids).skip(at)
        }),
{
    lemma_slot(s, ids);
    let at = slot(s, ids);
    let g = grouped_list(s, ids, group_id);
    assert(g.take(at) =~= kept(s, ids).take(at));
    assert(g.skip(at + 1) =~= kept(s, ids).skip(at));
}

/// Moving a layer in the tree loses no layer and adds none.
pub proof fn law_moving_keeps_every_layer<S: Scalar>(
    s: Seq<LayerView<S>>,
    wanted: LayerId,
    new_parent: Option<LayerId>,
    index: int,
    id: LayerId,
)
    requires
        0 <= index,
    ensures
        how_many(moved_layer(s, wanted, new_parent, index), id) == how_many(s, id),
{
    lemma_home(s, seq![wanted]);
    if let Some(p) = home(s, seq![wanted]) {
        let list = list_at(s, p);
        assert(seq![wanted][0] == wanted);
        assert(seq![wanted].contains(wanted));
        lemma_position(list, wanted);
        let k = position(list, wanted);
        let t = with_list_at(s, p, list.remove(k));
        let i = if owner_at(s, p) == new_parent && k < index {
            index - 1
        } else {
            index
        };
        lemma_many_at(s, p, list.remove(k), id);
        lemma_many_removed(list, k, id);
        match new_parent {
            None => {
                lemma_many_inserted(t, min_int(i, t.len() as int), list[k], id);
            },
            Some(pid) => {
                if let Some(q) = find(t, pid) {
                    let at = min_int(i, q.children.len() as int);
                    let w = q.with_children(q.children.insert(at, list[k]));
                    lemma_many_replaced(t, pid, w, id);
                    lemma_many_inserted(q.children, at, list[k], id);
                }
            },
        }
    }
}

/// Removing a layer loses that layer and what it holds, and nothing else.
pub proof fn law_removing_loses_nothing_else<S: Scalar>(
    s: Seq<LayerView<S>>,
    wanted: LayerId,
    id: LayerId,
)
    ensures
        how_many(s, id) == how_many(without(s, wanted), id) + match at_home(s, wanted) {
            Some(v) => bearers(v, id),
            None => 0,
        },
{
    lemma_home(s, seq![wanted]);
    if let Some(p) = home(s, seq![wanted]) {
        let list = list_at(s, p);
        assert(seq![wanted][0] == wanted);
        assert(seq![wanted].contains(wanted));
        lemma_position(list, wanted);
        let k = position(list, wanted);
        lemma_many_at(s, p, list.remove(k), id);
        lemma_many_removed(list, k, id);
    }
}

proof fn lemma_many_copied_once<S: Scalar>(
    s: Seq<LayerView<S>>,
    wanted: LayerId,
    offset: Vec2<S>,
    below: bool,
    n: int,
    id: LayerId,
)
    requires
        0 <= n,
        at_home(s, wanted) matches Some(v) ==> can_copy(v, n),
    ensures
        how_many(copied_once(s, wanted, offset, below, n), id) == how_many(s, id) + (match at_home(
            s,
            wanted,
        ) {
            Some(v) => if n <= id < n + count(v) {
                1nat
            } else {
                0
            },
            None => 0,
        }),
{
    lemma_home(s, seq![wanted]);
    if let Some(p) = home(s, seq![wanted]) {
        let list = list_at(s, p);
        assert(seq![wanted][0] == wanted);
        assert(seq![wanted].contains(wanted));
        lemma_position(list, wanted);
        let k = position(list, wanted);
        let at = if below {
            k
        } else {
            k + 1
        };
        let c = copy_of(list[k], n, offset);
        lemma_many_at(s, p, list.insert(at, c), id);
        lemma_many_inserted(list, at, c, id);
        lemma_many_renumbered(list[k], n, id);
        assert(bearers(c, id) == bearers(renumbered(list[k], n), id));
    }
}

/// Copying keeps every layer: the copies bear exactly the ids from the first unused one to the
/// next unused one, each once.
pub proof fn law_copying_only_adds<S: Scalar>(
    s: Seq<LayerView<S>>,
    ids: Seq<LayerId>,
    offset: Vec2<S>,
    below: bool,
    n: int,
    id: LayerId,
)
    requires
        0 <= n,
        can_copy_all(s, ids, offset, below, n),
    ensures
        n <= copied(s, ids, offset, below, n).2,
        how_many(copied(s, ids, offset, below, n).0, id) == how_many(s, id) + (if n <= id < copied(
            s,
            ids,
            offset,
            below,
            n,
        ).2 {
            1nat
        } else {
            0
        }),
    decreases ids.len(),
{
    if ids.len() > 0 {
        let first = ids.drop_last();
        assert forall|k: int| #![trigger first[k]] 0 <= k < first.len() implies {
            let (t, _made, m) = copied(s, first.take(k), offset, below, n);
            at_home(t, first[k]) matches Some(v) ==> can_copy(v, m)
        } by {
            assert(first.take(k) =~= ids.take(k));
            assert(ids[k] == first[k]);
        }
        let (t, made, m) = copied(s, first, offset, below, n);
        law_copying_only_adds(s, first, offset, below, n, id);
        assert(ids.take(ids.len() - 1) =~= first);
        assert(ids[ids.len() - 1] == ids.last());
        lemma_many_copied_once(t, ids.last(), offset, below, m, id);
    }
}

/// Where every layer has an id of its own, below the next unused one, it is still so after
/// layers are grouped, ungrouped, moved, removed or copied.
pub proof fn law_ids_stay_distinct<S: Scalar>(
    s: Seq<LayerView<S>>,
    ids: Seq<LayerId>,
    wanted: LayerId,
    new_parent: Option<LayerId>,
    index: int,
    offset: Vec2<S>,
    below: bool,
    next: int,
)
    requires
        0 <= next < u64::MAX,
        0 <= index,
        distinct(s, next),
        can_copy_all(s, ids, offset, below, next),
    ensures
        grouped(s, ids, next as u64) matches Some(t) ==> distinct(t, next + 1),
        ungrouped(s, wanted) matches Some(r) ==> distinct(r.0, next),
        distinct(moved_layer(s, wanted, new_parent, index), next),
        distinct(without(s, wanted), next),
        distinct(
            copied(s, ids, offset, below, next).0,
            copied(s, ids, offset, below, next).2,
        ),
{
    if let Some(t) = grouped(s, ids, next as u64) {
        assert forall|id: LayerId| #[trigger] how_many(t, id) <= if id < next + 1 {
            1nat
        } else {
            0
        } by {
            law_grouping_keeps_every_layer(s, ids, next as u64, id);
            assert(how_many(s, id) <= 1);
        }
    }
    if let Some(r) = ungrouped(s, wanted) {
        assert forall|id: LayerId| #[trigger] how_many(r.0, id) <= if id < next {
            1nat
        } else {
            0
        } by {
            law_ungrouping_keeps_every_layer(s, wanted, id);
            assert(how_many(s, id) <= 1);
        }
    }
    let moved = moved_layer(s, wanted, new_parent, index);
    assert forall|id: LayerId| #[trigger] how_many(moved, id) <= if id < next {
        1nat
    } else {
        0
    } by {
        law_moving_keeps_every_layer(s, wanted, new_parent, index, id);
        assert(how_many(s, id) <= 1);
    }
    let rest = without(s, wanted);
    assert forall|id: LayerId| #[trigger] how_many(rest, id) <= if id < next {
        1nat
    } else {
        0
    } by {
        law_removing_loses_nothing_else(s, wanted, id);
        assert(how_many(s, id) <= 1);
    }
    let (t, made, m) = copied(s, ids, offset, below, next);
    assert forall|id: LayerId| #[trigger] how_many(t, id) <= if id < m {
        1nat
    } else {
        0
    } by {
        law_copying_only_adds(s, ids, offset, below, next, id);
        assert(how_many(s, id) <= 1);
    }
}

} // verus!
