//! Grouping, ungrouping, duplicating and moving layers.
use vstd::prelude::*;

use crate::document::Page;
use crate::geometry::{Rect, Vec2};
use crate::model::{
    group_views, views, Frame, IdSource, KindView, Layer, LayerId, LayerKind, LayerView,
};
use crate::names::increment_trailing_number;
use crate::scalar::Scalar;
use crate::tree::{
    find_layer, home_path, list_mut, list_ref, position_of,
};

verus! {

broadcast use group_views;

/// Whether `ids` names the layer.
pub open spec fn picks<S>(ids: Seq<LayerId>) -> spec_fn(LayerView<S>) -> bool {
    |l: LayerView<S>| ids.contains(l.id)
}

/// Whether `ids` leaves the layer out.
pub open spec fn skips<S>(ids: Seq<LayerId>) -> spec_fn(LayerView<S>) -> bool {
    |l: LayerView<S>| !ids.contains(l.id)
}

/// The layers of the list that `ids` names.
pub open spec fn picked<S>(s: Seq<LayerView<S>>, ids: Seq<LayerId>) -> Seq<LayerView<S>> {
    s.filter(picks(ids))
}

/// The layers of the list that `ids` leaves out.
pub open spec fn kept<S>(s: Seq<LayerView<S>>, ids: Seq<LayerId>) -> Seq<LayerView<S>> {
    s.filter(skips(ids))
}

/// How many of the layers left out stand behind the frontmost named one.
pub open spec fn slot<S>(s: Seq<LayerView<S>>, ids: Seq<LayerId>) -> int
    decreases s.len(),
{
    if s.len() == 0 {
        0
    } else if ids.contains(s.last().id) {
        kept(s.drop_last(), ids).len() as int
    } else {
        slot(s.drop_last(), ids)
    }
}

/// The box around the turned frames of the layers.
pub open spec fn union_bounds<S: Scalar>(s: Seq<LayerView<S>>) -> Rect<S>
    recommends
        s.len() > 0,
    decreases s.len(),
{
    if s.len() <= 1 {
        s[0].frame.spec_rotated_bounds()
    } else {
        union_bounds(s.drop_last()).spec_union(s.last().frame.spec_rotated_bounds())
    }
}

/// The layers moved back by `v`.
pub open spec fn moved_back<S: Scalar>(s: Seq<LayerView<S>>, v: Vec2<S>) -> Seq<LayerView<S>> {
    Seq::new(s.len(), |i: int| s[i].with_frame(s[i].frame.spec_moved_back(v)))
}

/// The layers moved by `v`.
pub open spec fn moved<S: Scalar>(s: Seq<LayerView<S>>, v: Vec2<S>) -> Seq<LayerView<S>> {
    Seq::new(s.len(), |i: int| s[i].with_frame(s[i].frame.spec_moved(v)))
}

/// The container that takes the place of `inside`, whose members become relative to it.
pub open spec fn wrapped<S: Scalar>(
    id: LayerId,
    name: Seq<char>,
    kind: KindView<S>,
    inside: Seq<LayerView<S>>,
) -> LayerView<S> {
    let bbox = union_bounds(inside);
    Layer::<S>::spec_new(
        id,
        name,
        Frame::spec_from_bounds(bbox),
        kind,
        moved_back(inside, bbox.min.spec_to_vec2()),
    )
}

/// The list after the layers that `ids` names were gathered into a group.
pub open spec fn grouped_list<S: Scalar>(
    s: Seq<LayerView<S>>,
    ids: Seq<LayerId>,
    group_id: LayerId,
) -> Seq<LayerView<S>> {
    kept(s, ids).insert(
        slot(s, ids),
        wrapped(group_id, "Group"@, KindView::Group, picked(s, ids)),
    )
}

/// The list after the group at `k` gave way to its members.
pub open spec fn ungrouped_list<S: Scalar>(s: Seq<LayerView<S>>, k: int) -> Seq<LayerView<S>> {
    s.take(k) + moved(s[k].children, s[k].frame.pos.spec_to_vec2()) + s.skip(k + 1)
}

pub open spec fn ids_of<S>(s: Seq<LayerView<S>>) -> Seq<LayerId> {
    Seq::new(s.len(), |i: int| s[i].id)
}

pub proof fn lemma_slot<S>(s: Seq<LayerView<S>>, ids: Seq<LayerId>)
    ensures
        0 <= slot(s, ids) <= kept(s, ids).len(),
    decreases s.len(),
{
    if s.len() > 0 {
        lemma_slot(s.drop_last(), ids);
        reveal(Seq::filter);
    }
}

/// Whether `ids` holds `id`.
pub fn has_id(ids: &[LayerId], id: LayerId) -> (r: bool)
    ensures
        r == ids@.contains(id),
{
    let mut i: usize = 0;
    while i < ids.len()
        invariant
            i <= ids.len(),
            forall|j: int| 0 <= j < i ==> ids@[j] != id,
        decreases ids.len() - i,
    {
        if ids[i] == id {
            return true;
        }
        i += 1;
    }
    false
}

/// The ids of the layers of a list.
pub fn list_ids<S: Scalar>(layers: &Vec<Layer<S>>) -> (r: Vec<LayerId>)
    ensures
        r@ == ids_of(views(layers@)),
{
    let mut r: Vec<LayerId> = Vec::new();
    let mut i: usize = 0;
    while i < layers.len()
        invariant
            i <= layers.len(),
            r.len() == i,
            forall|j: int| 0 <= j < i ==> r@[j] == (#[trigger] layers@[j]).id,
        decreases layers.len() - i,
    {
        r.push(layers[i].id);
        i += 1;
    }
    assert(r@ =~= ids_of(views(layers@)));
    r
}

/// Takes the layers that `ids` names out of the list, and says where the frontmost of them was
/// among those that stay.
#[verifier::rlimit(50)]
pub fn take_picked<S: Scalar>(list: &mut Vec<Layer<S>>, ids: &[LayerId]) -> (r: (
    Vec<Layer<S>>,
    usize,
))
    ensures
        views(final(list)@) == kept(views(old(list)@), ids@),
        views(r.0@) == picked(views(old(list)@), ids@),
        r.1 == slot(views(old(list)@), ids@),
        r.1 <= final(list).len(),
{
    let ghost s = views(list@);
    let mut removed: Vec<Layer<S>> = Vec::new();
    let mut insert_at: usize = 0;
    let mut i: usize = 0;
    let ghost mut n: int = 0;
    proof {
        reveal(Seq::filter);
        assert(s.take(0) =~= Seq::empty());
        assert(kept(s.take(0), ids@) =~= Seq::empty());
        assert(views(removed@) =~= picked(s.take(0), ids@));
        assert(views(list@) =~= kept(s.take(0), ids@) + s.skip(0));
    }
    while i < list.len()
        invariant
            0 <= n <= s.len(),
            i <= list.len(),
            views(list@) == kept(s.take(n), ids@) + s.skip(n),
            i == kept(s.take(n), ids@).len(),
            views(removed@) == picked(s.take(n), ids@),
            insert_at == slot(s.take(n), ids@),
        decreases list.len() - i,
    {
        proof {
            reveal(Seq::filter);
            assert(list.len() == views(list@).len());
            assert(n < s.len());
            assert(s.take(n + 1).drop_last() =~= s.take(n));
            assert(s.take(n + 1).last() == s[n]);
            assert(views(list@)[i as int] == s[n]);
            assert(views(list@)[i as int] == list@[i as int]@);
            lemma_slot(s.take(n), ids@);
        }
        if has_id(ids, list[i].id) {
            if insert_at < i {
                insert_at = i;
            }
            let layer = list.remove(i);
            removed.push(layer);
            proof {
                assert(layer@ == s[n]);
                assert(picks::<S>(ids@)(s[n]));
                assert(!skips::<S>(ids@)(s[n]));
                assert(kept(s.take(n + 1), ids@) == kept(s.take(n), ids@));
                assert(picked(s.take(n + 1), ids@) == picked(s.take(n), ids@).push(s[n]));
                assert((kept(s.take(n), ids@) + s.skip(n)).remove(i as int) =~= kept(
                    s.take(n),
                    ids@,
                ) + s.skip(n + 1));
            }
        } else {
            i += 1;
            proof {
                assert(!picks::<S>(ids@)(s[n]));
                assert(skips::<S>(ids@)(s[n]));
                assert(kept(s.take(n + 1), ids@) == kept(s.take(n), ids@).push(s[n]));
                assert(picked(s.take(n + 1), ids@) == picked(s.take(n), ids@));
                assert(kept(s.take(n), ids@) + s.skip(n) =~= kept(s.take(n + 1), ids@) + s.skip(
                    n + 1,
                ));
            }
        }
        proof {
            n = n + 1;
        }
    }
    proof {
        assert(views(list@).len() == list.len());
        assert(n == s.len());
        assert(s.take(n) =~= s);
        assert(kept(s, ids@) + s.skip(n) =~= kept(s, ids@));
        lemma_slot(s, ids@);
    }
    (removed, insert_at)
}

/// The box around the turned frames of the layers.
pub fn bounds_of<S: Scalar>(layers: &Vec<Layer<S>>) -> (r: Rect<S>)
    requires
        layers.len() > 0,
    ensures
        r == union_bounds(views(layers@)),
{
    let ghost s = views(layers@);
    let mut r = layers[0].frame.rotated_bounds();
    let mut i: usize = 1;
    assert(s.take(1)[0] == s[0]);
    assert(s[0] == layers@[0]@);
    while i < layers.len()
        invariant
            1 <= i <= layers.len(),
            s == views(layers@),
            r == union_bounds(s.take(i as int)),
        decreases layers.len() - i,
    {
        assert(s.take(i + 1).drop_last() =~= s.take(i as int));
        assert(s[i as int] == layers@[i as int]@);
        r = r.union(layers[i].frame.rotated_bounds());
        i += 1;
    }
    assert(s.take(i as int) =~= s);
    r
}

/// Moves each layer of the list by `v`.
pub fn move_all<S: Scalar>(layers: &mut Vec<Layer<S>>, v: Vec2<S>)
    ensures
        views(final(layers)@) == moved(views(old(layers)@), v),
{
    let ghost s = views(layers@);
    let mut i: usize = 0;
    while i < layers.len()
        invariant
            i <= layers.len(),
            layers.len() == s.len(),
            forall|j: int| 0 <= j < i ==> #[trigger] views(layers@)[j] == s[j].with_frame(s[j].frame.spec_moved(v)),
            forall|j: int| i <= j < s.len() ==> #[trigger] views(layers@)[j] == s[j],
        decreases layers.len() - i,
    {
        let ghost before = views(layers@);
        assert(before[i as int] == layers@[i as int]@);
        let layer = &mut layers[i];
        layer.frame = layer.frame.moved(v);
        assert(views(layers@) == before.update(i as int, s[i as int].with_frame(s[i as int].frame.spec_moved(v))));
        i += 1;
    }
    assert(views(layers@) =~= moved(s, v));
}

/// Moves each layer of the list back by `v`.
pub fn move_all_back<S: Scalar>(layers: &mut Vec<Layer<S>>, v: Vec2<S>)
    ensures
        views(final(layers)@) == moved_back(views(old(layers)@), v),
{
    let ghost s = views(layers@);
    let mut i: usize = 0;
    while i < layers.len()
        invariant
            i <= layers.len(),
            layers.len() == s.len(),
            forall|j: int| 0 <= j < i ==> #[trigger] views(layers@)[j] == s[j].with_frame(s[j].frame.spec_moved_back(v)),
            forall|j: int| i <= j < s.len() ==> #[trigger] views(layers@)[j] == s[j],
        decreases layers.len() - i,
    {
        let ghost before = views(layers@);
        assert(before[i as int] == layers@[i as int]@);
        let layer = &mut layers[i];
        layer.frame = layer.frame.moved_back(v);
        assert(views(layers@) == before.update(i as int, s[i as int].with_frame(s[i as int].frame.spec_moved_back(v))));
        i += 1;
    }
    assert(views(layers@) =~= moved_back(s, v));
}

/// The first list, from the outside in, that holds every one of `ids` itself.
pub fn find_common_parent_list_ref<'a, S: Scalar>(
    layers: &'a Vec<Layer<S>>,
    ids: &[LayerId],
) -> (r: Option<&'a Vec<Layer<S>>>)
    ensures
        match r {
            Some(list) => crate::tree::home(views(layers@), ids@) matches Some(p) && views(list@)
                == crate::tree::list_at(views(layers@), p),
            None => crate::tree::home(views(layers@), ids@) is None,
        },
{
    match home_path(layers, ids) {
        Some(path) => {
            proof {
                crate::tree::lemma_home(views(layers@), ids@);
                assert(crate::tree::ints(path@).skip(0) =~= crate::tree::ints(path@));
            }
            Some(list_ref(layers, &path, 0))
        },
        None => None,
    }
}

/// The first list, from the outside in, that holds every one of `ids` itself, to be changed.
pub fn find_common_parent_list<'a, S: Scalar>(
    layers: &'a mut Vec<Layer<S>>,
    ids: &[LayerId],
) -> (r: Option<&'a mut Vec<Layer<S>>>)
    ensures
        match r {
            Some(list) => {
                &&& crate::tree::home(views(old(layers)@), ids@) matches Some(p)
                &&& crate::tree::valid_path(views(old(layers)@), p)
                &&& views(list@) == crate::tree::list_at(views(old(layers)@), p)
                &&& crate::tree::holds_all(views(list@), ids@)
                &&& views(final(layers)@) == crate::tree::with_list_at(
                    views(old(layers)@),
                    p,
                    views(final(list)@),
                )
            },
            None => {
                &&& crate::tree::home(views(old(layers)@), ids@) is None
                &&& *final(layers) == *old(layers)
            },
        },
{
    match home_path(layers, ids) {
        Some(path) => {
            proof {
                crate::tree::lemma_home(views(layers@), ids@);
                assert(crate::tree::ints(path@).skip(0) =~= crate::tree::ints(path@));
            }
            Some(list_mut(layers, &path, 0))
        },
        None => None,
    }
}

/// The layers after those that `ids` names were grouped; `None` where no list holds them all.
pub open spec fn grouped<S: Scalar>(
    s: Seq<LayerView<S>>,
    ids: Seq<LayerId>,
    group_id: LayerId,
) -> Option<Seq<LayerView<S>>> {
    if ids.len() == 0 {
        None
    } else {
        match crate::tree::home(s, ids) {
            Some(p) => Some(
                crate::tree::with_list_at(
                    s,
                    p,
                    grouped_list(crate::tree::list_at(s, p), ids, group_id),
                ),
            ),
            None => None,
        }
    }
}

/// A list that holds one of `ids` has a layer picked by them.
pub proof fn lemma_picked_not_empty<S>(s: Seq<LayerView<S>>, ids: Seq<LayerId>)
    requires
        exists|i: int| 0 <= i < s.len() && ids.contains((#[trigger] s[i]).id),
    ensures
        picked(s, ids).len() > 0,
    decreases s.len(),
{
    reveal(Seq::filter);
    let i = choose|i: int| 0 <= i < s.len() && ids.contains((#[trigger] s[i]).id);
    if i == s.len() - 1 {
        assert(picks::<S>(ids)(s.last()));
    } else {
        assert(ids.contains(s.drop_last()[i].id));
        lemma_picked_not_empty(s.drop_last(), ids);
    }
}

/// Gathers layers that are direct siblings into a new group, which takes the place of the
/// frontmost of them and wraps their turned frames tightly.
///
/// Returns the group's id, or `None` with the page as it was where `ids` is empty or the layers
/// have no common parent.
pub fn group_layers<S: Scalar>(
    page: &mut Page<S>,
    ids: &[LayerId],
    source: &mut IdSource,
) -> (r: Option<LayerId>)
    requires
        old(source).next < u64::MAX,
    ensures
        match grouped(old(page)@.layers, ids@, old(source).next) {
            Some(layers) => {
                &&& r == Some(old(source).next)
                &&& final(source).next == old(source).next + 1
                &&& final(page)@ == old(page)@.with_layers(layers)
            },
            None => {
                &&& r is None
                &&& *final(source) == *old(source)
                &&& *final(page) == *old(page)
            },
        },
{
    if ids.len() == 0 {
        return None;
    }
    match find_common_parent_list(&mut page.layers, ids) {
        Some(parent) => {
            let ghost list = views(parent@);
            proof {
                assert(crate::tree::holds(list, ids@[0]));
                let i = choose|i: int| 0 <= i < list.len() && (#[trigger] list[i]).id == ids@[0];
                assert(ids@.contains(list[i].id));
                lemma_picked_not_empty(list, ids@);
            }
            let (mut removed, insert_at) = take_picked(parent, ids);
            assert(views(removed@).len() > 0);
            let bbox = bounds_of(&removed);
            move_all_back(&mut removed, bbox.min.to_vec2());
            let id = source.fresh();
            let group = Layer::new(
                id,
                "Group",
                Frame::from_bounds(bbox),
                LayerKind::Group { children: removed },
            );
            parent.insert(insert_at, group);
            Some(id)
        },
        None => None,
    }
}

/// The layers after a group was taken apart; `None` where the id names no group.
pub open spec fn ungrouped<S: Scalar>(s: Seq<LayerView<S>>, group_id: LayerId) -> Option<
    (Seq<LayerView<S>>, Seq<LayerId>),
> {
    match crate::tree::home(s, seq![group_id]) {
        Some(p) => {
            let list = crate::tree::list_at(s, p);
            let k = crate::tree::position(list, group_id);
            if list[k].kind is Group {
                Some(
                    (
                        crate::tree::with_list_at(s, p, ungrouped_list(list, k)),
                        ids_of(list[k].children),
                    ),
                )
            } else {
                None
            }
        },
        None => None,
    }
}

/// Takes a group apart: its members stand where it stood, at their places on the page.
///
/// Returns the ids of the members, or nothing where the id names no group.
pub fn ungroup<S: Scalar>(page: &mut Page<S>, group_id: LayerId) -> (r: Vec<LayerId>)
    ensures
        match ungrouped(old(page)@.layers, group_id) {
            Some((layers, ids)) => final(page)@ == old(page)@.with_layers(layers) && r@ == ids,
            None => final(page)@ == old(page)@ && r@ == Seq::<LayerId>::empty(),
        },
{
    let wanted: Vec<LayerId> = vec![group_id];
    assert(wanted@ =~= seq![group_id]);
    let ghost before = page@.layers;
    match find_common_parent_list(&mut page.layers, &wanted) {
        Some(parent) => {
            let ghost list = views(parent@);
            assert(crate::tree::holds(list, wanted@[0]));
            let idx: usize = match position_of(parent, group_id) {
                Some(k) => k,
                None => vstd::pervasive::unreached(),
            };
            assert(list[idx as int] == parent@[idx as int]@);
            if let LayerKind::Group { .. } = &parent[idx].kind {
            } else {
                proof {
                    crate::tree::lemma_with_list_at(
                        before,
                        crate::tree::home(before, seq![group_id])->0,
                        list,
                    );
                }
                return Vec::new();
            }
            let group = parent.remove(idx);
            let offset = group.frame.pos.to_vec2();
            match group.kind {
                LayerKind::Group { mut children } => {
                    move_all(&mut children, offset);
                    let ids = list_ids(&children);
                    splice(parent, idx, children);
                    proof {
                        assert(ids@ =~= ids_of(list[idx as int].children));
                        assert(views(parent@) =~= ungrouped_list(list, idx as int));
                    }
                    ids
                },
                _ => vstd::pervasive::unreached(),
            }
        },
        None => Vec::new(),
    }
}

/// Inserts the layers of `more` into the list at `k`, in order.
pub fn splice<S: Scalar>(list: &mut Vec<Layer<S>>, k: usize, more: Vec<Layer<S>>)
    requires
        k <= old(list).len(),
    ensures
        views(final(list)@) == views(old(list)@).take(k as int) + views(more@) + views(
            old(list)@,
        ).skip(k as int),
{
    let ghost s = views(list@);
    let ghost added = views(more@);
    let mut tail = list.split_off(k);
    let mut more = more;
    list.append(&mut more);
    list.append(&mut tail);
    assert(views(list@) =~= s.take(k as int) + added + s.skip(k as int));
}

/// Whether a copy of the layer can be named and given ids.
pub open spec fn can_copy<S>(v: LayerView<S>, n: int) -> bool {
    &&& n + crate::model::count(v) <= u64::MAX
    &&& !(crate::names::is_numbered(v.name) && crate::names::number(crate::names::suffix(v.name))
        == u64::MAX)
}

/// The copy of a layer: ids from `n` on, moved by `offset`, the next name in its series.
pub open spec fn copy_of<S: Scalar>(v: LayerView<S>, n: int, offset: Vec2<S>) -> LayerView<S> {
    let fresh = crate::model::renumbered(v, n);
    LayerView {
        frame: fresh.frame.spec_moved(offset),
        name: crate::names::incremented(v.name),
        ..fresh
    }
}

/// The layer that [`crate::tree::home`] leads to, if any.
pub open spec fn at_home<S>(s: Seq<LayerView<S>>, id: LayerId) -> Option<LayerView<S>> {
    match crate::tree::home(s, seq![id]) {
        Some(p) => {
            let list = crate::tree::list_at(s, p);
            Some(list[crate::tree::position(list, id)])
        },
        None => None,
    }
}

/// The layers after one was copied beside itself.
pub open spec fn copied_once<S: Scalar>(
    s: Seq<LayerView<S>>,
    id: LayerId,
    offset: Vec2<S>,
    below: bool,
    n: int,
) -> Seq<LayerView<S>> {
    match crate::tree::home(s, seq![id]) {
        Some(p) => {
            let list = crate::tree::list_at(s, p);
            let k = crate::tree::position(list, id);
            let at = if below {
                k
            } else {
                k + 1
            };
            crate::tree::with_list_at(s, p, list.insert(at, copy_of(list[k], n, offset)))
        },
        None => s,
    }
}

/// What copying several layers one after the other leads to: the layers, the ids of the copies,
/// and the next unused id.
pub open spec fn copied<S: Scalar>(
    s: Seq<LayerView<S>>,
    ids: Seq<LayerId>,
    offset: Vec2<S>,
    below: bool,
    n: int,
) -> (Seq<LayerView<S>>, Seq<LayerId>, int)
    decreases ids.len(),
{
    if ids.len() == 0 {
        (s, Seq::empty(), n)
    } else {
        let (t, made, m) = copied(s, ids.drop_last(), offset, below, n);
        match at_home(t, ids.last()) {
            Some(v) => (
                copied_once(t, ids.last(), offset, below, m),
                made.push(m as u64),
                m + crate::model::count(v),
            ),
            None => (t, made, m),
        }
    }
}

/// Whether each copy in turn can be named and given ids.
pub open spec fn can_copy_all<S: Scalar>(
    s: Seq<LayerView<S>>,
    ids: Seq<LayerId>,
    offset: Vec2<S>,
    below: bool,
    n: int,
) -> bool {
    forall|k: int|
        #![trigger ids[k]]
        0 <= k < ids.len() ==> {
            let (t, _made, m) = copied(s, ids.take(k), offset, below, n);
            at_home(t, ids[k]) matches Some(v) ==> can_copy(v, m)
        }
}

/// Copies one layer beside itself, and returns the copy's id.
fn duplicate_one<S: Scalar>(
    layers: &mut Vec<Layer<S>>,
    id: LayerId,
    offset: Vec2<S>,
    below: bool,
    source: &mut IdSource,
) -> (r: Option<LayerId>)
    requires
        at_home(views(old(layers)@), id) matches Some(v) ==> can_copy(v, old(source).next as int),
    ensures
        views(final(layers)@) == copied_once(
            views(old(layers)@),
            id,
            offset,
            below,
            old(source).next as int,
        ),
        match at_home(views(old(layers)@), id) {
            Some(v) => {
                &&& r == Some(old(source).next)
                &&& final(source).next == old(source).next + crate::model::count(v)
            },
            None => r is None && final(source).next == old(source).next,
        },
{
    let wanted: Vec<LayerId> = vec![id];
    assert(wanted@ =~= seq![id]);
    match find_common_parent_list(layers, &wanted) {
        Some(list) => {
            assert(crate::tree::holds(views(list@), wanted@[0]));
            let pos: usize = match position_of(list, id) {
                Some(k) => k,
                None => vstd::pervasive::unreached(),
            };
            assert(views(list@)[pos as int] == list@[pos as int]@);
            let mut copy = list[pos].duplicate();
            let new_id: LayerId = source.next;
            let name = increment_trailing_number(copy.name.as_str());
            copy.regenerate_ids(source);
            copy.frame = copy.frame.moved(offset);
            copy.name = name;
            let at: usize = if below {
                pos
            } else {
                pos + 1
            };
            list.insert(at, copy);
            Some(new_id)
        },
        None => None,
    }
}

/// Copies each of the named layers in turn beside itself.
fn duplicate_each<S: Scalar>(
    page: &mut Page<S>,
    ids: &[LayerId],
    offset: Vec2<S>,
    below: bool,
    source: &mut IdSource,
) -> (r: Vec<LayerId>)
    requires
        can_copy_all(old(page)@.layers, ids@, offset, below, old(source).next as int),
    ensures
        final(page)@ == old(page)@.with_layers(
            copied(old(page)@.layers, ids@, offset, below, old(source).next as int).0,
        ),
        r@ == copied(old(page)@.layers, ids@, offset, below, old(source).next as int).1,
        final(source).next == copied(
            old(page)@.layers,
            ids@,
            offset,
            below,
            old(source).next as int,
        ).2,
{
    let ghost s = page@.layers;
    let ghost n = source.next as int;
    let mut made: Vec<LayerId> = Vec::new();
    let mut i: usize = 0;
    assert(ids@.take(0) =~= Seq::empty());
    while i < ids.len()
        invariant
            i <= ids.len(),
            can_copy_all(s, ids@, offset, below, n),
            page@ == old(page)@.with_layers(copied(s, ids@.take(i as int), offset, below, n).0),
            made@ == copied(s, ids@.take(i as int), offset, below, n).1,
            source.next == copied(s, ids@.take(i as int), offset, below, n).2,
        decreases ids.len() - i,
    {
        proof {
            assert(ids@.take(i + 1).drop_last() =~= ids@.take(i as int));
            assert(ids@.take(i + 1).last() == ids@[i as int]);
        }
        let id = ids[i];
        if let Some(new_id) = duplicate_one(&mut page.layers, id, offset, below, source) {
            made.push(new_id);
        }
        i += 1;
    }
    assert(ids@.take(i as int) =~= ids@);
    made
}

/// How far a copy is moved from its original, unless the user set another distance.
pub open spec fn spec_default_duplicate_offset<S: Scalar>() -> Vec2<S> {
    Vec2 { x: S::spec_ratio(10, 1), y: S::spec_ratio(10, 1) }
}

/// How far a copy is moved from its original, unless the user set another distance.
pub fn default_duplicate_offset<S: Scalar>() -> (r: Vec2<S>)
    ensures
        r == spec_default_duplicate_offset::<S>(),
{
    Vec2 { x: S::ratio(10, 1), y: S::ratio(10, 1) }
}

/// Copies each of the named layers in front of itself, moved by `offset`, with fresh ids and the
/// next name in its series. Returns the ids of the copies; names that are not found are skipped.
pub fn duplicate_layers<S: Scalar>(
    page: &mut Page<S>,
    ids: &[LayerId],
    offset: Vec2<S>,
    source: &mut IdSource,
) -> (r: Vec<LayerId>)
    requires
        can_copy_all(old(page)@.layers, ids@, offset, false, old(source).next as int),
    ensures
        final(page)@ == old(page)@.with_layers(
            copied(old(page)@.layers, ids@, offset, false, old(source).next as int).0,
        ),
        r@ == copied(old(page)@.layers, ids@, offset, false, old(source).next as int).1,
        final(source).next == copied(
            old(page)@.layers,
            ids@,
            offset,
            false,
            old(source).next as int,
        ).2,
{
    duplicate_each(page, ids, offset, false, source)
}

/// [`duplicate_layers`], with each copy behind its original.
pub fn duplicate_layers_below<S: Scalar>(
    page: &mut Page<S>,
    ids: &[LayerId],
    offset: Vec2<S>,
    source: &mut IdSource,
) -> (r: Vec<LayerId>)
    requires
        can_copy_all(old(page)@.layers, ids@, offset, true, old(source).next as int),
    ensures
        final(page)@ == old(page)@.with_layers(
            copied(old(page)@.layers, ids@, offset, true, old(source).next as int).0,
        ),
        r@ == copied(old(page)@.layers, ids@, offset, true, old(source).next as int).1,
        final(source).next == copied(
            old(page)@.layers,
            ids@,
            offset,
            true,
            old(source).next as int,
        ).2,
{
    duplicate_each(page, ids, offset, true, source)
}

/// Every id in the list that the named layers share; the top list where they share none.
pub open spec fn sibling_ids<S>(s: Seq<LayerView<S>>, ids: Seq<LayerId>) -> Seq<LayerId> {
    match crate::tree::home(s, ids) {
        Some(p) => ids_of(crate::tree::list_at(s, p)),
        None => ids_of(s),
    }
}

/// Every id in the list that the named layers share: the page's own list where they are none or
/// share none.
pub fn siblings_of<S: Scalar>(page: &Page<S>, ids: &[LayerId]) -> (r: Vec<LayerId>)
    ensures
        r@ == sibling_ids(page@.layers, ids@),
{
    if ids.len() > 0 {
        if let Some(list) = find_common_parent_list_ref(&page.layers, ids) {
            return list_ids(list);
        }
    } else {
        assert(crate::tree::holds_all(page@.layers, ids@));
    }
    list_ids(&page.layers)
}

/// The owner of the list at the end of `path`.
fn owner_of<S: Scalar>(layers: &Vec<Layer<S>>, path: &Vec<usize>, depth: usize) -> (r: Option<
    LayerId,
>)
    requires
        depth <= path.len(),
        crate::tree::valid_path(views(layers@), crate::tree::ints(path@).skip(depth as int)),
    ensures
        r == crate::tree::owner_at(views(layers@), crate::tree::ints(path@).skip(depth as int)),
    decreases path.len() - depth,
{
    if depth == path.len() {
        return None;
    }
    let ghost rest = crate::tree::ints(path@).skip(depth as int);
    assert(rest.drop_first() =~= crate::tree::ints(path@).skip(depth + 1));
    let k = path[depth];
    assert(rest[0] == k as int);
    assert(views(layers@)[k as int] == layers@[k as int]@);
    if depth + 1 == path.len() {
        return Some(layers[k].id);
    }
    match layers[k].children() {
        Some(children) => owner_of(children, path, depth + 1),
        None => vstd::pervasive::unreached(),
    }
}

/// A layer's parent and its index among the parent's children.
pub open spec fn place_of<S>(s: Seq<LayerView<S>>, id: LayerId) -> Option<(Option<LayerId>, int)> {
    match crate::tree::home(s, seq![id]) {
        Some(p) => Some(
            (
                crate::tree::owner_at(s, p),
                crate::tree::position(crate::tree::list_at(s, p), id),
            ),
        ),
        None => None,
    }
}

/// A layer's parent, none for the top list, and its index among the parent's children.
pub fn parent_and_index<S: Scalar>(layers: &Vec<Layer<S>>, id: LayerId) -> (r: Option<
    (Option<LayerId>, usize),
>)
    ensures
        match place_of(views(layers@), id) {
            Some((parent, k)) => r matches Some(found) && found.0 == parent && found.1 == k,
            None => r is None,
        },
{
    let wanted: Vec<LayerId> = vec![id];
    assert(wanted@ =~= seq![id]);
    match home_path(layers, &wanted) {
        Some(path) => {
            proof {
                crate::tree::lemma_home(views(layers@), wanted@);
                assert(crate::tree::ints(path@).skip(0) =~= crate::tree::ints(path@));
            }
            let list = list_ref(layers, &path, 0);
            assert(crate::tree::holds(views(list@), wanted@[0]));
            match position_of(list, id) {
                Some(k) => Some((owner_of(layers, &path, 0), k)),
                None => vstd::pervasive::unreached(),
            }
        },
        None => None,
    }
}

/// Takes a layer out of wherever it is; returns it with its former parent and index.
pub fn extract<S: Scalar>(page: &mut Page<S>, id: LayerId) -> (r: Option<
    (Layer<S>, Option<LayerId>, usize),
>)
    ensures
        final(page)@ == old(page)@.with_layers(
            crate::document::without(old(page)@.layers, id),
        ),
        match r {
            Some((x, parent, k)) => {
                &&& at_home(old(page)@.layers, id) == Some(x@)
                &&& place_of(old(page)@.layers, id) == Some((parent, k as int))
            },
            None => crate::tree::home(old(page)@.layers, seq![id]) is None,
        },
{
    match parent_and_index(&page.layers, id) {
        Some((parent, k)) => {
            match page.remove(id) {
                Some(x) => Some((x, parent, k)),
                None => vstd::pervasive::unreached(),
            }
        },
        None => {
            let gone = page.remove(id);
            None
        },
    }
}

pub open spec fn min_int(a: int, b: int) -> int {
    if a <= b {
        a
    } else {
        b
    }
}

/// The layers after `id` was moved to `index` among the children of `new_parent`, an index that
/// counts the list as it was before the move.
pub open spec fn moved_layer<S: Scalar>(
    s: Seq<LayerView<S>>,
    id: LayerId,
    new_parent: Option<LayerId>,
    index: int,
) -> Seq<LayerView<S>> {
    let inside_itself = new_parent matches Some(pid) && (pid == id || (crate::tree::find(
        s,
        id,
    ) matches Some(d) && (d.id == pid || crate::tree::find(d.children, pid) is Some)));
    match (if inside_itself {
        None
    } else {
        crate::tree::home(s, seq![id])
    }) {
        None => s,
        Some(p) => {
            let list = crate::tree::list_at(s, p);
            let k = crate::tree::position(list, id);
            let t = crate::tree::with_list_at(s, p, list.remove(k));
            let i = if crate::tree::owner_at(s, p) == new_parent && k < index {
                index - 1
            } else {
                index
            };
            match new_parent {
                None => t.insert(min_int(i, t.len() as int), list[k]),
                Some(pid) => match crate::tree::find(t, pid) {
                    Some(q) => if q.is_container() {
                        crate::tree::replace(
                            t,
                            pid,
                            q.with_children(
                                q.children.insert(min_int(i, q.children.len() as int), list[k]),
                            ),
                        )
                    } else {
                        s
                    },
                    None => s,
                },
            }
        },
    }
}

/// Moving a layer into itself or into anything inside it changes nothing.
pub proof fn law_nothing_moves_into_itself<S: Scalar>(
    s: Seq<LayerView<S>>,
    id: LayerId,
    new_parent: LayerId,
    index: int,
)
    requires
        new_parent == id || (crate::tree::find(s, id) matches Some(v) && crate::tree::find(
            v.children,
            new_parent,
        ) is Some),
    ensures
        moved_layer(s, id, Some(new_parent), index) == s,
{
}

/// Whether the page has a container with the given id.
fn has_container<S: Scalar>(page: &Page<S>, id: LayerId) -> (r: bool)
    ensures
        r == (crate::tree::find(page@.layers, id) matches Some(q) && q.is_container()),
{
    match page.find(id) {
        Some(q) => q.children().is_some(),
        None => false,
    }
}

/// Moves a layer to `index` among the children of `new_parent`, or of the page itself.
///
/// `index` counts the list from back to front as it is before the move. The page stays as it is
/// where the new parent does not exist, cannot hold layers, or is the layer itself or inside it.
pub fn move_layer<S: Scalar>(
    page: &mut Page<S>,
    id: LayerId,
    new_parent: Option<LayerId>,
    index: usize,
)
    ensures
        final(page)@ == old(page)@.with_layers(
            moved_layer(old(page)@.layers, id, new_parent, index as int),
        ),
{
    let ghost s = page@.layers;
    if let Some(pid) = new_parent {
        if pid == id {
            return;
        }
        if let Some(dragged) = page.find(id) {
            proof {
                crate::tree::lemma_find_id(s, id);
            }
            if find_layer(dragged, pid).is_some() {
                return;
            }
        }
    }
    let wanted: Vec<LayerId> = vec![id];
    assert(wanted@ =~= seq![id]);
    let path: Vec<usize> = match home_path(&page.layers, &wanted) {
        Some(path) => path,
        None => {
            return;
        },
    };
    let ghost p = crate::tree::ints(path@);
    let ghost list = crate::tree::list_at(s, p);
    let ghost k = crate::tree::position(list, id);
    proof {
        crate::tree::lemma_home(s, wanted@);
        assert(crate::tree::holds(list, wanted@[0]));
        crate::tree::lemma_position(list, id);
        crate::tree::lemma_with_list_at(s, p, list.remove(k));
        assert(p.skip(0) =~= p);
        assert(list.remove(k).insert(k, list[k]) =~= list);
    }
    let (removed, old_parent, old_index) = match extract(page, id) {
        Some(found) => found,
        None => vstd::pervasive::unreached(),
    };
    let at: usize = if same_parent(old_parent, new_parent) && old_index < index {
        index - 1
    } else {
        index
    };
    match new_parent {
        None => {
            let n = page.layers.len();
            page.layers.insert(if at < n { at } else { n }, removed);
        },
        Some(pid) => {
            if has_container(page, pid) {
                if let Some(target) = page.find_mut(pid) {
                    if let Some(children) = target.children_mut() {
                        let n = children.len();
                        children.insert(if at < n { at } else { n }, removed);
                    }
                }
            } else {
                let back = list_mut(&mut page.layers, &path, 0);
                back.insert(old_index, removed);
            }
        },
    }
}

fn same_parent(a: Option<LayerId>, b: Option<LayerId>) -> (r: bool)
    ensures
        r == (a == b),
{
    match (a, b) {
        (Some(x), Some(y)) => x == y,
        (None, None) => true,
        _ => false,
    }
}

} // verus!
