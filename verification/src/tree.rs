//! Finding and changing layers anywhere in a tree of layers.
//!
//! Two orders matter. A single layer is looked up in document order: a layer
//! before its children, siblings from back to front ([`find`]). A list that
//! holds certain layers directly is looked up from the outside in: a list
//! before the lists inside its members ([`home`]). Lists are named by paths,
//! the indices that lead to them from the top.
use vstd::prelude::*;

use crate::model::{group_views, views, Layer, LayerId, LayerView};
use crate::scalar::Scalar;

verus! {

broadcast use group_views;

/// The first layer with the given id, in document order.
pub open spec fn find<S>(s: Seq<LayerView<S>>, id: LayerId) -> Option<LayerView<S>>
    decreases s,
{
    if s.len() == 0 {
        None
    } else if s[0].id == id {
        Some(s[0])
    } else {
        match find(s[0].children, id) {
            Some(x) => Some(x),
            None => find(s.drop_first(), id),
        }
    }
}

/// `s` with `v` in place of the layer that [`find`] finds.
pub open spec fn replace<S>(s: Seq<LayerView<S>>, id: LayerId, v: LayerView<S>) -> Seq<
    LayerView<S>,
>
    decreases s,
{
    if s.len() == 0 {
        s
    } else if s[0].id == id {
        s.update(0, v)
    } else if find(s[0].children, id) is Some {
        s.update(0, s[0].with_children(replace(s[0].children, id, v)))
    } else {
        seq![s[0]] + replace(s.drop_first(), id, v)
    }
}

/// Whether the layer at `k` is, or holds somewhere inside, the first with the given id.
pub open spec fn leads_to<S>(s: Seq<LayerView<S>>, id: LayerId, k: int) -> bool {
    &&& 0 <= k < s.len()
    &&& s[k].id == id || find(s[k].children, id) is Some
    &&& forall|j: int|
        0 <= j < k ==> (#[trigger] s[j]).id != id && find(s[j].children, id) is None
}

pub proof fn lemma_leads_to<S>(s: Seq<LayerView<S>>, id: LayerId, k: int)
    requires
        leads_to(s, id, k),
    ensures
        find(s, id) == (if s[k].id == id {
            Some(s[k])
        } else {
            find(s[k].children, id)
        }),
        forall|v: LayerView<S>| #[trigger]
            replace(s, id, v) == s.update(
                k,
                if s[k].id == id {
                    v
                } else {
                    s[k].with_children(replace(s[k].children, id, v))
                },
            ),
    decreases k,
{
    if k > 0 {
        let t = s.drop_first();
        assert(s[0].id != id && find(s[0].children, id) is None);
        assert(leads_to(t, id, k - 1)) by {
            assert forall|j: int| 0 <= j < k - 1 implies (#[trigger] t[j]).id != id && find(
                t[j].children,
                id,
            ) is None by {
                assert(s[j + 1].id != id);
            }
        }
        lemma_leads_to(t, id, k - 1);
        assert forall|v: LayerView<S>| #[trigger]
            replace(s, id, v) == s.update(
                k,
                if s[k].id == id {
                    v
                } else {
                    s[k].with_children(replace(s[k].children, id, v))
                },
            ) by {
            let w = if s[k].id == id {
                v
            } else {
                s[k].with_children(replace(s[k].children, id, v))
            };
            assert(replace(t, id, v) == t.update(k - 1, w));
            assert(seq![s[0]] + t.update(k - 1, w) =~= s.update(k, w));
        }
    }
}

/// Nothing is found where no layer leads to the id.
pub proof fn lemma_not_found<S>(s: Seq<LayerView<S>>, id: LayerId)
    requires
        forall|j: int|
            0 <= j < s.len() ==> (#[trigger] s[j]).id != id && find(s[j].children, id) is None,
    ensures
        find(s, id) is None,
    decreases s.len(),
{
    if s.len() > 0 {
        assert(s[0].id != id);
        let t = s.drop_first();
        assert forall|j: int| 0 <= j < t.len() implies (#[trigger] t[j]).id != id && find(
            t[j].children,
            id,
        ) is None by {
            assert(s[j + 1].id != id);
        }
        lemma_not_found(t, id);
    }
}

/// Where a layer is found, some member of the list leads to it.
pub proof fn lemma_found_at<S>(s: Seq<LayerView<S>>, id: LayerId) -> (k: int)
    requires
        find(s, id) is Some,
    ensures
        leads_to(s, id, k),
    decreases s.len(),
{
    if s[0].id == id || find(s[0].children, id) is Some {
        0
    } else {
        let t = s.drop_first();
        let k = lemma_found_at(t, id) + 1;
        assert(leads_to(s, id, k)) by {
            assert forall|j: int| 0 <= j < k implies (#[trigger] s[j]).id != id && find(
                s[j].children,
                id,
            ) is None by {
                if j > 0 {
                    assert(t[j - 1].id != id);
                }
            }
        }
        k
    }
}

/// What is found has the id that was asked for.
pub proof fn lemma_find_id<S>(s: Seq<LayerView<S>>, id: LayerId)
    ensures
        find(s, id) matches Some(x) ==> x.id == id,
    decreases s,
{
    if s.len() > 0 {
        lemma_find_id(s[0].children, id);
        lemma_find_id(s.drop_first(), id);
    }
}

/// Putting what is found back in its place changes nothing.
pub proof fn lemma_replace_same<S>(s: Seq<LayerView<S>>, id: LayerId)
    ensures
        find(s, id) matches Some(x) ==> replace(s, id, x) == s,
    decreases s,
{
    if s.len() > 0 && find(s, id) is Some {
        let x = find(s, id)->0;
        if s[0].id == id {
            assert(s.update(0, x) =~= s);
        } else if find(s[0].children, id) is Some {
            lemma_replace_same(s[0].children, id);
            assert(s[0].with_children(s[0].children) == s[0]);
            assert(s.update(0, s[0]) =~= s);
        } else {
            lemma_replace_same(s.drop_first(), id);
            assert(seq![s[0]] + s.drop_first() =~= s);
        }
    }
}

/// The index of the member that leads to the layer with the given id.
fn index_leading_to<S: Scalar>(layers: &Vec<Layer<S>>, id: LayerId) -> (r: Option<usize>)
    ensures
        match r {
            Some(k) => leads_to(views(layers@), id, k as int),
            None => find(views(layers@), id) is None,
        },
    decreases layers@, 1int,
{
    let mut i: usize = 0;
    while i < layers.len()
        invariant
            i <= layers.len(),
            forall|j: int|
                0 <= j < i ==> (#[trigger] views(layers@)[j]).id != id && find(
                    views(layers@)[j].children,
                    id,
                ) is None,
        decreases layers.len() - i,
    {
        assert(views(layers@)[i as int] == layers@[i as int]@);
        if find_layer(&layers[i], id).is_some() {
            return Some(i);
        }
        i += 1;
    }
    proof {
        lemma_not_found(views(layers@), id);
    }
    None
}

/// The layer with the given id among `layer` and what it holds.
pub fn find_layer<S: Scalar>(layer: &Layer<S>, id: LayerId) -> (r: Option<&Layer<S>>)
    ensures
        match r {
            Some(x) => (if layer.id == id {
                Some(layer@)
            } else {
                find(layer@.children, id)
            }) == Some(x@),
            None => layer.id != id && find(layer@.children, id) is None,
        },
    decreases *layer, 0int,
{
    if layer.id == id {
        return Some(layer);
    }
    match layer.children() {
        Some(children) => find_in(children, id),
        None => {
            assert(find(layer@.children, id) is None);
            None
        },
    }
}

/// The first layer with the given id, in document order.
pub fn find_in<S: Scalar>(layers: &Vec<Layer<S>>, id: LayerId) -> (r: Option<&Layer<S>>)
    ensures
        match r {
            Some(x) => find(views(layers@), id) == Some(x@),
            None => find(views(layers@), id) is None,
        },
    decreases layers@, 2int,
{
    match index_leading_to(layers, id) {
        Some(k) => {
            proof {
                lemma_leads_to(views(layers@), id, k as int);
            }
            find_layer(&layers[k], id)
        },
        None => None,
    }
}

/// The first layer with the given id, in document order, to be changed.
pub fn find_mut_in<S: Scalar>(layers: &mut Vec<Layer<S>>, id: LayerId) -> (r: Option<&mut Layer<S>>)
    ensures
        match r {
            Some(x) => {
                &&& find(views(old(layers)@), id) == Some(x@)
                &&& views(final(layers)@) == replace(views(old(layers)@), id, final(x)@)
            },
            None => find(views(old(layers)@), id) is None && *final(layers) == *old(layers),
        },
    decreases views(old(layers)@),
{
    let k: usize = match index_leading_to(layers, id) {
        Some(k) => k,
        None => {
            return None;
        },
    };
    let ghost before = views(layers@);
    proof {
        lemma_leads_to(before, id, k as int);
        assert(decreases_to!(before => before[k as int].children));
    }
    let layer = &mut layers[k];
    if layer.id == id {
        return Some(layer);
    }
    match layer.children_mut() {
        Some(children) => find_mut_in(children, id),
        None => None,
    }
}

/// Whether some layer of the list itself has the given id.
pub open spec fn holds<S>(s: Seq<LayerView<S>>, id: LayerId) -> bool {
    exists|i: int| 0 <= i < s.len() && (#[trigger] s[i]).id == id
}

/// Whether the list itself has a layer for each of `ids`.
pub open spec fn holds_all<S>(s: Seq<LayerView<S>>, ids: Seq<LayerId>) -> bool {
    forall|j: int| 0 <= j < ids.len() ==> holds(s, #[trigger] ids[j])
}

/// The index of the first layer of the list with the given id.
pub open spec fn position<S>(s: Seq<LayerView<S>>, id: LayerId) -> int
    decreases s.len(),
{
    if s.len() == 0 || s[0].id == id {
        0
    } else {
        1 + position(s.drop_first(), id)
    }
}

/// The path of the first list that holds every one of `ids` itself, lists from the outside in.
pub open spec fn home<S>(s: Seq<LayerView<S>>, ids: Seq<LayerId>) -> Option<Seq<int>>
    decreases s, s.len() + 1,
{
    if holds_all(s, ids) {
        Some(Seq::empty())
    } else {
        home_from(s, ids, 0)
    }
}

/// [`home`] among the lists inside the layers of `s` from index `k` on.
pub open spec fn home_from<S>(s: Seq<LayerView<S>>, ids: Seq<LayerId>, k: nat) -> Option<Seq<int>>
    decreases s, s.len() - k,
{
    if k >= s.len() {
        None
    } else {
        let below = if s[k as int].is_container() {
            home(s[k as int].children, ids)
        } else {
            None
        };
        match below {
            Some(p) => Some(seq![k as int] + p),
            None => home_from(s, ids, k + 1),
        }
    }
}

/// Whether `path` leads to a list through layers that can hold others.
pub open spec fn valid_path<S>(s: Seq<LayerView<S>>, path: Seq<int>) -> bool
    decreases path.len(),
{
    path.len() == 0 || {
        &&& 0 <= path[0] < s.len()
        &&& s[path[0]].is_container()
        &&& valid_path(s[path[0]].children, path.drop_first())
    }
}

/// The list at the end of `path`.
pub open spec fn list_at<S>(s: Seq<LayerView<S>>, path: Seq<int>) -> Seq<LayerView<S>>
    decreases path.len(),
{
    if path.len() == 0 {
        s
    } else {
        list_at(s[path[0]].children, path.drop_first())
    }
}

/// `s` with `list` in place of the list at the end of `path`.
pub open spec fn with_list_at<S>(
    s: Seq<LayerView<S>>,
    path: Seq<int>,
    list: Seq<LayerView<S>>,
) -> Seq<LayerView<S>>
    decreases path.len(),
{
    if path.len() == 0 {
        list
    } else {
        s.update(
            path[0],
            s[path[0]].with_children(
                with_list_at(s[path[0]].children, path.drop_first(), list),
            ),
        )
    }
}

/// The id of the layer that owns the list at the end of `path`; none for the top list.
pub open spec fn owner_at<S>(s: Seq<LayerView<S>>, path: Seq<int>) -> Option<LayerId>
    decreases path.len(),
{
    if path.len() == 0 {
        None
    } else if path.len() == 1 {
        Some(s[path[0]].id)
    } else {
        owner_at(s[path[0]].children, path.drop_first())
    }
}

/// A path as the indices it is made of.
pub open spec fn ints(path: Seq<usize>) -> Seq<int> {
    Seq::new(path.len(), |i: int| path[i] as int)
}

/// A home is a valid path to a list that holds the ids.
pub proof fn lemma_home<S>(s: Seq<LayerView<S>>, ids: Seq<LayerId>)
    ensures
        home(s, ids) matches Some(p) ==> valid_path(s, p) && holds_all(list_at(s, p), ids),
    decreases s, s.len() + 1,
{
    if !holds_all(s, ids) {
        lemma_home_from(s, ids, 0);
    }
}

proof fn lemma_home_from<S>(s: Seq<LayerView<S>>, ids: Seq<LayerId>, k: nat)
    ensures
        home_from(s, ids, k) matches Some(p) ==> p.len() > 0 && valid_path(s, p) && holds_all(
            list_at(s, p),
            ids,
        ),
    decreases s, s.len() - k,
{
    if k < s.len() {
        let c = s[k as int];
        if c.is_container() {
            lemma_home(c.children, ids);
        }
        match (if c.is_container() {
            home(c.children, ids)
        } else {
            None
        }) {
            Some(p) => {
                assert((seq![k as int] + p).drop_first() =~= p);
            },
            None => {
                lemma_home_from(s, ids, k + 1);
            },
        }
    }
}

/// A list inside the layer at `k` that holds the ids makes a home.
proof fn lemma_home_inside<S>(s: Seq<LayerView<S>>, ids: Seq<LayerId>, j: nat, k: int)
    requires
        j <= k < s.len(),
        s[k].is_container(),
        home(s[k].children, ids) is Some,
    ensures
        home_from(s, ids, j) is Some,
    decreases k - j,
{
    if j < k {
        lemma_home_inside(s, ids, j + 1, k);
    }
}

/// A path to a list that holds the ids makes a home.
pub proof fn lemma_reached_has_home<S>(s: Seq<LayerView<S>>, ids: Seq<LayerId>, path: Seq<int>)
    requires
        valid_path(s, path),
        holds_all(list_at(s, path), ids),
    ensures
        home(s, ids) is Some,
    decreases path.len(),
{
    if path.len() > 0 && !holds_all(s, ids) {
        lemma_reached_has_home(s[path[0]].children, ids, path.drop_first());
        lemma_home_inside(s, ids, 0, path[0]);
    }
}

/// A layer that is found is in some list.
pub proof fn lemma_found_has_home<S: Scalar>(layers: Seq<Layer<S>>, id: LayerId)
    ensures
        find(views(layers), id) is Some ==> home(views(layers), seq![id]) is Some,
    decreases layers,
{
    broadcast use crate::model::view_children;

    let s = views(layers);
    if find(s, id) is Some {
        let k = lemma_found_at(s, id);
        assert(s[k] == layers[k]@);
        if s[k].id == id {
            assert(holds(s, id));
            assert(holds_all(s, seq![id]));
        } else {
            lemma_found_has_home(layers[k].kind.inside(), id);
            lemma_home_inside(s, seq![id], 0, k);
        }
    }
}

/// Replacing a list leaves the way to it as it was, and the list there is the new one.
pub proof fn lemma_with_list_at<S>(s: Seq<LayerView<S>>, path: Seq<int>, list: Seq<LayerView<S>>)
    requires
        valid_path(s, path),
    ensures
        valid_path(with_list_at(s, path, list), path),
        list_at(with_list_at(s, path, list), path) == list,
        owner_at(with_list_at(s, path, list), path) == owner_at(s, path),
        with_list_at(s, path, list_at(s, path)) == s,
        forall|other: Seq<LayerView<S>>| #[trigger]
            with_list_at(with_list_at(s, path, list), path, other) == with_list_at(s, path, other),
    decreases path.len(),
{
    if path.len() > 0 {
        let k = path[0];
        let rest = path.drop_first();
        lemma_with_list_at(s[k].children, rest, list);
        let t = with_list_at(s, path, list);
        assert(s[k].with_children(s[k].children) == s[k]);
        assert(with_list_at(s, path, list_at(s, path)) =~= s);
        assert forall|other: Seq<LayerView<S>>| #[trigger]
            with_list_at(t, path, other) == with_list_at(s, path, other) by {
            assert(with_list_at(t[k].children, rest, other) == with_list_at(
                s[k].children,
                rest,
                other,
            ));
            assert(t[k].with_children(with_list_at(t[k].children, rest, other)) == s[k].with_children(
                with_list_at(s[k].children, rest, other),
            ));
            assert(with_list_at(t, path, other) =~= with_list_at(s, path, other));
        }
    }
}

/// The position of an id in a list that holds it is the index of such a layer, and none before is one.
pub proof fn lemma_position<S>(s: Seq<LayerView<S>>, id: LayerId)
    ensures
        0 <= position(s, id) <= s.len(),
        holds(s, id) <==> position(s, id) < s.len(),
        position(s, id) < s.len() ==> s[position(s, id)].id == id,
        forall|j: int| 0 <= j < position(s, id) ==> (#[trigger] s[j]).id != id,
    decreases s.len(),
{
    if s.len() > 0 && s[0].id != id {
        let t = s.drop_first();
        lemma_position(t, id);
        assert forall|j: int| 0 <= j < position(s, id) implies (#[trigger] s[j]).id != id by {
            if j > 0 {
                assert(t[j - 1].id != id);
            }
        }
        if holds(s, id) {
            let i = choose|i: int| 0 <= i < s.len() && (#[trigger] s[i]).id == id;
            assert(t[i - 1].id == id);
        }
    }
}

/// The first index with the given id is its position.
pub proof fn lemma_position_is<S>(s: Seq<LayerView<S>>, id: LayerId, k: int)
    requires
        0 <= k <= s.len(),
        k < s.len() ==> s[k].id == id,
        forall|j: int| 0 <= j < k ==> (#[trigger] s[j]).id != id,
    ensures
        position(s, id) == k,
{
    lemma_position(s, id);
    let p = position(s, id);
    if p < k {
        assert(s[p].id != id);
    } else if k < p {
        assert(s[k].id != id);
    }
}

/// The index of the first layer of the list with the given id.
pub fn position_of<S: Scalar>(layers: &Vec<Layer<S>>, id: LayerId) -> (r: Option<usize>)
    ensures
        match r {
            Some(k) => holds(views(layers@), id) && k == position(views(layers@), id) && k
                < layers.len(),
            None => !holds(views(layers@), id),
        },
{
    let ghost s = views(layers@);
    let mut i: usize = 0;
    while i < layers.len()
        invariant
            i <= layers.len(),
            s == views(layers@),
            forall|j: int| 0 <= j < i ==> (#[trigger] s[j]).id != id,
        decreases layers.len() - i,
    {
        assert(s[i as int] == layers@[i as int]@);
        if layers[i].id == id {
            proof {
                lemma_position_is(s, id, i as int);
            }
            return Some(i);
        }
        i += 1;
    }
    None
}

/// Whether the list itself has a layer for each of `ids`.
pub fn list_holds_all<S: Scalar>(layers: &Vec<Layer<S>>, ids: &[LayerId]) -> (r: bool)
    ensures
        r == holds_all(views(layers@), ids@),
{
    let mut i: usize = 0;
    while i < ids.len()
        invariant
            i <= ids.len(),
            forall|j: int| 0 <= j < i ==> holds(views(layers@), #[trigger] ids@[j]),
        decreases ids.len() - i,
    {
        if position_of(layers, ids[i]).is_none() {
            assert(!holds(views(layers@), ids@[i as int]));
            return false;
        }
        i += 1;
    }
    true
}

/// The path of the first list that holds every one of `ids` itself.
pub fn home_path<S: Scalar>(layers: &Vec<Layer<S>>, ids: &[LayerId]) -> (r: Option<Vec<usize>>)
    ensures
        match r {
            Some(p) => home(views(layers@), ids@) == Some(ints(p@)),
            None => home(views(layers@), ids@) is None,
        },
    decreases layers@,
{
    if list_holds_all(layers, ids) {
        let p: Vec<usize> = Vec::new();
        assert(ints(p@) =~= Seq::<int>::empty());
        return Some(p);
    }
    let mut k: usize = 0;
    while k < layers.len()
        invariant
            k <= layers.len(),
            home(views(layers@), ids@) == home_from(views(layers@), ids@, k as nat),
        decreases layers.len() - k,
    {
        assert(views(layers@)[k as int] == layers@[k as int]@);
        if let Some(children) = layers[k].children() {
            if let Some(mut p) = home_path(children, ids) {
                let ghost below = p@;
                p.insert(0, k);
                assert(ints(p@) =~= seq![k as int] + ints(below));
                return Some(p);
            }
        }
        k += 1;
    }
    None
}

/// The list at the end of `path`.
pub fn list_ref<'a, S: Scalar>(layers: &'a Vec<Layer<S>>, path: &Vec<usize>, depth: usize) -> (r:
    &'a Vec<Layer<S>>)
    requires
        depth <= path.len(),
        valid_path(views(layers@), ints(path@).skip(depth as int)),
    ensures
        views(r@) == list_at(views(layers@), ints(path@).skip(depth as int)),
    decreases path.len() - depth,
{
    if depth == path.len() {
        return layers;
    }
    let ghost rest = ints(path@).skip(depth as int);
    assert(rest.drop_first() =~= ints(path@).skip(depth + 1));
    let k = path[depth];
    assert(rest[0] == k as int);
    assert(views(layers@)[k as int] == layers@[k as int]@);
    match layers[k].children() {
        Some(children) => list_ref(children, path, depth + 1),
        None => layers,
    }
}

/// The list at the end of `path`, to be changed.
pub fn list_mut<'a, S: Scalar>(
    layers: &'a mut Vec<Layer<S>>,
    path: &Vec<usize>,
    depth: usize,
) -> (r: &'a mut Vec<Layer<S>>)
    requires
        depth <= path.len(),
        valid_path(views(old(layers)@), ints(path@).skip(depth as int)),
    ensures
        views(r@) == list_at(views(old(layers)@), ints(path@).skip(depth as int)),
        views(final(layers)@) == with_list_at(
            views(old(layers)@),
            ints(path@).skip(depth as int),
            views(final(r)@),
        ),
    decreases path.len() - depth,
{
    if depth == path.len() {
        return layers;
    }
    let ghost rest = ints(path@).skip(depth as int);
    assert(rest.drop_first() =~= ints(path@).skip(depth + 1));
    let k = path[depth];
    assert(rest[0] == k as int);
    assert(views(layers@)[k as int] == layers@[k as int]@);
    let layer = &mut layers[k];
    match layer.children_mut() {
        Some(children) => list_mut(children, path, depth + 1),
        None => vstd::pervasive::unreached(),
    }
}

} // verus!
