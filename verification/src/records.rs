//! Changes that are written from a record of what was there when a drag began, so that the last
//! one is all that counts.
use vstd::prelude::*;

use crate::census::{bearers, distinct, how_many};
use crate::dragging::with_layer;
use crate::geometry::{Pos2, Vec2};
use crate::model::{KindView, LayerId, LayerView, PolygonView};
use crate::scalar::Scalar;
use crate::transform::{
    resizable_leaves, resizable_leaves_all, stretched, stretched_leaf, turned, turned_leaf, Remap,
    Rescale, ResizeInfoView, RotateInfoView,
};
use crate::tree::find;

verus! {

/// Whether a change of a layer neither looks at what the layer holds nor changes it, nor its id.
pub open spec fn is_shallow<S>(f: spec_fn(LayerView<S>) -> LayerView<S>) -> bool {
    &&& forall|v: LayerView<S>| (#[trigger] f(v)).id == v.id
    &&& forall|v: LayerView<S>, c: Seq<LayerView<S>>|
        #[trigger] f(v.with_children(c)) == f(v).with_children(c)
}

/// The layers with the first that bears the id changed.
spec fn edited<S>(
    s: Seq<LayerView<S>>,
    id: LayerId,
    f: spec_fn(LayerView<S>) -> LayerView<S>,
) -> Seq<LayerView<S>>
    decreases s,
{
    if s.len() == 0 {
        s
    } else if s[0].id == id {
        s.update(0, f(s[0]))
    } else if find(s[0].children, id) is Some {
        s.update(0, s[0].with_children(edited(s[0].children, id, f)))
    } else {
        seq![s[0]] + edited(s.drop_first(), id, f)
    }
}

proof fn lemma_edited<S>(
    s: Seq<LayerView<S>>,
    id: LayerId,
    f: spec_fn(LayerView<S>) -> LayerView<S>,
)
    ensures
        edited(s, id, f) == with_layer(s, id, f),
        edited(s, id, f).len() == s.len(),
    decreases s,
{
    if s.len() > 0 && s[0].id != id {
        if find(s[0].children, id) is Some {
            lemma_edited(s[0].children, id, f);
        } else {
            lemma_edited(s.drop_first(), id, f);
            assert(seq![s[0]] + s.drop_first() =~= s);
        }
    }
}

/// The head and the rest of the changed layers.
proof fn lemma_edited_parts<S>(
    s: Seq<LayerView<S>>,
    id: LayerId,
    f: spec_fn(LayerView<S>) -> LayerView<S>,
)
    requires
        s.len() > 0,
    ensures
        edited(s, id, f).len() == s.len(),
        edited(s, id, f)[0] == (if s[0].id == id {
            f(s[0])
        } else if find(s[0].children, id) is Some {
            s[0].with_children(edited(s[0].children, id, f))
        } else {
            s[0]
        }),
        edited(s, id, f).drop_first() == (if s[0].id == id || find(s[0].children, id) is Some {
            s.drop_first()
        } else {
            edited(s.drop_first(), id, f)
        }),
{
    lemma_edited(s, id, f);
    let r = edited(s, id, f).drop_first();
    if s[0].id == id || find(s[0].children, id) is Some {
        assert(r =~= s.drop_first());
    } else {
        assert(r =~= edited(s.drop_first(), id, f));
    }
}

/// Two lists are the same if their heads and the rest are.
proof fn lemma_same_parts<A>(a: Seq<A>, b: Seq<A>)
    requires
        a.len() == b.len(),
        a.len() > 0 ==> a[0] == b[0] && a.drop_first() == b.drop_first(),
    ensures
        a == b,
{
    assert forall|i: int| 0 <= i < a.len() implies a[i] == b[i] by {
        if i > 0 {
            assert(a.drop_first()[i - 1] == a[i]);
            assert(b.drop_first()[i - 1] == b[i]);
        }
    }
    assert(a =~= b);
}

/// A change moves no layer: the same are found, and only what they hold may differ.
proof fn lemma_found_edited<S>(
    s: Seq<LayerView<S>>,
    id: LayerId,
    f: spec_fn(LayerView<S>) -> LayerView<S>,
    other: LayerId,
)
    requires
        is_shallow(f),
    ensures
        find(edited(s, id, f), other) is Some <==> find(s, other) is Some,
        find(s, other) matches Some(v) ==> (find(edited(s, id, f), other) matches Some(w) && if other
            == id {
            w == f(v)
        } else {
            w == v.with_children(w.children)
        }),
    decreases s,
{
    if s.len() > 0 {
        lemma_edited_parts(s, id, f);
        lemma_found_edited(s[0].children, id, f, other);
        lemma_found_edited(s.drop_first(), id, f, other);
        let t = edited(s, id, f);
        assert(f(s[0]).children == s[0].children) by {
            assert(s[0].with_children(s[0].children) == s[0]);
            assert(f(s[0]) == f(s[0].with_children(s[0].children)));
        }
        assert(s[0].with_children(s[0].children) == s[0]);
        if find(s[0].children, other) is Some {
            let v = find(s[0].children, other)->0;
            assert(v.with_children(v.children) == v);
        }
        if find(s.drop_first(), other) is Some {
            let v = find(s.drop_first(), other)->0;
            assert(v.with_children(v.children) == v);
        }
    } else {
        lemma_edited(s, id, f);
    }
}

/// A change of one layer is found where the layer was, and every other layer is as it was, apart
/// from what it holds.
pub proof fn lemma_changed_layer<S>(
    s: Seq<LayerView<S>>,
    id: LayerId,
    f: spec_fn(LayerView<S>) -> LayerView<S>,
    other: LayerId,
)
    requires
        is_shallow(f),
    ensures
        find(with_layer(s, id, f), other) is Some <==> find(s, other) is Some,
        find(s, other) matches Some(v) ==> (find(with_layer(s, id, f), other) matches Some(w)
            && if other == id {
            w == f(v)
        } else {
            w == v.with_children(w.children)
        }),
{
    lemma_edited(s, id, f);
    lemma_found_edited(s, id, f, other);
}

/// Two changes of one layer are one change.
proof fn lemma_edited_twice<S>(
    s: Seq<LayerView<S>>,
    id: LayerId,
    f: spec_fn(LayerView<S>) -> LayerView<S>,
    g: spec_fn(LayerView<S>) -> LayerView<S>,
)
    requires
        is_shallow(f),
    ensures
        edited(edited(s, id, f), id, g) == edited(s, id, |v: LayerView<S>| g(f(v))),
    decreases s,
{
    let both = |v: LayerView<S>| g(f(v));
    let t = edited(s, id, f);
    lemma_edited(s, id, f);
    lemma_edited(t, id, g);
    lemma_edited(s, id, both);
    if s.len() > 0 {
        lemma_edited_parts(s, id, f);
        lemma_edited_parts(t, id, g);
        lemma_edited_parts(s, id, both);
        lemma_edited_twice(s[0].children, id, f, g);
        lemma_edited_twice(s.drop_first(), id, f, g);
        lemma_found_edited(s[0].children, id, f, id);
        lemma_same_parts(edited(t, id, g), edited(s, id, both));
    }
}

/// Changes of two layers may be made in either order.
proof fn lemma_edits_commute<S>(
    s: Seq<LayerView<S>>,
    a: LayerId,
    f: spec_fn(LayerView<S>) -> LayerView<S>,
    b: LayerId,
    g: spec_fn(LayerView<S>) -> LayerView<S>,
)
    requires
        a != b,
        is_shallow(f),
        is_shallow(g),
    ensures
        edited(edited(s, a, f), b, g) == edited(edited(s, b, g), a, f),
    decreases s,
{
    let t = edited(s, a, f);
    let u = edited(s, b, g);
    lemma_edited(s, a, f);
    lemma_edited(s, b, g);
    lemma_edited(t, b, g);
    lemma_edited(u, a, f);
    if s.len() > 0 {
        let x = s[0];
        lemma_edited_parts(s, a, f);
        lemma_edited_parts(s, b, g);
        lemma_edited_parts(t, b, g);
        lemma_edited_parts(u, a, f);
        lemma_edits_commute(x.children, a, f, b, g);
        lemma_edits_commute(s.drop_first(), a, f, b, g);
        lemma_found_edited(x.children, a, f, b);
        lemma_found_edited(x.children, b, g, a);
        assert(x.with_children(x.children) == x);
        assert(f(x).children == x.children && g(x).children == x.children) by {
            assert(f(x) == f(x.with_children(x.children)));
            assert(g(x) == g(x.with_children(x.children)));
        }
        assert(edited(t, b, g)[0] == edited(u, a, f)[0]);
        lemma_same_parts(edited(t, b, g), edited(u, a, f));
    } else {
        assert(t =~= s && u =~= s);
    }
}

/// Whether what `p` makes alike it still makes alike after `q`.
pub open spec fn hides<S>(
    p: spec_fn(LayerView<S>) -> LayerView<S>,
    q: spec_fn(LayerView<S>) -> LayerView<S>,
) -> bool {
    forall|v: LayerView<S>, w: LayerView<S>|
        #![trigger p(v), p(w)]
        p(v) == p(w) ==> p(q(v)) == p(q(w))
}

proof fn lemma_hidden<S>(
    s: Seq<LayerView<S>>,
    t: Seq<LayerView<S>>,
    id: LayerId,
    p: spec_fn(LayerView<S>) -> LayerView<S>,
    q: spec_fn(LayerView<S>) -> LayerView<S>,
)
    requires
        is_shallow(p),
        is_shallow(q),
        hides(p, q),
        edited(s, id, p) == edited(t, id, p),
    ensures
        edited(s, id, |v: LayerView<S>| p(q(v))) == edited(t, id, |v: LayerView<S>| p(q(v))),
    decreases s,
{
    let both = |v: LayerView<S>| p(q(v));
    lemma_edited(s, id, p);
    lemma_edited(t, id, p);
    lemma_edited(s, id, both);
    lemma_edited(t, id, both);
    if s.len() > 0 {
        let x = s[0];
        let y = t[0];
        lemma_edited_parts(s, id, p);
        lemma_edited_parts(t, id, p);
        lemma_edited_parts(s, id, both);
        lemma_edited_parts(t, id, both);
        lemma_found_edited(x.children, id, p, id);
        lemma_found_edited(y.children, id, p, id);
        assert(x.id == y.id);
        if x.id == id {
            assert(p(x) == p(y));
        } else if find(x.children, id) is Some {
            let c = edited(x.children, id, p);
            assert(edited(s, id, p)[0].children == c);
            assert(edited(t, id, p)[0].children == c);
            assert(find(c, id) is Some);
            assert(find(y.children, id) is Some);
            lemma_hidden(x.children, y.children, id, p, q);
            assert(x.with_children(c).with_children(edited(x.children, id, both))
                == y.with_children(c).with_children(edited(y.children, id, both)));
        } else {
            assert(edited(s, id, p)[0] == x);
            assert(find(y.children, id) is None) by {
                if find(y.children, id) is Some {
                    assert(edited(t, id, p)[0].children == edited(y.children, id, p));
                    assert(x.children == edited(y.children, id, p));
                }
            }
            lemma_hidden(s.drop_first(), t.drop_first(), id, p, q);
        }
        lemma_same_parts(edited(s, id, both), edited(t, id, both));
    } else {
        assert(s =~= t);
    }
}

/// The layers after the first `n` of some changes.
pub open spec fn written<S>(
    s: Seq<LayerView<S>>,
    ids: Seq<LayerId>,
    f: spec_fn(int) -> spec_fn(LayerView<S>) -> LayerView<S>,
    n: nat,
) -> Seq<LayerView<S>>
    decreases n,
{
    if n == 0 {
        s
    } else {
        with_layer(written(s, ids, f, (n - 1) as nat), ids[n - 1], f((n - 1) as int))
    }
}

/// A change that is written over later leaves no trace, whatever is written in between.
proof fn lemma_written_over<S>(
    u: Seq<LayerView<S>>,
    ids: Seq<LayerId>,
    f: spec_fn(int) -> spec_fn(LayerView<S>) -> LayerView<S>,
    n: nat,
    id: LayerId,
    first: spec_fn(LayerView<S>) -> LayerView<S>,
    second: spec_fn(LayerView<S>) -> LayerView<S>,
)
    requires
        n <= ids.len(),
        is_shallow(first),
        is_shallow(second),
        forall|v: LayerView<S>| #[trigger] second(first(v)) == second(v),
        forall|i: int| 0 <= i < n ==> is_shallow(#[trigger] f(i)) && hides(second, f(i)),
    ensures
        with_layer(written(with_layer(u, id, first), ids, f, n), id, second) == with_layer(
            written(u, ids, f, n),
            id,
            second,
        ),
    decreases n,
{
    lemma_edited(u, id, first);
    if n == 0 {
        lemma_edited(with_layer(u, id, first), id, second);
        lemma_edited(u, id, second);
        lemma_edited_twice(u, id, first, second);
        assert((|v: LayerView<S>| second(first(v))) =~= second);
    } else {
        let k = (n - 1) as nat;
        let g = f(k as int);
        let a = ids[k as int];
        let x = written(with_layer(u, id, first), ids, f, k);
        let y = written(u, ids, f, k);
        assert(is_shallow(g) && hides(second, g));
        lemma_written_over(u, ids, f, k, id, first, second);
        lemma_edited(x, a, g);
        lemma_edited(y, a, g);
        lemma_edited(x, id, second);
        lemma_edited(y, id, second);
        lemma_edited(edited(x, a, g), id, second);
        lemma_edited(edited(y, a, g), id, second);
        if a == id {
            lemma_edited_twice(x, id, g, second);
            lemma_edited_twice(y, id, g, second);
            lemma_hidden(x, y, id, second, g);
        } else {
            lemma_edits_commute(x, a, g, id, second);
            lemma_edits_commute(y, a, g, id, second);
        }
    }
}

/// Writing everything again gives what writing it once would have given.
proof fn lemma_written_again<S>(
    s: Seq<LayerView<S>>,
    ids: Seq<LayerId>,
    f: spec_fn(int) -> spec_fn(LayerView<S>) -> LayerView<S>,
    g: spec_fn(int) -> spec_fn(LayerView<S>) -> LayerView<S>,
    n: nat,
)
    requires
        n <= ids.len(),
        forall|i: int| 0 <= i < n ==> is_shallow(#[trigger] f(i)),
        forall|i: int| 0 <= i < n ==> is_shallow(#[trigger] g(i)),
        forall|i: int, v: LayerView<S>| 0 <= i < n ==> #[trigger] g(i)(f(i)(v)) == g(i)(v),
        forall|i: int, j: int|
            0 <= i < n && 0 <= j < n ==> hides(#[trigger] g(i), #[trigger] g(j)),
    ensures
        written(written(s, ids, f, n), ids, g, n) == written(s, ids, g, n),
    decreases n,
{
    if n > 0 {
        let k = (n - 1) as nat;
        let first = f(k as int);
        let second = g(k as int);
        assert forall|v: LayerView<S>| #[trigger] second(first(v)) == second(v) by {
            assert(g(k as int)(f(k as int)(v)) == g(k as int)(v));
        }
        assert forall|i: int| 0 <= i < k implies is_shallow(#[trigger] g(i)) && hides(
            second,
            g(i),
        ) by {
            assert(hides(g(k as int), g(i)));
        }
        lemma_written_over(written(s, ids, f, k), ids, g, k, ids[k as int], first, second);
        lemma_written_again(s, ids, f, g, k);
    }
}

/// Only the layers that are written change, apart from what they hold.
proof fn lemma_written_elsewhere<S>(
    s: Seq<LayerView<S>>,
    ids: Seq<LayerId>,
    f: spec_fn(int) -> spec_fn(LayerView<S>) -> LayerView<S>,
    n: nat,
    id: LayerId,
)
    requires
        n <= ids.len(),
        forall|i: int| 0 <= i < n ==> is_shallow(#[trigger] f(i)),
        forall|i: int| 0 <= i < n ==> #[trigger] ids[i] != id,
    ensures
        find(written(s, ids, f, n), id) is Some <==> find(s, id) is Some,
        find(s, id) matches Some(v) ==> (find(written(s, ids, f, n), id) matches Some(w) && w
            == v.with_children(w.children)),
    decreases n,
{
    if n > 0 {
        let k = (n - 1) as nat;
        lemma_written_elsewhere(s, ids, f, k, id);
        let t = written(s, ids, f, k);
        assert(ids[k as int] != id);
        lemma_edited(t, ids[k as int], f(k as int));
        lemma_found_edited(t, ids[k as int], f(k as int), id);
    } else if find(s, id) is Some {
        let v = find(s, id)->0;
        assert(v.with_children(v.children) == v);
    }
}

/// Points that are written anew from the same record are as if written once.
proof fn lemma_points_again<S: Scalar>(
    first: Remap<S>,
    second: Remap<S>,
    live: KindView<S>,
    orig: KindView<S>,
)
    ensures
        second.spec_kind(first.spec_kind(live, orig), orig) == second.spec_kind(live, orig),
{
    match (live, orig) {
        (KindView::Path { points, .. }, KindView::Path { points: before, .. }) => {
            assert(second.spec_path_points(first.spec_path_points(points, before), before)
                =~= second.spec_path_points(points, before));
        },
        (KindView::CompoundPath { polygons }, KindView::CompoundPath { polygons: before }) => {
            let mid = first.spec_polygons(polygons, before);
            assert forall|i: int| 0 <= i < polygons.len() implies second.spec_polygons(
                mid,
                before,
            )[i] == second.spec_polygons(polygons, before)[i] by {
                if i < before.len() {
                    let a = second.spec_polygon(mid[i], before[i]);
                    let b = second.spec_polygon(polygons[i], before[i]);
                    assert(a.exterior =~= b.exterior);
                    assert forall|j: int| 0 <= j < a.holes.len() implies a.holes[j] == b.holes[j] by {
                        assert(a.holes[j] =~= b.holes[j]);
                    }
                    assert(a.holes =~= b.holes);
                }
            }
            assert(second.spec_polygons(mid, before) =~= second.spec_polygons(polygons, before));
        },
        _ => {},
    }
}

/// Rings that one map makes alike it still makes alike after another.
#[verifier::spinoff_prover]
proof fn lemma_ring_hidden<S: Scalar>(
    p: Remap<S>,
    q: Remap<S>,
    a: Seq<Pos2<S>>,
    b: Seq<Pos2<S>>,
    po: Seq<Pos2<S>>,
    qo: Seq<Pos2<S>>,
)
    requires
        p.spec_ring(a, po) == p.spec_ring(b, po),
    ensures
        p.spec_ring(q.spec_ring(a, qo), po) == p.spec_ring(q.spec_ring(b, qo), po),
{
    let x = p.spec_ring(a, po);
    let y = p.spec_ring(b, po);
    assert(x.len() == y.len());
    assert(a.len() == b.len());
    assert forall|i: int| 0 <= i < a.len() implies p.spec_ring(q.spec_ring(a, qo), po)[i]
        == p.spec_ring(q.spec_ring(b, qo), po)[i] by {
        assert(x[i] == y[i]);
        if i >= po.len() {
            assert(x[i] == a[i] && y[i] == b[i]);
            assert(q.spec_ring(a, qo)[i] == q.spec_ring(b, qo)[i]);
        }
    }
    assert(p.spec_ring(q.spec_ring(a, qo), po) =~= p.spec_ring(q.spec_ring(b, qo), po));
}

#[verifier::spinoff_prover]
proof fn lemma_polygon_hidden<S: Scalar>(
    p: Remap<S>,
    q: Remap<S>,
    a: PolygonView<S>,
    b: PolygonView<S>,
    po: PolygonView<S>,
    qo: PolygonView<S>,
)
    requires
        p.spec_polygon(a, po) == p.spec_polygon(b, po),
    ensures
        p.spec_polygon(q.spec_polygon(a, qo), po) == p.spec_polygon(q.spec_polygon(b, qo), po),
{
    lemma_ring_hidden(p, q, a.exterior, b.exterior, po.exterior, qo.exterior);
    let x = p.spec_polygon(a, po).holes;
    let y = p.spec_polygon(b, po).holes;
    let u = p.spec_polygon(q.spec_polygon(a, qo), po).holes;
    let w = p.spec_polygon(q.spec_polygon(b, qo), po).holes;
    assert(x.len() == y.len());
    assert(a.holes.len() == b.holes.len());
    assert forall|i: int| 0 <= i < a.holes.len() implies u[i] == w[i] by {
        assert(x[i] == y[i]);
        if i < po.holes.len() && i < qo.holes.len() {
            assert(x[i] == p.spec_ring(a.holes[i], po.holes[i]));
            assert(y[i] == p.spec_ring(b.holes[i], po.holes[i]));
            lemma_ring_hidden(p, q, a.holes[i], b.holes[i], po.holes[i], qo.holes[i]);
        }
    }
    assert(u =~= w);
}

/// Polygons that one map makes alike it still makes alike after another.
#[verifier::spinoff_prover]
proof fn lemma_polygons_hidden<S: Scalar>(
    p: Remap<S>,
    q: Remap<S>,
    a: Seq<PolygonView<S>>,
    b: Seq<PolygonView<S>>,
    po: Seq<PolygonView<S>>,
    qo: Seq<PolygonView<S>>,
)
    requires
        p.spec_polygons(a, po) == p.spec_polygons(b, po),
    ensures
        p.spec_polygons(q.spec_polygons(a, qo), po) == p.spec_polygons(
            q.spec_polygons(b, qo),
            po,
        ),
{
    let x = p.spec_polygons(a, po);
    let y = p.spec_polygons(b, po);
    let u = p.spec_polygons(q.spec_polygons(a, qo), po);
    let w = p.spec_polygons(q.spec_polygons(b, qo), po);
    assert(x.len() == y.len());
    assert(a.len() == b.len());
    assert forall|i: int| 0 <= i < a.len() implies u[i] == w[i] by {
        assert(x[i] == y[i]);
        if i < po.len() && i < qo.len() {
            assert(x[i] == p.spec_polygon(a[i], po[i]));
            assert(y[i] == p.spec_polygon(b[i], po[i]));
            lemma_polygon_hidden(p, q, a[i], b[i], po[i], qo[i]);
        }
    }
    assert(u =~= w);
}

/// Kinds that one map makes alike it still makes alike after another.
proof fn lemma_kind_hidden<S: Scalar>(
    p: Remap<S>,
    q: Remap<S>,
    a: KindView<S>,
    b: KindView<S>,
    po: KindView<S>,
    qo: KindView<S>,
)
    requires
        p.spec_kind(a, po) == p.spec_kind(b, po),
    ensures
        p.spec_kind(q.spec_kind(a, qo), po) == p.spec_kind(q.spec_kind(b, qo), po),
{
    match (a, b) {
        (KindView::Path { points: x, .. }, KindView::Path { points: y, .. }) => {
            if let KindView::Path { points: pp, .. } = po {
                if let KindView::Path { points: qp, .. } = qo {
                    let u = p.spec_path_points(q.spec_path_points(x, qp), pp);
                    let w = p.spec_path_points(q.spec_path_points(y, qp), pp);
                    let s = p.spec_path_points(x, pp);
                    let t = p.spec_path_points(y, pp);
                    assert(s == t);
                    assert(s.len() == t.len());
                    assert forall|i: int| 0 <= i < x.len() implies u[i] == w[i] by {
                        assert(s[i] == t[i]);
                    }
                    assert(u =~= w);
                }
            }
        },
        (KindView::CompoundPath { polygons: x }, KindView::CompoundPath { polygons: y }) => {
            if let KindView::CompoundPath { polygons: pp } = po {
                if let KindView::CompoundPath { polygons: qp } = qo {
                    lemma_polygons_hidden(p, q, x, y, pp, qp);
                }
            }
        },
        _ => {},
    }
}

spec fn stretch_of<S: Scalar>(
    infos: Seq<ResizeInfoView<S>>,
    map: Rescale<S>,
    factor: Option<S>,
) -> spec_fn(int) -> spec_fn(LayerView<S>) -> LayerView<S> {
    |i: int| |v: LayerView<S>| stretched_leaf(v, infos[i], map, factor)
}

spec fn turn_of<S: Scalar>(
    infos: Seq<RotateInfoView<S>>,
    pivot: Pos2<S>,
    degrees: S,
) -> spec_fn(int) -> spec_fn(LayerView<S>) -> LayerView<S> {
    |i: int| |v: LayerView<S>| turned_leaf(v, infos[i], pivot, degrees)
}

/// The ids of the recorded leaves.
pub open spec fn resized_ids<S>(infos: Seq<ResizeInfoView<S>>) -> Seq<LayerId> {
    Seq::new(infos.len(), |i: int| infos[i].id)
}

/// The ids of the recorded leaves.
pub open spec fn turned_ids<S>(infos: Seq<RotateInfoView<S>>) -> Seq<LayerId> {
    Seq::new(infos.len(), |i: int| infos[i].id)
}

proof fn lemma_stretched_is_written<S: Scalar>(
    s: Seq<LayerView<S>>,
    infos: Seq<ResizeInfoView<S>>,
    map: Rescale<S>,
    factor: Option<S>,
    n: nat,
)
    requires
        n <= infos.len(),
    ensures
        stretched(s, infos.take(n as int), map, factor) == written(
            s,
            resized_ids(infos),
            stretch_of(infos, map, factor),
            n,
        ),
    decreases n,
{
    if n > 0 {
        lemma_stretched_is_written(s, infos, map, factor, (n - 1) as nat);
        assert(infos.take(n as int).drop_last() =~= infos.take(n - 1));
    }
}

proof fn lemma_turned_is_written<S: Scalar>(
    s: Seq<LayerView<S>>,
    infos: Seq<RotateInfoView<S>>,
    pivot: Pos2<S>,
    degrees: S,
    n: nat,
)
    requires
        n <= infos.len(),
    ensures
        turned(s, infos.take(n as int), pivot, degrees) == written(
            s,
            turned_ids(infos),
            turn_of(infos, pivot, degrees),
            n,
        ),
    decreases n,
{
    if n > 0 {
        lemma_turned_is_written(s, infos, pivot, degrees, (n - 1) as nat);
        assert(infos.take(n as int).drop_last() =~= infos.take(n - 1));
    }
}

/// Leaves that one resize makes alike it still makes alike after another.
proof fn lemma_stretch_hides<S: Scalar>(
    p: ResizeInfoView<S>,
    q: ResizeInfoView<S>,
    map: Rescale<S>,
    factor: Option<S>,
    v: LayerView<S>,
    w: LayerView<S>,
)
    requires
        stretched_leaf(v, p, map, factor) == stretched_leaf(w, p, map, factor),
    ensures
        stretched_leaf(stretched_leaf(v, q, map, factor), p, map, factor) == stretched_leaf(
            stretched_leaf(w, q, map, factor),
            p,
            map,
            factor,
        ),
{
    let pb = crate::transform::stretched_bounds(p, map);
    let qb = crate::transform::stretched_bounds(q, map);
    let pm = Remap::Stretch {
        map,
        from: p.abs_bounds.min,
        parent_offset: p.parent_offset,
        origin: pb.min,
    };
    let qm = Remap::Stretch {
        map,
        from: q.abs_bounds.min,
        parent_offset: q.parent_offset,
        origin: qb.min,
    };
    let a = stretched_leaf(v, p, map, factor);
    let b = stretched_leaf(w, p, map, factor);
    let c = stretched_leaf(stretched_leaf(v, q, map, factor), p, map, factor);
    let d = stretched_leaf(stretched_leaf(w, q, map, factor), p, map, factor);
    assert(a.kind == b.kind);
    assert(c.kind == d.kind) by {
        if v.kind is Rectangle {
            assert(w.kind is Rectangle);
        } else {
            assert(!(w.kind is Rectangle));
            lemma_kind_hidden(pm, qm, v.kind, w.kind, p.original_kind, q.original_kind);
        }
    }
    assert(a.style == b.style);
    assert(c.style == d.style);
    assert(a.id == b.id && a.children == b.children);
    assert(v == LayerView { frame: v.frame, kind: v.kind, style: v.style, ..a });
    assert(w == LayerView { frame: w.frame, kind: w.kind, style: w.style, ..b });
    assert(c == d);
}

/// However far a resize was dragged before, the layers come out as if it had been dragged there at
/// once; an earlier step may have scaled strokes and corners only if the last one does too.
pub proof fn law_resizing_does_not_build_up<S: Scalar>(
    s: Seq<LayerView<S>>,
    infos: Seq<ResizeInfoView<S>>,
    first: Rescale<S>,
    first_factor: Option<S>,
    second: Rescale<S>,
    second_factor: Option<S>,
)
    requires
        first_factor is None || second_factor is Some,
    ensures
        stretched(stretched(s, infos, first, first_factor), infos, second, second_factor)
            == stretched(s, infos, second, second_factor),
{
    let ids = resized_ids(infos);
    let f = stretch_of(infos, first, first_factor);
    let g = stretch_of(infos, second, second_factor);
    let n = infos.len();
    assert(infos.take(n as int) =~= infos);
    lemma_stretched_is_written(s, infos, first, first_factor, n);
    lemma_stretched_is_written(s, infos, second, second_factor, n);
    lemma_stretched_is_written(written(s, ids, f, n), infos, second, second_factor, n);
    assert forall|i: int, v: LayerView<S>| 0 <= i < n implies #[trigger] g(i)(f(i)(v)) == g(i)(
        v,
    ) by {
        crate::transform::law_resizing_a_leaf_does_not_build_up(
            v,
            infos[i],
            first,
            first_factor,
            second,
            second_factor,
        );
    }
    assert forall|i: int, j: int| 0 <= i < n && 0 <= j < n implies hides(
        #[trigger] g(i),
        #[trigger] g(j),
    ) by {
        assert forall|v: LayerView<S>, w: LayerView<S>|
            #![trigger g(i)(v), g(i)(w)]
            g(i)(v) == g(i)(w) implies g(i)(g(j)(v)) == g(i)(g(j)(w)) by {
            lemma_stretch_hides(infos[i], infos[j], second, second_factor, v, w);
        }
    }
    lemma_written_again(s, ids, f, g, n);
}

/// However far a rotation was dragged before, the layers come out as if it had been dragged there
/// at once.
pub proof fn law_turning_does_not_build_up<S: Scalar>(
    s: Seq<LayerView<S>>,
    infos: Seq<RotateInfoView<S>>,
    first_pivot: Pos2<S>,
    first_degrees: S,
    second_pivot: Pos2<S>,
    second_degrees: S,
)
    ensures
        turned(
            turned(s, infos, first_pivot, first_degrees),
            infos,
            second_pivot,
            second_degrees,
        ) == turned(s, infos, second_pivot, second_degrees),
{
    let ids = turned_ids(infos);
    let f = turn_of(infos, first_pivot, first_degrees);
    let g = turn_of(infos, second_pivot, second_degrees);
    let n = infos.len();
    assert(infos.take(n as int) =~= infos);
    lemma_turned_is_written(s, infos, first_pivot, first_degrees, n);
    lemma_turned_is_written(s, infos, second_pivot, second_degrees, n);
    lemma_turned_is_written(written(s, ids, f, n), infos, second_pivot, second_degrees, n);
    assert forall|i: int, v: LayerView<S>| 0 <= i < n implies #[trigger] g(i)(f(i)(v)) == g(i)(
        v,
    ) by {
        lemma_points_again(
            crate::transform::turn_map(infos[i], first_pivot, first_degrees),
            crate::transform::turn_map(infos[i], second_pivot, second_degrees),
            v.kind,
            infos[i].original_kind,
        );
    }
    assert forall|i: int, j: int| 0 <= i < n && 0 <= j < n implies hides(
        #[trigger] g(i),
        #[trigger] g(j),
    ) by {
        assert forall|v: LayerView<S>, w: LayerView<S>|
            #![trigger g(i)(v), g(i)(w)]
            g(i)(v) == g(i)(w) implies g(i)(g(j)(v)) == g(i)(g(j)(w)) by {
            let a = turned_leaf(v, infos[i], second_pivot, second_degrees);
            let b = turned_leaf(w, infos[i], second_pivot, second_degrees);
            assert(a == b);
            assert(v == LayerView { frame: v.frame, kind: v.kind, ..a });
            assert(w == LayerView { frame: w.frame, kind: w.kind, ..b });
            lemma_kind_hidden(
                crate::transform::turn_map(infos[i], second_pivot, second_degrees),
                crate::transform::turn_map(infos[j], second_pivot, second_degrees),
                v.kind,
                w.kind,
                infos[i].original_kind,
                infos[j].original_kind,
            );
        }
    }
    lemma_written_again(s, ids, f, g, n);
}

/// A resize changes no container, apart from what it holds, as long as what was recorded are not
/// containers.
pub proof fn law_resizing_keeps_containers<S: Scalar>(
    s: Seq<LayerView<S>>,
    infos: Seq<ResizeInfoView<S>>,
    map: Rescale<S>,
    factor: Option<S>,
    id: LayerId,
)
    requires
        find(s, id) matches Some(v) && v.is_container(),
        forall|i: int|
            0 <= i < infos.len() ==> (find(s, (#[trigger] infos[i]).id) matches Some(v)
                ==> !v.is_container()),
    ensures
        find(stretched(s, infos, map, factor), id) matches Some(w) && w == (find(s, id)->0).with_children(
            w.children,
        ),
{
    let ids = resized_ids(infos);
    let f = stretch_of(infos, map, factor);
    let n = infos.len();
    assert(infos.take(n as int) =~= infos);
    lemma_stretched_is_written(s, infos, map, factor, n);
    assert forall|i: int| 0 <= i < n implies #[trigger] ids[i] != id by {
        assert(ids[i] == infos[i].id);
    }
    lemma_written_elsewhere(s, ids, f, n, id);
}

/// How many containers among the layers, and among all that they hold, bear the id.
spec fn holders<S>(s: Seq<LayerView<S>>, id: LayerId) -> nat
    decreases s,
{
    if s.len() == 0 {
        0
    } else {
        holders(s.drop_last(), id) + holders(s.last().children, id) + if s.last().id == id
            && s.last().is_container() {
            1nat
        } else {
            0
        }
    }
}

/// How many others bear the id, wherever they are.
spec fn leaves<S>(s: Seq<LayerView<S>>, id: LayerId) -> nat
    decreases s,
{
    if s.len() == 0 {
        0
    } else {
        leaves(s.drop_last(), id) + leaves(s.last().children, id) + if s.last().id == id
            && !s.last().is_container() {
            1nat
        } else {
            0
        }
    }
}

proof fn lemma_holders_and_leaves<S>(s: Seq<LayerView<S>>, id: LayerId)
    ensures
        holders(s, id) + leaves(s, id) == how_many(s, id),
    decreases s,
{
    if s.len() > 0 {
        lemma_holders_and_leaves(s.drop_last(), id);
        lemma_holders_and_leaves(s.last().children, id);
        assert(bearers(s.last(), id) == how_many(s.last().children, id) + if s.last().id == id {
            1nat
        } else {
            0
        });
    }
}

/// The counts of a list are those of its members.
proof fn lemma_member_counts<S>(s: Seq<LayerView<S>>, k: int, id: LayerId)
    requires
        0 <= k < s.len(),
    ensures
        holders(s, id) >= holders(s[k].children, id) + (if s[k].id == id && s[k].is_container() {
            1nat
        } else {
            0
        }),
        leaves(s, id) >= leaves(s[k].children, id) + (if s[k].id == id && !s[k].is_container() {
            1nat
        } else {
            0
        }),
    decreases s.len(),
{
    if k < s.len() - 1 {
        assert(s.drop_last()[k] == s[k]);
        lemma_member_counts(s.drop_last(), k, id);
    }
}

/// What is found counts in the list in which it is found, and so does all that it holds.
proof fn lemma_found_counts<S>(s: Seq<LayerView<S>>, found: LayerId, id: LayerId)
    ensures
        find(s, found) matches Some(v) ==> {
            &&& holders(s, id) >= holders(v.children, id) + (if v.id == id && v.is_container() {
                1nat
            } else {
                0
            })
            &&& leaves(s, id) >= leaves(v.children, id) + (if v.id == id && !v.is_container() {
                1nat
            } else {
                0
            })
        },
    decreases s,
{
    if find(s, found) is Some {
        let k = crate::tree::lemma_found_at(s, found);
        crate::tree::lemma_leads_to(s, found, k);
        lemma_member_counts(s, k, id);
        if s[k].id != found {
            lemma_found_counts(s[k].children, found, id);
        }
    }
}

/// What is recorded under a layer are leaves at or under it.
proof fn lemma_recorded_are_leaves<S: Scalar>(v: LayerView<S>, offset: Vec2<S>, i: int)
    requires
        0 <= i < resizable_leaves(v, offset).len(),
    ensures
        ({
            let id = resizable_leaves(v, offset)[i].id;
            leaves(v.children, id) + (if v.id == id && !v.is_container() {
                1nat
            } else {
                0
            }) >= 1
        }),
    decreases v, 1int,
{
    if v.is_container() {
        lemma_recorded_are_leaves_all(
            v.children,
            offset.spec_plus(v.frame.pos.spec_to_vec2()),
            i,
        );
    }
}

proof fn lemma_recorded_are_leaves_all<S: Scalar>(s: Seq<LayerView<S>>, offset: Vec2<S>, i: int)
    requires
        0 <= i < resizable_leaves_all(s, offset).len(),
    ensures
        leaves(s, resizable_leaves_all(s, offset)[i].id) >= 1,
    decreases s, 0int,
{
    let rest = resizable_leaves_all(s.drop_last(), offset);
    if i < rest.len() {
        lemma_recorded_are_leaves_all(s.drop_last(), offset, i);
    } else {
        lemma_recorded_are_leaves(s.last(), offset, i - rest.len());
    }
}

/// What a resize of a layer of the page records are not containers, where every layer of the page
/// has an id of its own.
pub proof fn law_recorded_layers_are_no_containers<S: Scalar>(
    s: Seq<LayerView<S>>,
    next: int,
    id: LayerId,
    offset: Vec2<S>,
    i: int,
)
    requires
        distinct(s, next),
        find(s, id) is Some,
        0 <= i < resizable_leaves(find(s, id)->0, offset).len(),
    ensures
        find(s, resizable_leaves(find(s, id)->0, offset)[i].id) matches Some(v)
            ==> !v.is_container(),
{
    let v = find(s, id)->0;
    let leaf = resizable_leaves(v, offset)[i].id;
    lemma_recorded_are_leaves(v, offset, i);
    lemma_found_counts(s, id, leaf);
    lemma_found_counts(s, leaf, leaf);
    lemma_holders_and_leaves(s, leaf);
    crate::tree::lemma_find_id(s, leaf);
    assert(how_many(s, leaf) <= 1);
}

/// A resize of a layer of the page changes no container's frame, where every layer of the page has
/// an id of its own.
pub proof fn law_a_recorded_resize_keeps_containers<S: Scalar>(
    s: Seq<LayerView<S>>,
    next: int,
    selected: LayerId,
    offset: Vec2<S>,
    map: Rescale<S>,
    factor: Option<S>,
    id: LayerId,
)
    requires
        distinct(s, next),
        find(s, selected) is Some,
        find(s, id) matches Some(v) && v.is_container(),
    ensures
        find(stretched(s, resizable_leaves(find(s, selected)->0, offset), map, factor), id) matches Some(
            w,
        ) && w == (find(s, id)->0).with_children(w.children),
{
    let infos = resizable_leaves(find(s, selected)->0, offset);
    assert forall|i: int| 0 <= i < infos.len() implies (find(s, (#[trigger] infos[i]).id) matches Some(
        v,
    ) ==> !v.is_container()) by {
        law_recorded_layers_are_no_containers(s, next, selected, offset, i);
    }
    law_resizing_keeps_containers(s, infos, map, factor, id);
}

} // verus!
