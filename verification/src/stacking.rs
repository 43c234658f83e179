//! Where layers come to be in their lists: what is moved, copied, cut, labelled or deleted.
use vstd::prelude::*;

use crate::alignment::artboard_around;
use crate::app::AppView;
use crate::document::without;
use crate::fixed::Fixed;
use crate::geometry::Vec2;
use crate::grouping::{copied, copied_once, moved_layer};
use crate::hit_test::mask_from;
use crate::masking::{run_from, unit, Unit};
use crate::model::{Frame, KindView, LayerId, LayerView, PathPoint};
use crate::panel_actions::{layer_acted, LayerActionView};
use crate::point_editing::{label_layer, points_retyped, points_rounded, split_in_two};
use crate::scalar::Scalar;
use crate::text::{TextAlign, VerticalAlign};
use crate::texture_cache::texel;
use crate::tree::{
    find, holds, home, leads_to, lemma_home, lemma_leads_to, lemma_position_is, lemma_with_list_at,
    list_at, owner_at,
};

verus! {

/// Whether the list at the end of `p` is the first that has the layer, at `k` first.
pub open spec fn stands_at<S>(s: Seq<LayerView<S>>, id: LayerId, p: Seq<int>, k: int) -> bool {
    let list = list_at(s, p);
    &&& home(s, seq![id]) == Some(p)
    &&& 0 <= k < list.len()
    &&& list[k].id == id
    &&& forall|j: int| 0 <= j < k ==> (#[trigger] list[j]).id != id
}

proof fn lemma_stands_at<S>(s: Seq<LayerView<S>>, id: LayerId, p: Seq<int>, k: int)
    requires
        stands_at(s, id, p, k),
    ensures
        crate::tree::valid_path(s, p),
        crate::tree::position(list_at(s, p), id) == k,
{
    lemma_home(s, seq![id]);
    lemma_position_is(list_at(s, p), id, k);
}

/// A layer that is moved on its page comes to be right behind the layer that was at the place it is moved
/// to, and the layers between move up by one.
pub proof fn law_moved_layers_go_where_they_are_put<S: Scalar>(
    s: Seq<LayerView<S>>,
    k: int,
    index: int,
)
    requires
        0 <= k < s.len(),
        0 <= index <= s.len(),
        forall|j: int| 0 <= j < k ==> (#[trigger] s[j]).id != s[k].id,
    ensures
        ({
            let r = moved_layer(s, s[k].id, None, index);
            &&& r.len() == s.len()
            &&& k < index ==> r[index - 1] == s[k] && (forall|j: int|
                k <= j < index - 1 ==> #[trigger] r[j] == s[j + 1])
            &&& index <= k ==> r[index] == s[k] && (forall|j: int|
                index < j <= k ==> #[trigger] r[j] == s[j - 1])
            &&& forall|j: int|
                0 <= j < s.len() && (j < k && j < index || j > k && j >= index)
                    ==> #[trigger] r[j] == s[j]
        }),
{
    let id = s[k].id;
    assert(holds(s, id));
    let none = Seq::<int>::empty();
    assert(seq![id][0] == id);
    assert(home(s, seq![id]) == Some(none));
    assert(list_at(s, none) == s && owner_at(s, none) is None);
    lemma_position_is(s, id, k);
    let i = if k < index {
        index - 1
    } else {
        index
    };
    let r = moved_layer(s, id, None, index);
    assert(r == s.remove(k).insert(i, s[k]));
}

/// A layer that is moved into a container comes to be at the place among its children, in front of
/// which none stays that was behind.
pub proof fn law_moved_layers_enter_containers<S: Scalar>(
    s: Seq<LayerView<S>>,
    k: int,
    m: int,
    index: int,
)
    requires
        0 <= k < m < s.len(),
        s[m].is_container(),
        forall|j: int, i: int|
            0 <= j < s.len() && 0 <= i < s.len() && i != j ==> (#[trigger] s[j]).id != (
            #[trigger] s[i]).id,
        forall|j: int|
            0 <= j < s.len() ==> find((#[trigger] s[j]).children, s[m].id) is None && find(
                s[j].children,
                s[k].id,
            ) is None,
        0 <= index <= s[m].children.len(),
    ensures
        ({
            let r = moved_layer(s, s[k].id, Some(s[m].id), index);
            &&& r.len() == s.len() - 1
            &&& r[m - 1] == s[m].with_children(s[m].children.insert(index, s[k]))
            &&& forall|j: int| 0 <= j < k ==> #[trigger] r[j] == s[j]
            &&& forall|j: int| k <= j < m - 1 ==> #[trigger] r[j] == s[j + 1]
        }),
{
    let id = s[k].id;
    let pid = s[m].id;
    assert(holds(s, id));
    let none = Seq::<int>::empty();
    assert(seq![id][0] == id);
    assert(home(s, seq![id]) == Some(none));
    assert(list_at(s, none) == s && owner_at(s, none) is None);
    assert forall|j: int| 0 <= j < k implies (#[trigger] s[j]).id != id by {
        assert(s[j].id != s[k].id);
    }
    lemma_position_is(s, id, k);
    assert(leads_to(s, id, k)) by {
        assert forall|j: int| 0 <= j < k implies (#[trigger] s[j]).id != id && find(
            s[j].children,
            id,
        ) is None by {
            assert(s[j].id != s[k].id);
        }
    }
    lemma_leads_to(s, id, k);
    assert(s[k].id != s[m].id);
    let t = s.remove(k);
    assert(leads_to(t, pid, m - 1)) by {
        assert(t[m - 1] == s[m]);
        assert forall|j: int| 0 <= j < m - 1 implies (#[trigger] t[j]).id != pid && find(
            t[j].children,
            pid,
        ) is None by {
            let i = if j < k {
                j
            } else {
                j + 1
            };
            assert(t[j] == s[i]);
            assert(s[i].id != s[m].id);
        }
    }
    lemma_leads_to(t, pid, m - 1);
    let w = s[m].with_children(s[m].children.insert(index, s[k]));
    assert(crate::grouping::min_int(index, s[m].children.len() as int) == index);
    assert(moved_layer(s, id, Some(pid), index) == t.update(m - 1, w));
}

/// A copy stands right in front of what it is a copy of, or right behind it; the others stay.
pub proof fn law_copies_stand_next_to_the_copied<S: Scalar>(
    s: Seq<LayerView<S>>,
    id: LayerId,
    p: Seq<int>,
    k: int,
    offset: Vec2<S>,
    n: u64,
)
    requires
        stands_at(s, id, p, k),
    ensures
        ({
            let list = list_at(s, p);
            let front = list_at(copied_once(s, id, offset, false, n as int), p);
            let back = list_at(copied_once(s, id, offset, true, n as int), p);
            &&& front.len() == list.len() + 1 && back.len() == list.len() + 1
            &&& front[k] == list[k] && front[k + 1].id == n && front[k + 1].kind == list[k].kind
            &&& back[k + 1] == list[k] && back[k] == front[k + 1]
            &&& front[k + 1].frame.pos == list[k].frame.pos.spec_plus(offset)
            &&& front[k + 1].frame.size == list[k].frame.size
            &&& front[k + 1].style == list[k].style && front[k + 1].children.len()
                == list[k].children.len()
            &&& forall|j: int|
                0 <= j < k ==> #[trigger] front[j] == list[j] && #[trigger] back[j] == list[j]
            &&& forall|j: int|
                k + 1 < j < front.len() ==> #[trigger] front[j] == list[j - 1]
                    && #[trigger] back[j] == list[j - 1]
        }),
        copied(s, seq![id], offset, false, n as int).1 == seq![n],
{
    lemma_stands_at(s, id, p, k);
    let list = list_at(s, p);
    let c = crate::grouping::copy_of(list[k], n as int, offset);
    lemma_with_list_at(s, p, list.insert(k + 1, c));
    lemma_with_list_at(s, p, list.insert(k, c));
    lemma_renumbered_len(list[k].children, n + 1);
    let ids = seq![id];
    assert(ids.drop_last() =~= Seq::empty());
    assert(copied(s, Seq::empty(), offset, false, n as int) == (
        s,
        Seq::<LayerId>::empty(),
        n as int,
    ));
}

proof fn lemma_renumbered_len<S>(s: Seq<LayerView<S>>, n: int)
    ensures
        crate::model::renumbered_all(s, n).len() == s.len(),
    decreases s.len(),
{
    if s.len() > 0 {
        lemma_renumbered_len(s.drop_last(), n);
    }
}

/// A path that is cut in two leaves two open paths in its place, the first behind the second, that look as
/// it did; the other layers stay.
pub proof fn law_cut_paths_leave_two<S: Scalar>(
    s: Seq<LayerView<S>>,
    id: LayerId,
    v: LayerView<S>,
    p: Seq<int>,
    k: int,
    first: Seq<PathPoint<S>>,
    second: Seq<PathPoint<S>>,
    next: u64,
)
    requires
        stands_at(s, id, p, k),
        find(s, id) == Some(v),
        next < u64::MAX,
    ensures
        ({
            let list = list_at(s, p);
            let r = list_at(split_in_two(s, id, first, second, next), p);
            &&& r.len() == list.len() + 1
            &&& r[k].id == next && r[k + 1].id == next + 1
            &&& r[k].style == v.style && r[k + 1].style == v.style
            &&& r[k].name == v.name && r[k + 1].name == v.name
            &&& r[k].frame.rotation == v.frame.rotation && r[k + 1].frame.rotation
                == v.frame.rotation
            &&& r[k].kind matches KindView::Path { points, closed } && points.len() == first.len()
                && !closed
            &&& r[k + 1].kind matches KindView::Path { points, closed } && points.len()
                == second.len() && !closed
            &&& forall|j: int| 0 <= j < k ==> #[trigger] r[j] == list[j]
            &&& forall|j: int| k + 1 < j < r.len() ==> #[trigger] r[j] == list[j - 1]
        }),
{
    lemma_stands_at(s, id, p, k);
    let list = list_at(s, p);
    let a = crate::path_edit::path_layer(
        next,
        v.name,
        v.style,
        v.frame.pos,
        v.frame.rotation,
        first,
    );
    let b = crate::path_edit::path_layer(
        (next + 1) as u64,
        v.name,
        v.style,
        v.frame.pos,
        v.frame.rotation,
        second,
    );
    let l = list.update(k, a).insert(k + 1, b);
    lemma_with_list_at(s, p, l);
    assert(l[k] == a && l[k + 1] == b);
}

/// A mask takes with it, as one run, every layer right behind it that it clips, and no other; a clipped
/// layer is drawn with its mask alone.
pub proof fn law_a_mask_takes_its_run<S>(s: Seq<LayerView<S>>, i: int)
    requires
        0 <= i < s.len() <= usize::MAX,
    ensures
        unit(s, i) is Clipped <==> mask_from(s, i) is Some,
        unit(s, i) matches Unit::Run { first } ==> s[i].is_mask && first < i && (forall|j: int|
            first <= j < i ==> #[trigger] mask_from(s, j) == Some(i)) && mask_from(s, first - 1)
            != Some(i),
        unit(s, i) is Plain && s[i].is_mask ==> mask_from(s, i - 1) != Some(i),
{
    lemma_run(s, i, i);
}

proof fn lemma_run<S>(s: Seq<LayerView<S>>, m: int, k: int)
    requires
        0 <= k <= m,
    ensures
        0 <= run_from(s, m, k) <= k,
        forall|j: int| run_from(s, m, k) <= j < k ==> #[trigger] mask_from(s, j) == Some(m),
        mask_from(s, run_from(s, m, k) - 1) != Some(m),
    decreases k,
{
    if k > 0 && mask_from(s, k - 1) == Some(m) {
        lemma_run(s, m, k - 1);
    }
}

/// A label lies where what it labels lies, in the middle both ways, and is empty at first.
pub proof fn law_labels_lie_on_what_they_label<S: Scalar>(id: LayerId, f: Frame<S>)
    ensures
        label_layer(id, f).frame == f,
        label_layer(id, f).id == id,
        label_layer(id, f).kind matches KindView::Text { text } && text.align == TextAlign::Center
            && text.vertical_align == VerticalAlign::Middle && text.content.len() == 0,
        label_layer(id, f).visible && !label_layer(id, f).locked,
{
    reveal_strlit("");
}

/// Changing the kind of points, or their rounding, changes neither where a path is nor whether it is
/// closed, nor any other layer of its list; what is no path stays.
pub proof fn law_retyping_changes_one_path<S: Scalar>(
    s: Seq<LayerView<S>>,
    k: int,
    points: Seq<PathPoint<S>>,
    closed: bool,
    indices: Seq<usize>,
    t: crate::model::PointType,
    radius: S,
)
    requires
        leads_to(s, s[k].id, k),
        s[k].kind == (KindView::Path { points, closed }),
    ensures
        ({
            let r = points_retyped(s, s[k].id, indices, t);
            let q = points_rounded(s, s[k].id, indices, Some(radius));
            &&& r.len() == s.len() && q.len() == s.len()
            &&& forall|j: int|
                0 <= j < s.len() && j != k ==> #[trigger] r[j] == s[j] && #[trigger] q[j] == s[j]
            &&& r[k].frame == s[k].frame && r[k].style == s[k].style
            &&& r[k].kind matches KindView::Path { points: new, closed: c } && c == closed && new
                == crate::path_edit::retyped(points, closed, indices, t)
            &&& q[k].kind matches KindView::Path { points: new, closed: c } && c == closed && new
                == crate::path_edit::with_radius(points, indices, radius)
        }),
{
    lemma_leads_to(s, s[k].id, k);
}

/// A layer that is deleted leaves its list, and those in front of it close up; that panels are shown
/// changes nothing of it.
pub proof fn law_deleted_layers_leave<S: Scalar>(
    a: AppView<S>,
    id: LayerId,
    p: Seq<int>,
    k: int,
)
    requires
        a.session.history.current.wf(),
        stands_at(a.session.history.layers(), id, p, k),
    ensures
        ({
            let s = a.session.history.layers();
            let list = list_at(s, p);
            let b = layer_acted(a, LayerActionView::Delete(id));
            let r = list_at(b.session.history.layers(), p);
            &&& r.len() == list.len() - 1
            &&& forall|j: int| 0 <= j < k ==> #[trigger] r[j] == list[j]
            &&& forall|j: int| k <= j < r.len() ==> #[trigger] r[j] == list[j + 1]
            &&& b.panels == a.panels
        }),
        layer_acted(a, LayerActionView::Close).session == a.session,
        !layer_acted(a, LayerActionView::Close).panels.layers,
        layer_acted(a, LayerActionView::Ask) == a,
{
    let s = a.session.history.layers();
    let list = list_at(s, p);
    lemma_stands_at(s, id, p, k);
    lemma_with_list_at(s, p, list.remove(k));
    reveal(layer_acted);
    assert(layer_acted(a, LayerActionView::Delete(id)).session.history.layers() == without(s, id));
}

/// What is right on an artboard is on that artboard; what is in a group is on the board that the group is
/// on, and what is on the page itself is on none.
pub proof fn law_layers_are_on_the_board_around_them<S>(
    s: Seq<LayerView<S>>,
    k: int,
    i: int,
    outer: Option<LayerId>,
)
    requires
        0 <= k < s.len(),
        0 <= i < s[k].children.len(),
        forall|j: int| 0 <= j <= k ==> (#[trigger] s[j]).id != s[k].children[i].id,
        forall|j: int|
            0 <= j < k ==> find((#[trigger] s[j]).children, s[k].children[i].id) is None,
        forall|j: int|
            0 <= j < i ==> (#[trigger] s[k].children[j]).id != s[k].children[i].id && find(
                s[k].children[j].children,
                s[k].children[i].id,
            ) is None,
    ensures
        s[k].kind is Artboard ==> artboard_around(s, s[k].children[i].id, outer) == Some(
            Some(s[k].id),
        ),
        !(s[k].kind is Artboard) ==> artboard_around(s, s[k].children[i].id, outer) == Some(outer),
    decreases k,
{
    let id = s[k].children[i].id;
    let t = s.drop_first();
    assert(s[0].id != id);
    let inner = if s[0].kind is Artboard {
        Some(s[0].id)
    } else {
        outer
    };
    if k == 0 {
        lemma_on_the_list(s[0].children, i, inner);
    } else {
        lemma_on_no_board(s[0].children, id, inner);
        assert(t[k - 1] == s[k]);
        assert forall|j: int| 0 <= j <= k - 1 implies (#[trigger] t[j]).id != id by {
            assert(s[j + 1].id != id);
        }
        assert forall|j: int| 0 <= j < k - 1 implies find((#[trigger] t[j]).children, id) is None by {
            assert(t[j] == s[j + 1]);
        }
        law_layers_are_on_the_board_around_them(t, k - 1, i, outer);
    }
}

proof fn lemma_on_the_list<S>(s: Seq<LayerView<S>>, i: int, outer: Option<LayerId>)
    requires
        0 <= i < s.len(),
        forall|j: int|
            0 <= j < i ==> (#[trigger] s[j]).id != s[i].id && find(s[j].children, s[i].id) is None,
    ensures
        artboard_around(s, s[i].id, outer) == Some(outer),
    decreases i,
{
    if i > 0 {
        let t = s.drop_first();
        assert(s[0].id != s[i].id);
        lemma_on_no_board(
            s[0].children,
            s[i].id,
            if s[0].kind is Artboard {
                Some(s[0].id)
            } else {
                outer
            },
        );
        assert forall|j: int| 0 <= j < i - 1 implies (#[trigger] t[j]).id != t[i - 1].id && find(
            t[j].children,
            t[i - 1].id,
        ) is None by {
            assert(t[j] == s[j + 1]);
        }
        lemma_on_the_list(t, i - 1, outer);
    }
}

proof fn lemma_on_no_board<S>(s: Seq<LayerView<S>>, id: LayerId, outer: Option<LayerId>)
    requires
        find(s, id) is None,
    ensures
        artboard_around(s, id, outer) is None,
    decreases s,
{
    if s.len() > 0 {
        lemma_on_no_board(
            s[0].children,
            id,
            if s[0].kind is Artboard {
                Some(s[0].id)
            } else {
                outer
            },
        );
        lemma_on_no_board(s.drop_first(), id, outer);
    }
}

/// A pixel of a texture stands for a point of the box that the texture covers: within it, and the farther
/// right or down the farther the pixel is.
pub proof fn law_texels_cover_the_box(i: int, j: int, w: int, h: int, size: Vec2<Fixed>)
    requires
        0 <= i < w <= 1024,
        0 <= j < h <= 1024,
        0 <= size.x.raw <= 0x1000_0000,
        0 <= size.y.raw <= 0x1000_0000,
    ensures
        0 <= texel(i, j, w, h, size).x.raw <= size.x.raw,
        0 <= texel(i, j, w, h, size).y.raw <= size.y.raw,
        texel(i, j, w, h, size).x.raw <= texel(i + 1, j, w, h, size).x.raw,
        texel(i, j, w, h, size).y.raw <= texel(i, j + 1, w, h, size).y.raw,
        texel(i, j, w, h, size).x == texel(i, j + 1, w, h, size).x,
        texel(i, j, w, h, size).y == texel(i + 1, j, w, h, size).y,
        w == 1 ==> texel(i, j, w, h, size).x.raw == size.x.raw / 2,
        h == 1 ==> texel(i, j, w, h, size).y.raw == size.y.raw / 2,
{
    lemma_texel(i, w, size.x);
    lemma_texel(j, h, size.y);
}

#[verifier::spinoff_prover]
#[verifier::rlimit(60)]
proof fn lemma_texel(i: int, w: int, size: Fixed)
    requires
        0 <= i < w <= 1024,
        0 <= size.raw <= 0x1000_0000,
    ensures
        ({
            let half = Fixed::spec_ratio(1, 2);
            let a = Fixed::spec_ratio(i, 1).spec_plus(half).spec_over(
                Fixed::spec_ratio(w, 1),
            ).spec_times(size);
            let b = Fixed::spec_ratio(i + 1, 1).spec_plus(half).spec_over(
                Fixed::spec_ratio(w, 1),
            ).spec_times(size);
            &&& 0 <= a.raw <= size.raw
            &&& a.raw <= b.raw
            &&& w == 1 ==> a.raw == size.raw / 2
        }),
{
    let half = Fixed::spec_ratio(1, 2);
    assert(half.raw == 32768);
    let c = Fixed::spec_ratio(w, 1);
    assert(c.raw == w * 65536);
    let m = i * 65536 + 32768;
    let n = m + 65536;
    assert(Fixed::spec_ratio(i, 1).raw == i * 65536);
    assert(Fixed::spec_ratio(i + 1, 1).raw == i * 65536 + 65536);
    assert(Fixed::spec_ratio(i, 1).spec_plus(half).raw == m);
    assert(Fixed::spec_ratio(i + 1, 1).spec_plus(half).raw == n);
    let d = w * 65536;
    let x = (m * 65536) / d;
    let y = (n * 65536) / d;
    lemma_share_of(m, n, d);
    let s = size.raw as int;
    assert(0 <= x * s <= 65536 * s && x * s <= y * s) by (nonlinear_arith)
        requires
            0 <= x <= 65536,
            x <= y,
            0 <= s,
    ;
    assert(y * s <= 131072 * s) by (nonlinear_arith)
        requires
            y <= 131072,
            0 <= s,
    ;
    let p = Fixed::spec_ratio(i, 1).spec_plus(half).spec_over(c);
    let q = Fixed::spec_ratio(i + 1, 1).spec_plus(half).spec_over(c);
    assert(p.raw == x && q.raw == y);
    assert((x * s) / 65536 <= s);
    assert((x * s) / 65536 <= (y * s) / 65536);
    if w == 1 {
        assert(x == 32768);
        assert((32768 * s) / 65536 == s / 2);
    }
}

proof fn lemma_share_of(m: int, n: int, d: int)
    requires
        0 <= m <= d,
        m <= n <= 2 * d,
        0 < d,
    ensures
        0 <= (m * 65536) / d <= 65536,
        (m * 65536) / d <= (n * 65536) / d <= 131072,
        d == 65536 ==> (m * 65536) / d == m,
{
    vstd::arithmetic::div_mod::lemma_div_is_ordered(m * 65536, n * 65536, d);
    vstd::arithmetic::div_mod::lemma_div_is_ordered(0, m * 65536, d);
    vstd::arithmetic::div_mod::lemma_div_is_ordered(m * 65536, 65536 * d, d);
    vstd::arithmetic::div_mod::lemma_div_is_ordered(n * 65536, 131072 * d, d);
    vstd::arithmetic::div_mod::lemma_div_multiples_vanish(65536, d);
    vstd::arithmetic::div_mod::lemma_div_multiples_vanish(131072, d);
    assert(d * 65536 == 65536 * d);
    assert(d * 131072 == 131072 * d);
}

} // verus!
