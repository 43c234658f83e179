//! What a press and a rubber band take hold of.
//!
//! A layer is found by way of the layers around it: a path of places, the first in the list of the
//! page, each next one in the list that the layer before it holds.
use vstd::prelude::*;

use crate::fixed::Fixed;
use crate::geometry::{Pos2, Rect, Vec2};
use crate::hit_test::{banded, clipped, hit, mask_from, on_layer, queries, stacked};
use crate::model::{Frame, LayerId, LayerView};
use crate::plane::lemma_unturned;
use crate::scalar::Scalar;

verus! {

/// Whether the mask at `m` is in front of the layer at `i` and takes it in: between the two, the
/// layer counted, there is no other mask and none that ignores masks.
#[verifier::opaque]
pub open spec fn takes_in<S>(s: Seq<LayerView<S>>, i: int, m: int) -> bool {
    &&& i < m < s.len()
    &&& s[m].is_mask
    &&& forall|j: int| i <= j < m ==> !(#[trigger] s[j]).is_mask && !s[j].ignore_mask
}

/// Whether a mask takes in the layer at `i` and does not let the point through.
pub open spec fn is_masked_off<S>(s: Seq<LayerView<S>>, i: int, revealing: Seq<LayerId>) -> bool {
    exists|m: int| #[trigger] takes_in(s, i, m) && !revealing.contains(s[m].id)
}

proof fn lemma_mask_in_front<S>(s: Seq<LayerView<S>>, i: int, m: int)
    requires
        0 <= i < s.len(),
    ensures
        takes_in(s, i, m) == (mask_from(s, i) == Some(m)),
    decreases s.len() - i,
{
    reveal(takes_in);
    if i < s.len() - 1 && !s[i].is_mask && !s[i].ignore_mask {
        if s[i + 1].is_mask {
            if takes_in(s, i, m) && m > i + 1 {
                assert(!s[i + 1].is_mask);
            }
        } else {
            lemma_mask_in_front(s, i + 1, m);
            if takes_in(s, i + 1, m) {
                assert forall|j: int| i <= j < m implies !(#[trigger] s[j]).is_mask
                    && !s[j].ignore_mask by {
                    if j > i {
                        assert(!s[j].is_mask);
                    }
                }
            }
        }
    } else if takes_in(s, i, m) {
        assert(!s[i].is_mask && !s[i].ignore_mask);
    }
}

/// A layer is clipped away by the first mask in front of it and by no other: not by one behind it,
/// nor past a mask or a layer that ignores masks, and a mask clips no mask.
pub proof fn law_masks_clip_what_is_behind_them<S>(
    s: Seq<LayerView<S>>,
    i: int,
    revealing: Seq<LayerId>,
)
    requires
        0 <= i < s.len(),
    ensures
        clipped(s, i, revealing) == is_masked_off(s, i, revealing),
{
    if let Some(m) = mask_from(s, i) {
        lemma_mask_in_front(s, i, m);
    }
    if is_masked_off(s, i, revealing) {
        let m = choose|m: int| #[trigger] takes_in(s, i, m) && !revealing.contains(s[m].id);
        lemma_mask_in_front(s, i, m);
    }
}

/// Whether a press at the point may take the layer at `i` of a list: it is shown, not locked, under
/// the point and not masked off there.
pub open spec fn may_be_taken<S: Scalar>(
    s: Seq<LayerView<S>>,
    i: int,
    pos: Pos2<S>,
    solid: Seq<LayerId>,
    revealing: Seq<LayerId>,
) -> bool {
    &&& 0 <= i < s.len()
    &&& s[i].visible
    &&& !s[i].locked
    &&& on_layer(s[i], pos, solid)
    &&& !is_masked_off(s, i, revealing)
}

/// Whether a layer keeps what it holds to itself: a boolean group is one shape.
pub open spec fn is_one_shape<S>(v: LayerView<S>) -> bool {
    v.kind is BooleanGroup
}

/// The point as what a layer holds sees it.
pub open spec fn seen_inside<S: Scalar>(v: LayerView<S>, pos: Pos2<S>) -> Pos2<S> {
    Pos2 { x: pos.x.spec_minus(v.frame.pos.x), y: pos.y.spec_minus(v.frame.pos.y) }
}

/// Whether no layer of a list from the place `i` on may be taken.
#[verifier::opaque]
pub open spec fn none_from<S: Scalar>(
    s: Seq<LayerView<S>>,
    i: int,
    pos: Pos2<S>,
    solid: Seq<LayerId>,
    revealing: Seq<LayerId>,
) -> bool {
    forall|j: int| i <= j < s.len() ==> !(#[trigger] may_be_taken(s, j, pos, solid, revealing))
}

/// Whether a path leads to the layer with the id through layers that may each be taken, none of
/// which has one in front of it that may, and ends where nothing inside may.
pub open spec fn leads_to<S: Scalar>(
    s: Seq<LayerView<S>>,
    path: Seq<int>,
    id: LayerId,
    pos: Pos2<S>,
    solid: Seq<LayerId>,
    revealing: Seq<LayerId>,
) -> bool
    decreases path.len(),
{
    if path.len() == 0 || !may_be_taken(s, path[0], pos, solid, revealing) {
        false
    } else if !none_from(s, path[0] + 1, pos, solid, revealing) {
        false
    } else if path.len() == 1 {
        s[path[0]].id == id && (is_one_shape(s[path[0]]) || none_from(
            s[path[0]].children,
            0,
            seen_inside(s[path[0]], pos),
            solid,
            revealing,
        ))
    } else {
        !is_one_shape(s[path[0]]) && leads_to(
            s[path[0]].children,
            path.drop_first(),
            id,
            seen_inside(s[path[0]], pos),
            solid,
            revealing,
        )
    }
}

/// Whether some path leads to the layer with the id.
#[verifier::opaque]
pub open spec fn is_led_to<S: Scalar>(
    s: Seq<LayerView<S>>,
    id: LayerId,
    pos: Pos2<S>,
    solid: Seq<LayerId>,
    revealing: Seq<LayerId>,
) -> bool {
    exists|path: Seq<int>| leads_to(s, path, id, pos, solid, revealing)
}

/// A press takes the frontmost layer under the point that is shown and not locked, and of what that
/// layer holds again the frontmost, and so on: neither it nor a layer around it is hidden, locked,
/// masked off or beside the point. It takes nothing only where there is no such layer.
pub proof fn law_a_press_takes_the_frontmost_open_layer<S: Scalar>(
    s: Seq<LayerView<S>>,
    pos: Pos2<S>,
    solid: Seq<LayerId>,
    revealing: Seq<LayerId>,
)
    ensures
        match hit(s, s.len(), pos, solid, revealing) {
            Some(id) => is_led_to(s, id, pos, solid, revealing),
            None => none_from(s, 0, pos, solid, revealing),
        },
    decreases s, s.len() + 1,
{
    reveal(none_from);
    lemma_hit(s, s.len(), pos, solid, revealing);
}

/// What the first `k` layers of a list answer a press, where none of the others may be taken.
proof fn lemma_hit<S: Scalar>(
    s: Seq<LayerView<S>>,
    k: nat,
    pos: Pos2<S>,
    solid: Seq<LayerId>,
    revealing: Seq<LayerId>,
)
    requires
        k <= s.len(),
        none_from(s, k as int, pos, solid, revealing),
    ensures
        match hit(s, k, pos, solid, revealing) {
            Some(id) => is_led_to(s, id, pos, solid, revealing),
            None => none_from(s, 0, pos, solid, revealing),
        },
    decreases s, k,
{
    if k > 0 {
        let i = k - 1;
        let v = s[i];
        law_masks_clip_what_is_behind_them(s, i, revealing);
        if may_be_taken(s, i, pos, solid, revealing) {
            let inner = seen_inside(v, pos);
            assert(inner == pos.spec_minus(v.frame.pos.spec_to_vec2()));
            assert(!clipped(s, i, revealing));
            if is_one_shape(v) {
                assert(hit(s, k, pos, solid, revealing) == Some(v.id));
                assert(seq![i][0] == i);
                assert(is_led_to(s, v.id, pos, solid, revealing)) by {
                    reveal(is_led_to);
                    assert(leads_to(s, seq![i], v.id, pos, solid, revealing));
                }
            } else {
                law_a_press_takes_the_frontmost_open_layer(v.children, inner, solid, revealing);
                match hit(v.children, v.children.len(), inner, solid, revealing) {
                    Some(id) => {
                        reveal(is_led_to);
                        let rest = choose|path: Seq<int>|
                            leads_to(v.children, path, id, inner, solid, revealing);
                        let path = seq![i] + rest;
                        assert(path.drop_first() =~= rest);
                        assert(rest.len() > 0);
                        assert(hit(s, k, pos, solid, revealing) == Some(id));
                        assert(is_led_to(s, id, pos, solid, revealing)) by {
                            reveal(is_led_to);
                            assert(leads_to(s, path, id, pos, solid, revealing));
                        }
                    },
                    None => {
                        assert(hit(s, k, pos, solid, revealing) == Some(v.id));
                        assert(seq![i][0] == i);
                        assert(is_led_to(s, v.id, pos, solid, revealing)) by {
                            reveal(is_led_to);
                            assert(leads_to(s, seq![i], v.id, pos, solid, revealing));
                        }
                    },
                }
            }
        } else {
            assert(none_from(s, i, pos, solid, revealing)) by {
                reveal(none_from);
            }
            lemma_hit(s, (k - 1) as nat, pos, solid, revealing);
            assert(hit(s, k, pos, solid, revealing) == hit(
                s,
                (k - 1) as nat,
                pos,
                solid,
                revealing,
            ));
        }
    }
}

/// Whether a frame is so near that nothing is cut off when its corners are worked out.
pub open spec fn near_frame(f: Frame<Fixed>) -> bool {
    &&& -0x1000_0000 <= f.pos.x.raw <= 0x1000_0000
    &&& -0x1000_0000 <= f.pos.y.raw <= 0x1000_0000
    &&& -0x1000_0000 <= f.size.x.raw <= 0x1000_0000
    &&& -0x1000_0000 <= f.size.y.raw <= 0x1000_0000
}

/// Whether a number is between two others, in whatever order they come.
pub open spec fn between(n: int, a: int, b: int) -> bool {
    a <= n <= b || b <= n <= a
}

/// A point is on an upright layer where it is between the frame's two ends across and down; it is
/// on a turned one where it is on the upright one once it is turned back about the middle of the
/// frame. A boolean group is where its shape is said to be.
pub proof fn law_points_on_layers(v: LayerView<Fixed>, pos: Pos2<Fixed>, solid: Seq<LayerId>)
    requires
        near_frame(v.frame),
        -0x2000_0000 <= pos.x.raw <= 0x2000_0000,
        -0x2000_0000 <= pos.y.raw <= 0x2000_0000,
    ensures
        v.kind is BooleanGroup ==> on_layer(v, pos, solid) == solid.contains(v.id),
        !(v.kind is BooleanGroup) && v.frame.rotation.raw == 0 ==> on_layer(v, pos, solid) == (
        between(pos.x.raw as int, v.frame.pos.x.raw as int, v.frame.pos.x.raw + v.frame.size.x.raw)
            && between(
            pos.y.raw as int,
            v.frame.pos.y.raw as int,
            v.frame.pos.y.raw + v.frame.size.y.raw,
        )),
        !(v.kind is BooleanGroup) ==> ({
            let upright = v.with_frame(Frame { rotation: Fixed { raw: 0 }, ..v.frame });
            let back = pos.spec_rotated(
                v.frame.spec_bounds().spec_center(),
                v.frame.rotation.spec_negated(),
            );
            -0x2000_0000 <= back.x.raw <= 0x2000_0000 && -0x2000_0000 <= back.y.raw <= 0x2000_0000
                ==> on_layer(v, pos, solid) == on_layer(upright, back, solid)
        }),
{
    let b = v.frame.spec_bounds();
    let c = b.spec_center();
    let zero = Fixed { raw: 0 };
    crate::plane::lemma_halved(b.min.x, b.max.x);
    crate::plane::lemma_halved(b.min.y, b.max.y);
    lemma_unturned(pos, c);
    assert(zero.spec_negated() == zero);
    let back = pos.spec_rotated(c, v.frame.rotation.spec_negated());
    let upright = v.with_frame(Frame { rotation: zero, ..v.frame });
    assert(upright.frame.spec_bounds() == b);
    if -0x2000_0000 <= back.x.raw <= 0x2000_0000 && -0x2000_0000 <= back.y.raw <= 0x2000_0000 {
        lemma_unturned(back, c);
    }
}

/// Whether a path leads through layers that are shown and not locked to the one with the id, and the
/// box around it, turned as it is and moved to where its holder stands, has the point in it.
pub open spec fn lies_under<S: Scalar>(
    s: Seq<LayerView<S>>,
    path: Seq<int>,
    id: LayerId,
    offset: Vec2<S>,
    pos: Pos2<S>,
) -> bool
    decreases path.len(),
{
    if path.len() == 0 || !(0 <= path[0] < s.len()) {
        false
    } else {
        let v = s[path[0]];
        &&& v.visible
        &&& !v.locked
        &&& if path.len() == 1 {
            v.id == id && v.frame.spec_rotated_bounds().spec_translate(offset).spec_contains(pos)
        } else {
            lies_under(v.children, path.drop_first(), id, carried(v, offset), pos)
        }
    }
}

/// Where what a layer holds is counted from, the layer being counted from `offset`.
pub open spec fn carried<S: Scalar>(v: LayerView<S>, offset: Vec2<S>) -> Vec2<S> {
    Vec2 { x: offset.x.spec_plus(v.frame.pos.x), y: offset.y.spec_plus(v.frame.pos.y) }
}

/// The layers under a point are all those that are shown and not locked, nor anything around them
/// hidden or locked, and whose boxes have the point in them; none other is listed.
pub proof fn law_layers_under_a_point<S: Scalar>(
    s: Seq<LayerView<S>>,
    offset: Vec2<S>,
    pos: Pos2<S>,
    id: LayerId,
)
    ensures
        stacked(s, offset, pos).contains(id) == (exists|path: Seq<int>|
            lies_under(s, path, id, offset, pos)),
    decreases s,
{
    if s.len() > 0 {
        let v = s.last();
        let t = s.drop_last();
        let n = s.len() - 1;
        let inner = carried(v, offset);
        law_layers_under_a_point(t, offset, pos, id);
        law_layers_under_a_point(v.children, inner, pos, id);
        let all = stacked(s, offset, pos);
        let rest = stacked(t, offset, pos);
        let inside = stacked(v.children, inner, pos);
        let on = v.frame.spec_rotated_bounds().spec_translate(offset).spec_contains(pos);
        let own = if on {
            seq![v.id]
        } else {
            Seq::empty()
        };
        if v.visible && !v.locked {
            assert(all == own + inside + rest);
            lemma_in_three(own, inside, rest, id);
            if on {
                assert(own[0] == v.id);
            }
        }
        if exists|path: Seq<int>| lies_under(s, path, id, offset, pos) {
            let path = choose|path: Seq<int>| lies_under(s, path, id, offset, pos);
            if path[0] < n {
                assert(t[path[0]] == s[path[0]]);
                assert(lies_under(t, path, id, offset, pos));
            } else if path.len() > 1 {
                assert(lies_under(v.children, path.drop_first(), id, inner, pos));
            } else {
                assert(own.contains(id)) by {
                    assert(own[0] == id);
                }
            }
        }
        if all.contains(id) {
            if rest.contains(id) {
                let path = choose|path: Seq<int>| lies_under(t, path, id, offset, pos);
                assert(t[path[0]] == s[path[0]]);
                assert(lies_under(s, path, id, offset, pos));
            } else if inside.contains(id) {
                let path = choose|path: Seq<int>| lies_under(v.children, path, id, inner, pos);
                let longer = seq![n] + path;
                assert(longer.drop_first() =~= path);
                assert(lies_under(s, longer, id, offset, pos));
            } else {
                assert(lies_under(s, seq![n], v.id, offset, pos));
            }
        }
    }
}

proof fn lemma_in_three<A>(a: Seq<A>, b: Seq<A>, c: Seq<A>, x: A)
    ensures
        (a + b + c).contains(x) == (a.contains(x) || b.contains(x) || c.contains(x)),
{
    let all = a + b + c;
    if a.contains(x) {
        let i = choose|i: int| 0 <= i < a.len() && a[i] == x;
        assert(all[i] == x);
    }
    if b.contains(x) {
        let i = choose|i: int| 0 <= i < b.len() && b[i] == x;
        assert(all[a.len() + i] == x);
    }
    if c.contains(x) {
        let i = choose|i: int| 0 <= i < c.len() && c[i] == x;
        assert(all[a.len() + b.len() + i] == x);
    }
    if all.contains(x) {
        let i = choose|i: int| 0 <= i < all.len() && all[i] == x;
        if i < a.len() {
            assert(a[i] == x);
        } else if i < a.len() + b.len() {
            assert(b[i - a.len()] == x);
        } else {
            assert(c[i - a.len() - b.len()] == x);
        }
    }
}

/// The layers under a point are listed from front to back: all of what is in front, then all of what
/// is behind it; and a layer before what it holds.
pub proof fn law_layers_in_front_come_first<S: Scalar>(
    back: Seq<LayerView<S>>,
    front: Seq<LayerView<S>>,
    v: LayerView<S>,
    offset: Vec2<S>,
    pos: Pos2<S>,
)
    ensures
        stacked(back + front, offset, pos) == stacked(front, offset, pos) + stacked(
            back,
            offset,
            pos,
        ),
        lies_under(seq![v], seq![0], v.id, offset, pos) ==> stacked(seq![v], offset, pos).len() > 0
            && stacked(seq![v], offset, pos)[0] == v.id,
    decreases front.len(),
{
    if front.len() == 0 {
        assert(back + front =~= back);
        assert(stacked(front, offset, pos) + stacked(back, offset, pos) =~= stacked(
            back,
            offset,
            pos,
        ));
    } else {
        let t = front.drop_last();
        law_layers_in_front_come_first(back, t, v, offset, pos);
        assert((back + front).drop_last() =~= back + t);
        assert((back + front).last() == front.last());
        assert(stacked(back + front, offset, pos) =~= stacked(front, offset, pos) + stacked(
            back,
            offset,
            pos,
        ));
    }
    assert(seq![v].last() == v);
}

/// Whether a rubber band takes the layer with the id at the end of a path: nothing on the way is
/// hidden or locked, and its box meets the band or lies in it. Where groups are ignored the path goes
/// on into every container; where they are not it ends in the list itself.
pub open spec fn is_banded<S: Scalar>(
    s: Seq<LayerView<S>>,
    path: Seq<int>,
    id: LayerId,
    offset: Vec2<S>,
    band: Rect<S>,
    contained_only: bool,
    ignore_groups: bool,
) -> bool
    decreases path.len(),
{
    if path.len() == 0 || !(0 <= path[0] < s.len()) {
        false
    } else {
        let v = s[path[0]];
        let b = v.frame.spec_rotated_bounds().spec_translate(offset);
        &&& v.visible
        &&& !v.locked
        &&& if path.len() == 1 {
            &&& v.id == id
            &&& !(ignore_groups && v.is_container())
            &&& contained_only ==> band.spec_contains_rect(b)
            &&& !contained_only ==> band.spec_intersects(b)
        } else {
            &&& ignore_groups
            &&& v.is_container()
            &&& is_banded(
                v.children,
                path.drop_first(),
                id,
                carried(v, offset),
                band,
                contained_only,
                ignore_groups,
            )
        }
    }
}

/// A rubber band takes exactly the layers that it reaches.
pub proof fn law_a_band_takes_what_it_reaches<S: Scalar>(
    s: Seq<LayerView<S>>,
    offset: Vec2<S>,
    band: Rect<S>,
    contained_only: bool,
    ignore_groups: bool,
    id: LayerId,
)
    ensures
        banded(s, offset, band, contained_only, ignore_groups).contains(id) == (exists|
            path: Seq<int>,
        |
            is_banded(s, path, id, offset, band, contained_only, ignore_groups)),
    decreases s,
{
    let (c, g) = (contained_only, ignore_groups);
    if s.len() > 0 {
        let v = s.last();
        let t = s.drop_last();
        let n = s.len() - 1;
        let inner = carried(v, offset);
        law_a_band_takes_what_it_reaches(t, offset, band, c, g, id);
        law_a_band_takes_what_it_reaches(v.children, inner, band, c, g, id);
        let all = banded(s, offset, band, c, g);
        let rest = banded(t, offset, band, c, g);
        let inside = banded(v.children, inner, band, c, g);
        let b = v.frame.spec_rotated_bounds().spec_translate(offset);
        let none = Seq::<LayerId>::empty();
        let own = if (c && band.spec_contains_rect(b)) || (!c && band.spec_intersects(b)) {
            seq![v.id]
        } else {
            none
        };
        let here = if !v.visible || v.locked {
            none
        } else if g && v.is_container() {
            inside
        } else {
            own
        };
        assert(all =~= rest + here + none);
        lemma_in_three(rest, here, none, id);
        if exists|path: Seq<int>| is_banded(s, path, id, offset, band, c, g) {
            let path = choose|path: Seq<int>| is_banded(s, path, id, offset, band, c, g);
            if path[0] < n {
                assert(t[path[0]] == s[path[0]]);
                assert(is_banded(t, path, id, offset, band, c, g));
            } else if path.len() > 1 {
                assert(is_banded(v.children, path.drop_first(), id, inner, band, c, g));
            } else {
                assert(own.contains(id)) by {
                    assert(own[0] == id);
                }
            }
        }
        if all.contains(id) {
            if rest.contains(id) {
                let path = choose|path: Seq<int>| is_banded(t, path, id, offset, band, c, g);
                assert(t[path[0]] == s[path[0]]);
                assert(is_banded(s, path, id, offset, band, c, g));
            } else if g && v.is_container() {
                let path = choose|path: Seq<int>|
                    is_banded(v.children, path, id, inner, band, c, g);
                let longer = seq![n] + path;
                assert(longer.drop_first() =~= path);
                assert(is_banded(s, longer, id, offset, band, c, g));
            } else {
                assert(is_banded(s, seq![n], v.id, offset, band, c, g));
            }
        }
    }
}

/// A rubber band lists what it takes from back to front.
pub proof fn law_a_band_lists_from_back_to_front<S: Scalar>(
    back: Seq<LayerView<S>>,
    front: Seq<LayerView<S>>,
    offset: Vec2<S>,
    band: Rect<S>,
    contained_only: bool,
    ignore_groups: bool,
)
    ensures
        banded(back + front, offset, band, contained_only, ignore_groups) == banded(
            back,
            offset,
            band,
            contained_only,
            ignore_groups,
        ) + banded(front, offset, band, contained_only, ignore_groups),
    decreases front.len(),
{
    let (c, g) = (contained_only, ignore_groups);
    if front.len() == 0 {
        assert(back + front =~= back);
        assert(banded(back, offset, band, c, g) + banded(front, offset, band, c, g) =~= banded(
            back,
            offset,
            band,
            c,
            g,
        ));
    } else {
        let t = front.drop_last();
        law_a_band_lists_from_back_to_front(back, t, offset, band, c, g);
        assert((back + front).drop_last() =~= back + t);
        assert((back + front).last() == front.last());
        assert(banded(back + front, offset, band, c, g) =~= banded(back, offset, band, c, g)
            + banded(front, offset, band, c, g));
    }
}

/// What has to be known before a press can be answered: for each mask and each boolean group on the
/// page, but not inside a boolean group, whether the point, as its list sees it, is in its shape.
pub proof fn law_masks_and_boolean_groups_are_asked_about<S: Scalar>(
    s: Seq<LayerView<S>>,
    pos: Pos2<S>,
    path: Seq<int>,
)
    requires
        is_asked_about(s, path),
    ensures
        exists|k: int|
            0 <= k < queries(s, pos).len() && (#[trigger] queries(s, pos)[k]).id == asked_layer(
                s,
                path,
            ).id && queries(s, pos)[k].pos == asked_point(s, path, pos),
    decreases s,
{
    let v = s.last();
    let t = s.drop_last();
    let n = s.len() - 1;
    let own = if v.is_mask || v.kind is BooleanGroup {
        seq![crate::hit_test::CoverageQuery { id: v.id, pos }]
    } else {
        Seq::empty()
    };
    let before = queries(t, pos);
    if path[0] < n {
        assert(t[path[0]] == s[path[0]]);
        law_masks_and_boolean_groups_are_asked_about(t, pos, path);
        let k = choose|k: int|
            0 <= k < before.len() && (#[trigger] before[k]).id == asked_layer(t, path).id
                && before[k].pos == asked_point(t, path, pos);
        assert(queries(s, pos)[k] == before[k]);
    } else if path.len() == 1 {
        assert(queries(s, pos)[before.len() as int] == own[0]);
    } else {
        let inner = seen_inside(v, pos);
        let rest = path.drop_first();
        law_masks_and_boolean_groups_are_asked_about(v.children, inner, rest);
        let inside = queries(v.children, inner);
        let k = choose|k: int|
            0 <= k < inside.len() && (#[trigger] inside[k]).id == asked_layer(v.children, rest).id
                && inside[k].pos == asked_point(v.children, rest, inner);
        assert(queries(s, pos)[before.len() + own.len() + k] == inside[k]);
    }
}

/// Whether a path ends at a mask or a boolean group and goes through no boolean group.
pub open spec fn is_asked_about<S>(s: Seq<LayerView<S>>, path: Seq<int>) -> bool
    decreases path.len(),
{
    if path.len() == 0 || !(0 <= path[0] < s.len()) {
        false
    } else if path.len() == 1 {
        s[path[0]].is_mask || is_one_shape(s[path[0]])
    } else {
        !is_one_shape(s[path[0]]) && is_asked_about(s[path[0]].children, path.drop_first())
    }
}

/// The layer at the end of a path.
pub open spec fn asked_layer<S>(s: Seq<LayerView<S>>, path: Seq<int>) -> LayerView<S>
    decreases path.len(),
{
    if path.len() <= 1 {
        s[path[0]]
    } else {
        asked_layer(s[path[0]].children, path.drop_first())
    }
}

/// The point as the list at the end of a path sees it.
pub open spec fn asked_point<S: Scalar>(s: Seq<LayerView<S>>, path: Seq<int>, pos: Pos2<S>) -> Pos2<
    S,
>
    decreases path.len(),
{
    if path.len() <= 1 {
        pos
    } else {
        asked_point(s[path[0]].children, path.drop_first(), seen_inside(s[path[0]], pos))
    }
}

} // verus!
