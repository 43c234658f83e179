//! Where copies in a grid and images come to be, and how colours are stored.
use vstd::prelude::*;

use crate::alignment::{artboard_around, artboard_box};
use crate::app::{copies_turned, images_placed};
use crate::canvas::Session;
use crate::color::{scaled_channel, Color32};
use crate::document::offset_of;
use crate::fixed::Fixed;
use crate::geometry::Vec2;
use crate::grid_ops::{cell_offset, gridded, Grid};
use crate::grouping::{copied, copy_of};
use crate::model::{LayerId, LayerView};
use crate::placement::container_pos;
use crate::scalar::Scalar;
use crate::tree::{
    find, holds, home, leads_to, lemma_leads_to, lemma_position_is, list_at, with_list_at,
};

verus! {

/// Each cell of a grid but the first gets a copy, as far from the layer as the cell is from the first; what
/// was on the page stays.
pub proof fn law_cells_get_their_copies<S: Scalar>(
    s: Seq<LayerView<S>>,
    j: int,
    grid: Grid<S>,
    n: int,
    k: nat,
)
    requires
        0 <= j < s.len(),
        forall|i: int| 0 <= i < j ==> (#[trigger] s[i]).id != s[j].id,
        k >= 1,
    ensures
        ({
            let r = gridded(s, s[j].id, grid, n, k).0;
            &&& r.len() == s.len() + k - 1
            &&& forall|i: int| 0 <= i <= j ==> #[trigger] r[i] == s[i]
            &&& forall|i: int| j + k <= i < r.len() ==> #[trigger] r[i] == s[i - (k - 1)]
            &&& forall|i: int|
                j < i < j + k ==> (#[trigger] r[i]).frame.pos == s[j].frame.pos.spec_plus(
                    cell_offset(grid, j + k - i),
                ) && r[i].frame.size == s[j].frame.size && r[i].kind == s[j].kind && r[i].style
                    == s[j].style
        }),
    decreases k,
{
    if k > 1 {
        let id = s[j].id;
        law_cells_get_their_copies(s, j, grid, n, (k - 1) as nat);
        let (t, made, m) = gridded(s, id, grid, n, (k - 1) as nat);
        let off = cell_offset(grid, k - 1);
        assert(t[j] == s[j]);
        assert forall|i: int| 0 <= i < j implies (#[trigger] t[i]).id != id by {
            assert(t[i] == s[i]);
        }
        lemma_one_copied(t, j, off, m);
        let r = gridded(s, id, grid, n, k).0;
        assert(r == t.insert(j + 1, copy_of(t[j], m, off)));
        assert forall|i: int| j < i < j + k implies (#[trigger] r[i]).frame.pos
            == s[j].frame.pos.spec_plus(cell_offset(grid, j + k - i)) && r[i].frame.size
            == s[j].frame.size && r[i].kind == s[j].kind && r[i].style == s[j].style by {
            if i > j + 1 {
                assert(r[i] == t[i - 1]);
            }
        }
    }
}

proof fn lemma_one_copied<S: Scalar>(t: Seq<LayerView<S>>, j: int, off: Vec2<S>, m: int)
    requires
        0 <= j < t.len(),
        forall|i: int| 0 <= i < j ==> (#[trigger] t[i]).id != t[j].id,
    ensures
        copied(t, seq![t[j].id], off, false, m).0 == t.insert(j + 1, copy_of(t[j], m, off)),
{
    let id = t[j].id;
    let ids = seq![id];
    lemma_first_at_top(t, j);
    assert(ids.drop_last() =~= Seq::empty());
    assert(copied(t, Seq::empty(), off, false, m) == (t, Seq::<LayerId>::empty(), m));
}

/// A layer of the page itself is at home there.
proof fn lemma_first_at_top<S>(t: Seq<LayerView<S>>, j: int)
    requires
        0 <= j < t.len(),
        forall|i: int| 0 <= i < j ==> (#[trigger] t[i]).id != t[j].id,
    ensures
        home(t, seq![t[j].id]) == Some(Seq::<int>::empty()),
        list_at(t, Seq::<int>::empty()) == t,
        forall|l: Seq<LayerView<S>>| #[trigger] with_list_at(t, Seq::<int>::empty(), l) == l,
        crate::tree::position(t, t[j].id) == j,
{
    let id = t[j].id;
    assert(holds(t, id));
    assert(seq![id][0] == id);
    lemma_position_is(t, id, j);
}

/// New images come in front of all; where a container is to take them, in front of what it holds, at the
/// same place on the page.
pub proof fn law_images_stand_where_they_are_put(
    s: Seq<LayerView<Fixed>>,
    new: Seq<LayerView<Fixed>>,
    k: int,
    pos: Vec2<Fixed>,
    i: int,
)
    requires
        leads_to(s, s[k].id, k),
        container_pos(s, s[k].id) == Some(pos),
        0 <= i < new.len(),
        -0x1000_0000 <= new[i].frame.pos.x.raw <= 0x1000_0000,
        -0x1000_0000 <= new[i].frame.pos.y.raw <= 0x1000_0000,
        -0x1000_0000 <= pos.x.raw <= 0x1000_0000,
        -0x1000_0000 <= pos.y.raw <= 0x1000_0000,
    ensures
        images_placed(s, new, None) == s + new,
        ({
            let r = images_placed(s, new, Some(s[k].id));
            let inside = s[k].children.len() as int;
            &&& r.len() == s.len() && r[k].children.len() == inside + new.len()
            &&& r[k].children.take(inside) == s[k].children
            &&& r[k].children[inside + i].frame.pos.spec_plus(pos) == new[i].frame.pos
            &&& r[k].children[inside + i].frame.size == new[i].frame.size
            &&& r[k].children[inside + i].kind == new[i].kind
            &&& forall|j: int| 0 <= j < s.len() && j != k ==> #[trigger] r[j] == s[j]
        }),
{
    lemma_leads_to(s, s[k].id, k);
    let r = images_placed(s, new, Some(s[k].id));
    let inside = s[k].children.len() as int;
    let more = crate::grouping::moved_back(new, pos);
    assert(r[k].children == s[k].children + more);
    assert(r[k].children[inside + i] == more[i]);
    assert(r[k].children.take(inside) =~= s[k].children);
}

/// Turned copies are what is selected after they were made; without any nothing else is.
pub proof fn law_turned_copies_are_selected<S>(
    s: Session<S>,
    count: u32,
    layers: Seq<LayerView<S>>,
    made: Seq<LayerId>,
)
    requires
        s.selection.len() > 0,
        count > 0,
        s.history.current.wf(),
    ensures
        made.len() > 0 ==> copies_turned(s, count, layers, made).selection == made,
        made.len() == 0 ==> copies_turned(s, count, layers, made).selection == s.selection,
        copies_turned(s, count, layers, made).history.layers() == layers,
        copies_turned(s, 0, layers, made) == s,
{
}

/// The box of the artboard around a layer, seen from the list that the layer is in, lies on the page where
/// the artboard lies.
pub proof fn law_boards_seen_from_inside(
    s: Seq<LayerView<Fixed>>,
    id: LayerId,
    a: LayerId,
    v: LayerView<Fixed>,
    outer: Vec2<Fixed>,
    inner: Vec2<Fixed>,
)
    requires
        artboard_around(s, id, None) == Some(Some(a)),
        find(s, a) == Some(v),
        offset_of(s, a, Vec2::spec_zero()) == Some(outer),
        offset_of(s, id, Vec2::spec_zero()) == Some(inner),
        crate::plane::near_box(v.frame.spec_bounds()),
        crate::plane::near_box(v.frame.spec_bounds().spec_translate(outer)),
        -0x1000_0000 <= inner.x.raw <= 0x1000_0000,
        -0x1000_0000 <= inner.y.raw <= 0x1000_0000,
    ensures
        artboard_box(s, id) matches Some(b) && b.spec_translate(inner)
            == v.frame.spec_bounds().spec_translate(outer),
{
}

/// A channel of a colour is stored times its alpha, as the nearest whole number; opaque colours are stored
/// as they are, and invisible ones as nothing.
pub proof fn law_channels_are_stored_times_their_alpha(r: u8, g: u8, b: u8, a: u8)
    ensures
        ({
            let c = Color32::spec_unmultiplied(r, g, b, a);
            &&& c.a == a
            &&& -127 <= 255 * c.r - r * a <= 127
            &&& -127 <= 255 * c.g - g * a <= 127
            &&& -127 <= 255 * c.b - b * a <= 127
            &&& c.r <= a && c.g <= a && c.b <= a
        }),
{
    lemma_scaled(r, a);
    lemma_scaled(g, a);
    lemma_scaled(b, a);
    assert(r * 255 == 255 * r && g * 255 == 255 * g && b * 255 == 255 * b);
    assert(r * 0 == 0 && g * 0 == 0 && b * 0 == 0);
}

proof fn lemma_scaled(v: u8, a: u8)
    ensures
        -127 <= 255 * scaled_channel(v, a) - v * a <= 127,
        0 <= scaled_channel(v, a) <= a,
{
    let x = v * a;
    assert(0 <= x <= 255 * a) by (nonlinear_arith)
        requires
            x == v * a,
            0 <= v <= 255,
            0 <= a,
    ;
    let p = x + 128;
    let q = p / 256;
    let c = (p + q) / 256;
    assert(c == q || c == q + 1);
    assert(-127 <= 255 * c - x <= 127);
}

/// A colour that is drawn has its channels times its alpha, cut off, so that none exceeds the alpha.
pub proof fn law_drawn_colours_do_not_exceed_their_alpha(c: Color32)
    ensures
        c.spec_premultiplied() matches Some(d) && d.a == c.a && d.r <= d.a && d.g <= d.a && d.b
            <= d.a && 255 * d.r <= c.r * c.a < 255 * (d.r + 1) && 255 * d.g <= c.g * c.a < 255 * (
        d.g + 1) && 255 * d.b <= c.b * c.a < 255 * (d.b + 1),
{
    lemma_cut_off(c.r, c.a);
    lemma_cut_off(c.g, c.a);
    lemma_cut_off(c.b, c.a);
}

proof fn lemma_cut_off(v: u8, a: u8)
    ensures
        0 <= v * a / 255 <= a,
        255 * (v * a / 255) <= v * a < 255 * (v * a / 255 + 1),
{
    let x = v * a;
    assert(0 <= x <= 255 * a) by (nonlinear_arith)
        requires
            x == v * a,
            0 <= v <= 255,
            0 <= a,
    ;
}

} // verus!
