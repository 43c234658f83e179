//! What new layers are like and where on the page they come to be.
use vstd::prelude::*;

use crate::alignment::DistributeAxis;
use crate::clipboard::{paste_shift, put_in, shifted, taken};
use crate::fixed::Fixed;
use crate::geometry::{Pos2, Rect, Vec2};
use crate::grid_ops::{cell_offset, grid_of, Grid};
use crate::grouping::moved;
use crate::model::{ArrowCap, Frame, KindView, LayerId, LayerView};
use crate::placement::{
    artboard_at, dropped_into, gap_middle, inserted_at, inserted_layer, is_drag, made_by_tool,
    Tool,
};
use crate::plane::{lemma_halved, near, near_box, near_point};
use crate::pointing::near_frame;
use crate::scalar::Scalar;
use crate::text::TextResize;
use crate::tree::find;

verus! {

/// What a tool draws is what it is named for, upright, in the box that was dragged out; lines keep the
/// way in which they were dragged. The tools that draw nothing make nothing.
pub proof fn law_tools_make_what_they_are_named_for(id: LayerId, frame: Frame<Fixed>)
    requires
        near_frame(frame),
    ensures
        made_by_tool(id, Tool::Select, frame) is None,
        made_by_tool(id, Tool::Pan, frame) is None,
        made_by_tool(id, Tool::Pen, frame) is None,
        made_by_tool(id, Tool::Scissors, frame) is None,
        made_by_tool(id, Tool::Rectangle, frame) matches Some(v) && v.kind is Rectangle && v.id == id
            && is_boxed(v, frame),
        made_by_tool(id, Tool::Oval, frame) matches Some(v) && v.kind is Oval && v.id == id
            && is_boxed(v, frame),
        made_by_tool(id, Tool::Star, frame) matches Some(v) && v.id == id && is_boxed(v, frame) && (
        v.kind matches KindView::Star { points, inner_ratio } && points == 5 && inner_ratio.raw
            == 32768),
        made_by_tool(id, Tool::Polygon, frame) matches Some(v) && v.id == id && is_boxed(v, frame)
            && (v.kind matches KindView::Polygon { sides } && sides == 6),
        made_by_tool(id, Tool::Artboard, frame) matches Some(v) && v.kind is Artboard && v.id == id
            && is_boxed(v, frame) && v.children.len() == 0,
        made_by_tool(id, Tool::Line, frame) matches Some(v) && v.kind is Line && v.id == id && v.frame
            == frame,
        made_by_tool(id, Tool::Arrow, frame) matches Some(v) && v.id == id && v.frame == frame && (
        v.kind matches KindView::Arrow { start_cap, end_cap } && start_cap == ArrowCap::Bare
            && end_cap == ArrowCap::Triangle),
        made_by_tool(id, Tool::Text, frame) matches Some(v) && v.id == id && v.frame.pos
            == frame.spec_bounds().min && (v.kind matches KindView::Text { text } && (
        text.resize == TextResize::Fixed ==> v.frame.spec_bounds() == frame.spec_bounds()) && (
        text.resize == TextResize::Fixed <==> is_drag(frame.spec_bounds())) && text.resize
            != TextResize::AutoHeight),
{
    assert(Fixed::spec_ratio(1, 2).raw == 32768);
}

/// Whether a layer fills the box of a frame and stands upright in it.
pub open spec fn is_boxed(v: LayerView<Fixed>, frame: Frame<Fixed>) -> bool {
    &&& v.frame.pos == frame.spec_bounds().min
    &&& v.frame.spec_end() == frame.spec_bounds().max
    &&& v.frame.rotation.raw == 0
}

/// A press is a drag where it went more than two units across or down.
pub proof fn law_when_a_press_is_a_drag(b: Rect<Fixed>)
    requires
        near_box(b),
    ensures
        is_drag(b) <==> b.max.x.raw - b.min.x.raw > 2 * 65536 || b.max.y.raw - b.min.y.raw > 2
            * 65536,
{
    assert(Fixed::spec_ratio(2, 1).raw == 131072);
}

/// A new layer goes into the first artboard that it begins on.
pub proof fn law_the_first_artboard_takes_it<S: Scalar>(
    s: Seq<LayerView<S>>,
    p: Pos2<S>,
    k: int,
    j: int,
)
    requires
        0 <= k <= j < s.len(),
    ensures
        artboard_at(s, p, k) matches Some(i) ==> k <= i < s.len() && s[i].kind is Artboard
            && s[i].frame.spec_bounds().spec_contains(p) && (j < i && s[j].kind is Artboard
            ==> !s[j].frame.spec_bounds().spec_contains(p)),
        artboard_at(s, p, k) is None ==> !(s[j].kind is Artboard
            && s[j].frame.spec_bounds().spec_contains(p)),
    decreases s.len() - k,
{
    if k + 1 < s.len() && !(s[k].kind is Artboard && s[k].frame.spec_bounds().spec_contains(p)) {
        law_the_first_artboard_takes_it(s, p, k + 1, if j > k {
            j
        } else {
            k + 1
        });
    }
    if k + 1 == s.len() {
        assert(artboard_at(s, p, k + 1) is None);
    }
}

/// A layer that is dropped into a container is in front of what it holds, and where it was on the page.
pub proof fn law_dropping_moves_nothing(into: LayerView<Fixed>, v: LayerView<Fixed>, by: Vec2<Fixed>)
    requires
        near_point(v.frame.pos),
        near(by.x) && near(by.y),
    ensures
        ({
            let w = dropped_into(into, v, by);
            let last = w.children.last();
            &&& w.children.len() == into.children.len() + 1
            &&& w.children.drop_last() == into.children
            &&& w.frame == into.frame && w.id == into.id && w.kind == into.kind
            &&& last.frame.pos.spec_plus(by) == v.frame.pos
            &&& last == v.with_frame(Frame { pos: last.frame.pos, ..v.frame })
        }),
{
    let w = dropped_into(into, v, by);
    assert(w.children.drop_last() =~= into.children);
}

/// A layer that is put on a page is in front of all others there, or in the artboard that it begins on,
/// and nowhere moved; no other layer of the page changes.
pub proof fn law_insertions_move_nothing(
    s: Seq<LayerView<Fixed>>,
    v: LayerView<Fixed>,
    start: Pos2<Fixed>,
    i: int,
)
    requires
        near_point(v.frame.pos),
        forall|k: int| 0 <= k < s.len() ==> near_point((#[trigger] s[k]).frame.pos),
        0 <= i < s.len(),
    ensures
        artboard_at(s, start, 0) is None ==> inserted_at(s, v, start) == s.push(v),
        artboard_at(s, start, 0) matches Some(k) ==> ({
            let t = inserted_at(s, v, start);
            let w = t[k].children.last();
            &&& t.len() == s.len()
            &&& i != k ==> t[i] == s[i]
            &&& t[k].frame == s[k].frame
            &&& w.frame.pos.x.raw + s[k].frame.pos.x.raw == v.frame.pos.x.raw
            &&& w.frame.pos.y.raw + s[k].frame.pos.y.raw == v.frame.pos.y.raw
            &&& w.id == v.id && w.kind == v.kind
        }),
        inserted_layer(s, v, start, None) == inserted_at(s, v, start),
{
    law_the_first_artboard_takes_it(s, start, 0, i);
    if let Some(k) = artboard_at(s, start, 0) {
        law_dropping_moves_nothing(s[k], v, s[k].frame.pos.spec_to_vec2());
    }
}

/// The handle of a gap is midway between the two layers that it is between.
pub proof fn law_gap_handles_are_midway(a: Rect<Fixed>, b: Rect<Fixed>)
    requires
        near_box(a) && near_box(b),
    ensures
        ({
            let h = gap_middle(a, b, DistributeAxis::Horizontal);
            let v = gap_middle(a, b, DistributeAxis::Vertical);
            &&& 0 <= (b.min.x.raw - h.x.raw) - (h.x.raw - a.max.x.raw) <= 1
            &&& 0 <= (b.spec_center().y.raw - h.y.raw) - (h.y.raw - a.spec_center().y.raw) <= 1
            &&& 0 <= (b.min.y.raw - v.y.raw) - (v.y.raw - a.max.y.raw) <= 1
            &&& 0 <= (b.spec_center().x.raw - v.x.raw) - (v.x.raw - a.spec_center().x.raw) <= 1
        }),
{
    lemma_halved(a.min.x, a.max.x);
    lemma_halved(a.min.y, a.max.y);
    lemma_halved(b.min.x, b.max.x);
    lemma_halved(b.min.y, b.max.y);
    lemma_midway(a.max.x, b.min.x);
    lemma_midway(a.max.y, b.min.y);
    lemma_midway(a.spec_center().x, b.spec_center().x);
    lemma_midway(a.spec_center().y, b.spec_center().y);
}

proof fn lemma_midway(a: Fixed, b: Fixed)
    requires
        near(a) && near(b),
    ensures
        a.spec_plus(b).spec_over(Fixed::spec_ratio(2, 1)).raw == (a.raw + b.raw) / 2,
{
    assert(Fixed::spec_ratio(2, 1).raw == 131072);
    let n = a.raw + b.raw;
    assert((n * 65536) / 131072 == n / 2);
}

/// The cells of a grid go from left to right, row by row; between two in a row, and between two rows, is
/// the gutter.
pub proof fn law_cells_are_a_gutter_apart(
    v: LayerView<Fixed>,
    cols: u32,
    gutter_x: Fixed,
    gutter_y: Fixed,
    k: int,
)
    requires
        near_frame(v.frame),
        0 < cols <= 100,
        0 <= k < 100,
        -0x10_0000 <= v.frame.size.x.raw <= 0x10_0000,
        -0x10_0000 <= v.frame.size.y.raw <= 0x10_0000,
        -0x10_0000 <= gutter_x.raw <= 0x10_0000,
        -0x10_0000 <= gutter_y.raw <= 0x10_0000,
    ensures
        ({
            let grid = grid_of(v, cols, gutter_x, gutter_y);
            let at = cell_offset(grid, k);
            let next = cell_offset(grid, k + 1);
            let below = cell_offset(grid, k + cols);
            let b = v.frame.spec_bounds();
            let w = b.max.x.raw - b.min.x.raw;
            let h = b.max.y.raw - b.min.y.raw;
            &&& cell_offset(grid, 0) == (Vec2 { x: Fixed { raw: 0 }, y: Fixed { raw: 0 } })
            &&& k % (cols as int) != cols - 1 ==> next.x.raw - at.x.raw == w + gutter_x.raw && next.y
                == at.y
            &&& k % (cols as int) == cols - 1 ==> next.x.raw == 0 && next.y.raw - at.y.raw == h
                + gutter_y.raw
            &&& below.x == at.x && below.y.raw - at.y.raw == h + gutter_y.raw
        }),
{
    let n = cols as int;
    let grid = grid_of(v, cols, gutter_x, gutter_y);
    let w = grid.step.x.raw as int;
    let h = grid.step.y.raw as int;
    lemma_cell(grid, k);
    lemma_cell(grid, k + 1);
    lemma_cell(grid, k + n);
    lemma_cell(grid, 0);
    let r = k % n;
    let q = k / n;
    assert(k == q * n + r && 0 <= r < n) by (nonlinear_arith)
        requires
            n > 0,
            r == k % n,
            q == k / n,
    ;
    assert(0int % n == 0 && 0int / n == 0) by (nonlinear_arith)
        requires
            n > 0,
    ;
    assert((k + n) % n == r && (k + n) / n == q + 1) by (nonlinear_arith)
        requires
            n > 0,
            k == q * n + r,
            0 <= r < n,
    ;
    if r != n - 1 {
        assert((k + 1) % n == r + 1 && (k + 1) / n == q) by (nonlinear_arith)
            requires
                n > 0,
                k == q * n + r,
                0 <= r,
                r + 1 < n,
        ;
    } else {
        assert((k + 1) % n == 0 && (k + 1) / n == q + 1) by (nonlinear_arith)
            requires
                n > 0,
                k == q * n + r,
                r == n - 1,
        ;
    }
    assert((r + 1) * w == r * w + w) by (nonlinear_arith);
    assert((q + 1) * h == q * h + h) by (nonlinear_arith);
    assert(0 * w == 0 && 0 * h == 0);
}

proof fn lemma_cell(grid: Grid<Fixed>, k: int)
    requires
        0 < grid.cols <= 100,
        0 <= k < 300,
        -0x40_0000 <= grid.step.x.raw <= 0x40_0000,
        -0x40_0000 <= grid.step.y.raw <= 0x40_0000,
    ensures
        cell_offset(grid, k).x.raw == (k % (grid.cols as int)) * grid.step.x.raw,
        cell_offset(grid, k).y.raw == (k / (grid.cols as int)) * grid.step.y.raw,
{
    let n = grid.cols as int;
    let r = k % n;
    let q = k / n;
    assert(0 <= r < 100 && 0 <= q < 300) by (nonlinear_arith)
        requires
            0 < n <= 100,
            0 <= k < 300,
            r == k % n,
            q == k / n,
    ;
    lemma_whole_times(r, grid.step.x);
    lemma_whole_times(q, grid.step.y);
}

/// A whole number times a length.
pub proof fn lemma_whole_times(n: int, a: Fixed)
    requires
        0 <= n < 300,
        -0x40_0000 <= a.raw <= 0x40_0000,
    ensures
        Fixed::spec_ratio(n, 1).spec_times(a).raw == n * a.raw,
{
    assert((n * 65536) / 1 == n * 65536);
    let m = a.raw as int;
    assert((n * 65536) * m == (n * m) * 65536) by (nonlinear_arith);
    assert(((n * m) * 65536) / 65536 == n * m);
    assert(-0x7fff_ffff <= n * m <= 0x7fff_ffff) by (nonlinear_arith)
        requires
            0 <= n < 300,
            -0x40_0000 <= m <= 0x40_0000,
    ;
}

/// What is pasted goes by the offset; pasted over a selection, the corner of the one comes to be at the
/// corner of the other.
pub proof fn law_pasted_layers_are_shifted(
    s: Seq<LayerView<Fixed>>,
    layers: Seq<LayerView<Fixed>>,
    by: Vec2<Fixed>,
    i: int,
)
    requires
        0 <= i < layers.len(),
        near_point(layers[i].frame.pos),
        near(by.x) && near(by.y),
    ensures
        shifted(layers, None) == layers,
        ({
            let t = shifted(layers, Some(by));
            &&& t.len() == layers.len()
            &&& t[i].frame.pos.x.raw == layers[i].frame.pos.x.raw + by.x.raw
            &&& t[i].frame.pos.y.raw == layers[i].frame.pos.y.raw + by.y.raw
            &&& t[i] == layers[i].with_frame(Frame { pos: t[i].frame.pos, ..layers[i].frame })
        }),
        forall|selection: Seq<LayerId>|
            #[trigger] paste_shift(s, selection, layers, by, false) == Some(by),
{
}

/// Pasted layers go into the container that alone is selected, else on the page, in front of what is
/// there.
pub proof fn law_pasted_layers_come_in_front<S>(
    s: Seq<LayerView<S>>,
    selection: Seq<LayerId>,
    layers: Seq<LayerView<S>>,
)
    ensures
        selection.len() != 1 ==> put_in(s, selection, layers) == s + layers,
        selection.len() == 1 && find(s, selection[0]) is None ==> put_in(s, selection, layers) == s
            + layers,
        selection.len() == 1 ==> (find(s, selection[0]) matches Some(v) ==> !v.is_container()
            ==> put_in(s, selection, layers) == s + layers),
        selection.len() == 1 ==> (find(s, selection[0]) matches Some(v) ==> v.is_container()
            ==> put_in(s, selection, layers) == crate::tree::replace(
            s,
            selection[0],
            v.with_children(v.children + layers),
        )),
{
}

/// What is copied are the selected layers that are there, each as it is, in the order in which they were
/// selected.
pub proof fn law_copies_are_as_they_are<S>(s: Seq<LayerView<S>>, ids: Seq<LayerId>, id: LayerId)
    ensures
        find(s, id) is None ==> taken(s, ids.push(id)) == taken(s, ids),
        find(s, id) matches Some(v) ==> taken(s, ids.push(id)) == taken(s, ids).push(v),
        taken(s, Seq::<LayerId>::empty()).len() == 0,
{
    assert(ids.push(id).drop_last() =~= ids);
}

} // verus!
