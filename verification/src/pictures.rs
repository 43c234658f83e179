//! What a picture of layers shows: where, how strongly and in which order.
use vstd::prelude::*;

use crate::color::{faded, faded_alpha, Color32};
use crate::fixed::Fixed;
use crate::geometry::{Pos2, Rect, Vec2};
use crate::masking::{unit, Unit};
use crate::model::{ArrowCap, Frame, KindView, LayerView};
use crate::outlines::{cap_size, cap_wings, OutlineView, PathStep};
use crate::plane::{lemma_halved, lemma_times_one, near, near_box, near_point};
use crate::pointing::near_frame;
use crate::rendering::{
    drawn, drawn_line, drawn_shape, drawn_text, drawn_until, filled_and_stroked, pixels, point_in,
    reach, shade, shadow_reach, turn_of, DrawView, ShadeView,
};
use crate::scalar::Scalar;
use crate::style::{PaintView, Shadow, StyleView};

verus! {

/// What a group draws of its only member is what the member draws alone: where the group is added to
/// where the member is, and under the opacity that the group is drawn with, times its own.
pub proof fn law_groups_hand_their_opacity_down<S: Scalar>(
    v: LayerView<S>,
    offset: Vec2<S>,
    p: S,
    shadows: bool,
)
    requires
        v.visible,
        v.kind is Group,
        v.children.len() == 1,
        v.style.shadows.len() == 0,
        v.style.inner_shadows.len() == 0,
    ensures
        drawn(v, offset, p, shadows) == drawn(
            v.children[0],
            (Vec2 {
                x: offset.x.spec_plus(v.frame.pos.x),
                y: offset.y.spec_plus(v.frame.pos.y),
            }),
            p.spec_times(v.opacity),
            shadows,
        ),
{
    let inner = offset.spec_plus(v.frame.pos.spec_to_vec2());
    let o = p.spec_times(v.opacity);
    let w = v.children[0];
    assert(unit(v.children, 0) == Unit::Plain);
    assert(drawn_until(v.children, inner, o, shadows, 0) =~= Seq::empty());
    assert(drawn_until(v.children, inner, o, shadows, 1) =~= drawn(w, inner, o, shadows));
    assert(drawn(v, offset, p, shadows) =~= drawn(w, inner, o, shadows));
}

/// A layer is drawn alike whether its opacity is its own or that of what it is drawn under.
pub proof fn law_opacities_are_multiplied(v: LayerView<Fixed>, offset: Vec2<Fixed>, p: Fixed)
    requires
        p.raw >= 0,
        v.opacity.raw >= 0,
    ensures
        drawn(v, offset, p, false) == drawn(
            (LayerView { opacity: Fixed::spec_ratio(1, 1), ..v }),
            offset,
            p.spec_times(v.opacity),
            false,
        ),
        drawn(v, offset, Fixed::spec_ratio(1, 1), false) == drawn(
            (LayerView { opacity: Fixed::spec_ratio(1, 1), ..v }),
            offset,
            v.opacity,
            false,
        ),
{
    let one = Fixed::spec_ratio(1, 1);
    let w = LayerView { opacity: one, ..v };
    assert(p.raw * v.opacity.raw >= 0) by (nonlinear_arith)
        requires
            p.raw >= 0,
            v.opacity.raw >= 0,
    ;
    lemma_times_one(p.spec_times(v.opacity));
    lemma_times_one(v.opacity);
    lemma_one_times(v.opacity);
    let inner = offset.spec_plus(v.frame.pos.spec_to_vec2());
    lemma_shape_alone(v, w, offset, p.spec_times(v.opacity));
    lemma_shape_alone(v, w, offset, v.opacity);
}

proof fn lemma_one_times(a: Fixed)
    ensures
        Fixed::spec_ratio(1, 1).spec_times(a) == a,
{
    assert(Fixed::spec_ratio(1, 1).raw == 65536);
    assert((65536 * a.raw) / 65536 == a.raw);
}

/// Two layers that differ in their opacity alone are one shape.
proof fn lemma_shape_alone(v: LayerView<Fixed>, w: LayerView<Fixed>, offset: Vec2<Fixed>, o: Fixed)
    requires
        w == (LayerView { opacity: w.opacity, ..v }),
    ensures
        drawn_shape(v, offset, o) == drawn_shape(w, offset, o),
{
    assert(drawn_line(v, offset, o, ArrowCap::Bare, ArrowCap::Bare) == drawn_line(
        w,
        offset,
        o,
        ArrowCap::Bare,
        ArrowCap::Bare,
    ));
    assert(drawn_shape(v, offset, o) =~= drawn_shape(w, offset, o));
}

/// A layer that is moved is drawn as it was, from an origin that is moved as far.
pub proof fn law_moved_layers_are_drawn_as_far_away(
    v: LayerView<Fixed>,
    offset: Vec2<Fixed>,
    d: Vec2<Fixed>,
    p: Fixed,
)
    requires
        near_frame(v.frame),
        -0x800_0000 <= offset.x.raw <= 0x800_0000 && -0x800_0000 <= offset.y.raw <= 0x800_0000,
        -0x800_0000 <= d.x.raw <= 0x800_0000 && -0x800_0000 <= d.y.raw <= 0x800_0000,
        !(v.kind is BooleanGroup),
    ensures
        drawn(
            v.with_frame((Frame { pos: v.frame.pos.spec_plus(d), ..v.frame })),
            offset,
            p,
            false,
        ) == drawn(v, offset.spec_plus(d), p, false),
{
    let w = v.with_frame(Frame { pos: v.frame.pos.spec_plus(d), ..v.frame });
    lemma_moved_frame(v.frame, offset, d);
    lemma_same_shape(v, w, offset.spec_plus(d), offset, p.spec_times(v.opacity));
}

proof fn lemma_moved_frame(f: Frame<Fixed>, offset: Vec2<Fixed>, d: Vec2<Fixed>)
    requires
        near_frame(f),
        -0x800_0000 <= offset.x.raw <= 0x800_0000 && -0x800_0000 <= offset.y.raw <= 0x800_0000,
        -0x800_0000 <= d.x.raw <= 0x800_0000 && -0x800_0000 <= d.y.raw <= 0x800_0000,
    ensures
        ({
            let far = offset.spec_plus(d);
            let g = Frame { pos: f.pos.spec_plus(d), ..f };
            &&& f.spec_bounds().spec_translate(far) == g.spec_bounds().spec_translate(offset)
            &&& far.spec_plus(f.pos.spec_to_vec2()) == offset.spec_plus(g.pos.spec_to_vec2())
            &&& f.spec_start().spec_plus(far) == g.spec_start().spec_plus(offset)
            &&& f.spec_end().spec_plus(far) == g.spec_end().spec_plus(offset)
        }),
{
}

/// Two layers that differ in where they are alone, and are drawn from where they come out at one
/// place, are drawn alike.
proof fn lemma_same_shape<S: Scalar>(
    v: LayerView<S>,
    w: LayerView<S>,
    a: Vec2<S>,
    b: Vec2<S>,
    o: S,
)
    requires
        w == v.with_frame(w.frame),
        w.frame.rotation == v.frame.rotation,
        v.frame.spec_bounds().spec_translate(a) == w.frame.spec_bounds().spec_translate(b),
        a.spec_plus(v.frame.pos.spec_to_vec2()) == b.spec_plus(w.frame.pos.spec_to_vec2()),
        v.frame.spec_start().spec_plus(a) == w.frame.spec_start().spec_plus(b),
        v.frame.spec_end().spec_plus(a) == w.frame.spec_end().spec_plus(b),
        !(v.kind is BooleanGroup),
    ensures
        drawn_shape(v, a, o) == drawn_shape(w, b, o),
{
    if let KindView::Arrow { start_cap, end_cap } = v.kind {
        assert(drawn_line(v, a, o, start_cap, end_cap) == drawn_line(w, b, o, start_cap, end_cap));
    }
    if v.kind is Line {
        assert(drawn_line(v, a, o, ArrowCap::Bare, ArrowCap::Bare) == drawn_line(
            w,
            b,
            o,
            ArrowCap::Bare,
            ArrowCap::Bare,
        ));
    }
    assert(drawn_shape(v, a, o) =~= drawn_shape(w, b, o));
}

/// The layers of a list are drawn from back to front: what is in front comes after all that is behind
/// it.
pub proof fn law_pictures_are_drawn_from_the_back<S: Scalar>(
    s: Seq<LayerView<S>>,
    offset: Vec2<S>,
    opacity: S,
    shadows: bool,
    j: nat,
    k: nat,
)
    requires
        j <= k <= s.len(),
    ensures
        ({
            let behind = drawn_until(s, offset, opacity, shadows, j);
            let all = drawn_until(s, offset, opacity, shadows, k);
            &&& behind.len() <= all.len()
            &&& all.take(behind.len() as int) == behind
            &&& k == j + 1 && unit(s, j as int) == Unit::Plain ==> all.skip(behind.len() as int)
                == drawn(s[j as int], offset, opacity, shadows)
            &&& k == j + 1 && unit(s, j as int) == Unit::Clipped ==> all == behind
        }),
    decreases k,
{
    let behind = drawn_until(s, offset, opacity, shadows, j);
    let all = drawn_until(s, offset, opacity, shadows, k);
    if j < k {
        law_pictures_are_drawn_from_the_back(s, offset, opacity, shadows, j, (k - 1) as nat);
        let t = drawn_until(s, offset, opacity, shadows, (k - 1) as nat);
        assert(all.take(t.len() as int) =~= t);
        assert(all.take(behind.len() as int) =~= t.take(behind.len() as int));
        if k == j + 1 && unit(s, j as int) == Unit::Plain {
            assert(all.skip(behind.len() as int) =~= drawn(s[j as int], offset, opacity, shadows));
        }
        if k == j + 1 && unit(s, j as int) == Unit::Clipped {
            assert(all =~= behind);
        }
    } else {
        assert(all.take(behind.len() as int) =~= behind);
    }
}

/// The shadows of a layer are drawn behind it and those inside it in front of it, each at the corner
/// of the box that the layer takes up and under the opacity that it is drawn under.
pub proof fn law_shadows_lie_behind<S: Scalar>(v: LayerView<S>, offset: Vec2<S>, p: S, i: int)
    requires
        v.visible,
    ensures
        ({
            let all = drawn(v, offset, p, true);
            let n = v.style.shadows.len();
            let m = v.style.inner_shadows.len();
            let at = v.frame.spec_rotated_bounds().min.spec_plus(offset);
            &&& all.len() >= n + m
            &&& 0 <= i < n ==> (all[i] matches DrawView::Shadow { layer, shadow, at: a, opacity }
                && layer == v.id && shadow == v.style.shadows[i] && a == at && opacity == p)
            &&& 0 <= i < m ==> (all[all.len() - m + i] matches DrawView::InnerShadow {
                layer,
                shadow,
                at: a,
                opacity,
            } && layer == v.id && shadow == v.style.inner_shadows[i] && a == at && opacity == p)
        }),
{
}

/// An artboard is drawn as a box of its frame behind all that it holds.
pub proof fn law_artboards_are_boxes<S: Scalar>(v: LayerView<S>, offset: Vec2<S>, p: S)
    requires
        v.visible,
        v.kind is Artboard,
    ensures
        drawn(v, offset, p, false).len() > 0,
        drawn(v, offset, p, false)[0] matches DrawView::Box { rect, color } && rect
            == v.frame.spec_bounds().spec_translate(offset) && color == faded(
            v.kind->background,
            p.spec_times(v.opacity),
        ),
{
}

/// A shape is filled before it is stroked, both with one outline; it is turned only where its layer
/// is, about the middle of its bounds.
pub proof fn law_fills_lie_under_strokes(
    outline: OutlineView<Fixed>,
    style: StyleView<Fixed>,
    bounds: Rect<Fixed>,
    rotation: Fixed,
    opacity: Fixed,
    even_odd: bool,
)
    requires
        near_box(bounds),
    ensures
        ({
            let turn = turn_of(rotation, bounds);
            let d = filled_and_stroked(outline, style, even_odd, bounds, opacity, turn);
            let n = if style.fill is Some {
                1int
            } else {
                0
            };
            &&& d.len() == n + (if style.stroke is Some {
                1int
            } else {
                0
            })
            &&& style.fill is Some ==> (d[0] matches DrawView::Fill { outline: o, turn: t, .. } && o
                == outline && t == turn)
            &&& style.stroke matches Some(s) ==> (d[n] matches DrawView::Stroke {
                outline: o,
                width,
                turn: t,
                ..
            } && o == outline && width == s.width && t == turn)
            &&& rotation.raw == 0 <==> turn is None
            &&& turn matches Some(t) ==> t.degrees == rotation && 0 <= (bounds.max.x.raw
                - t.center.x.raw) - (t.center.x.raw - bounds.min.x.raw) <= 1 && 0 <= (
            bounds.max.y.raw - t.center.y.raw) - (t.center.y.raw - bounds.min.y.raw) <= 1
        }),
{
    lemma_halved(bounds.min.x, bounds.max.x);
    lemma_halved(bounds.min.y, bounds.max.y);
}

/// Fading scales the alpha of a colour, to the nearest whole number; it never makes a colour
/// stronger.
pub proof fn law_fading_scales_the_alpha(a: u8, o: Fixed)
    requires
        0 <= o.raw <= 65536,
    ensures
        -32768 <= faded_alpha(a, o) * 65536 - a * o.raw <= 32768,
        faded_alpha(a, o) <= a,
        o.raw == 0 ==> faded_alpha(a, o) == 0,
        o.raw == 65536 ==> faded_alpha(a, o) == a,
{
    let n = a as int;
    assert(Fixed::spec_ratio(n, 1).raw == n * 65536) by {
        assert((n * 65536) / 1 == n * 65536);
    }
    let p = n * o.raw;
    assert(0 <= p <= 65536 * n) by (nonlinear_arith)
        requires
            p == n * o.raw,
            0 <= n,
            0 <= o.raw <= 65536,
    ;
    assert((n * 65536) * o.raw == p * 65536) by (nonlinear_arith)
        requires
            p == n * o.raw,
    ;
    assert((p * 65536) / 65536 == p);
    let one = Fixed::spec_ratio(1, 1);
    let zero = Fixed::spec_ratio(0, 1);
    assert(one.raw == 65536 && zero.raw == 0);
    assert(crate::scalar::spec_clamped(o, zero, one) == o);
    let t = Fixed::spec_ratio(n, 1).spec_times(o);
    assert(t.raw == p);
    let q = (p + 32768) / 65536;
    assert(t.spec_rounded().raw == q * 65536);
    assert(t.spec_rounded().spec_to_int() == q) by {
        assert((q * 65536) / 65536 == q);
    }
    if o.raw == 65536 {
        assert(p == n * 65536);
    }
    if o.raw == 0 {
        assert(p == 0) by (nonlinear_arith)
            requires
                p == n * o.raw,
                o.raw == 0,
        ;
    }
}

/// At full strength a colour that hides all stays as it is; at none nothing of a colour is left.
pub proof fn lemma_full_strength(c: Color32)
    ensures
        c.a == 255 ==> faded(c, Fixed::spec_ratio(1, 1)) == c,
        faded(c, Fixed::spec_ratio(0, 1)) == (Color32 { r: 0, g: 0, b: 0, a: 0 }),
{
    assert(Fixed::spec_ratio(1, 1).raw == 65536);
    assert(Fixed::spec_ratio(0, 1).raw == 0);
    law_fading_scales_the_alpha(c.a, Fixed::spec_ratio(1, 1));
    law_fading_scales_the_alpha(c.a, Fixed::spec_ratio(0, 1));
}

/// A paint of one colour shows that colour where nothing fades it, and nothing where all does.
pub proof fn law_flat_paints_show_their_colour(c: Color32, bounds: Rect<Fixed>)
    ensures
        c.a == 255 ==> shade(PaintView::Solid(c), bounds, Fixed::spec_ratio(1, 1))
            == ShadeView::<Fixed>::Flat(c),
        shade(PaintView::Solid(c), bounds, Fixed::spec_ratio(0, 1)) == ShadeView::<Fixed>::Flat(
            (Color32 { r: 0, g: 0, b: 0, a: 0 }),
        ),
{
    lemma_full_strength(c);
}

/// A length in pixels is the nearest whole number, and one at least.
pub proof fn law_pixels_are_rounded(length: Fixed)
    requires
        near(length),
    ensures
        pixels(length) >= 1,
        length.raw >= 65536 ==> -32768 <= pixels(length) * 65536 - length.raw <= 32768,
        length.raw < 65536 ==> pixels(length) == 1,
{
    let n = length.raw as int;
    let q = (n + 32768) / 65536;
    let one = Fixed::spec_ratio(1, 1);
    assert(one.raw == 65536);
    if n >= 0 {
        assert(length.spec_rounded().raw == q * 65536);
        assert((q * 65536) / 65536 == q);
    }
}

/// Fractions of a box: none of it is its near corner, all of it its far corner, and half of it its
/// middle.
pub proof fn law_fractions_of_a_box(b: Rect<Fixed>)
    requires
        near_box(b),
        b.max.x.raw - b.min.x.raw >= 65536,
        b.max.y.raw - b.min.y.raw >= 65536,
        near(b.spec_width()) && near(b.spec_height()),
    ensures
        ({
            let zero = Fixed { raw: 0 };
            let one = Fixed { raw: 65536 };
            let half = Fixed { raw: 32768 };
            &&& point_in(b, (Pos2 { x: zero, y: zero })) == b.min
            &&& point_in(b, (Pos2 { x: one, y: one })) == b.max
            &&& point_in(b, (Pos2 { x: one, y: zero })) == (Pos2 { x: b.max.x, y: b.min.y })
            &&& point_in(b, (Pos2 { x: zero, y: one })) == (Pos2 { x: b.min.x, y: b.max.y })
            &&& point_in(b, (Pos2 { x: half, y: half })) == b.spec_center()
        }),
{
    let w = b.spec_width();
    let h = b.spec_height();
    assert(Fixed::spec_ratio(1, 1000).raw == 65);
    assert(0 * w.raw == 0 && 0 * h.raw == 0);
    assert((65536 * w.raw) / 65536 == w.raw && (65536 * h.raw) / 65536 == h.raw);
    assert((32768 * w.raw) / 65536 == w.raw as int / 2 && (32768 * h.raw) / 65536 == h.raw as int
        / 2);
    lemma_halved(b.min.x, b.max.x);
    lemma_halved(b.min.y, b.max.y);
}

/// A radial gradient reaches from its middle to the point at its edge, whatever way that is.
pub proof fn law_radial_gradients_reach_their_edge(center: Pos2<Fixed>, n: int)
    requires
        near_point(center),
        1 <= n <= 100,
    ensures
        ({
            let d = Fixed::spec_ratio(n, 1);
            &&& d.raw == n * 65536
            &&& reach(center, center.spec_plus((Vec2 { x: d, y: Fixed { raw: 0 } }))) == d
            &&& reach(center, center.spec_plus((Vec2 { x: Fixed { raw: 0 }, y: d }))) == d
            &&& reach(center, center.spec_minus((Vec2 { x: d, y: Fixed { raw: 0 } }))) == d
        }),
{
    let d = Fixed::spec_ratio(n, 1);
    assert((n * 65536) / 1 == n * 65536);
    let s = n * 65536;
    assert((s * s) / 65536 == n * n * 65536 && n * n <= 10000 && n * n >= 1) by (nonlinear_arith)
        requires
            s == n * 65536,
            1 <= n <= 100,
    ;
    assert((-s) * (-s) == s * s) by (nonlinear_arith);
    assert(s * s == (n * n * 65536) * 65536) by (nonlinear_arith)
        requires
            s == n * 65536,
    ;
    crate::fixed::lemma_whole_root(s * s, s);
    assert(0 * 0 == 0);
    let zero = Fixed { raw: 0 };
    let e = Fixed { raw: (n * n * 65536) as i32 };
    assert(d.spec_times(d) == e);
    assert(zero.spec_times(zero) == zero);
    assert(e.spec_root() == d);
    let m = d.spec_negated();
    assert(m.spec_times(m) == e);
    assert(Fixed::spec_ratio(1, 100).raw == 655);
    assert(e.spec_plus(zero) == e && zero.spec_plus(e) == e);
    assert(center.spec_plus(Vec2 { x: d, y: zero }).x.spec_minus(center.x) == d);
    assert(center.spec_plus(Vec2 { x: d, y: zero }).y.spec_minus(center.y) == zero);
    assert(center.spec_plus(Vec2 { x: zero, y: d }).y.spec_minus(center.y) == d);
    assert(center.spec_plus(Vec2 { x: zero, y: d }).x.spec_minus(center.x) == zero);
    assert(center.spec_minus(Vec2 { x: d, y: zero }).x.spec_minus(center.x) == m);
    assert(center.spec_minus(Vec2 { x: d, y: zero }).y.spec_minus(center.y) == zero);
}

/// The shadows of a layer need as much room around it as the one that reaches farthest: how far it is
/// moved, twice its blur and what it is spread by.
pub proof fn law_shadows_have_room(shadows: Seq<Shadow<Fixed>>, k: nat, i: int)
    requires
        0 <= i < k <= shadows.len(),
        near(shadows[i].offset.x) && near(shadows[i].offset.y),
        0 <= shadows[i].blur.raw <= 0x800_0000,
        -0x1000_0000 <= shadows[i].spread.raw <= 0x1000_0000,
    ensures
        shadow_reach(shadows, 0).raw == 0,
        ({
            let s = shadows[i];
            let r = shadow_reach(shadows, k).raw as int;
            let spread = if s.spread.raw > 0 {
                s.spread.raw as int
            } else {
                0
            };
            &&& r >= s.offset.x.raw + 2 * s.blur.raw + spread
            &&& r >= -s.offset.x.raw + 2 * s.blur.raw + spread
            &&& r >= s.offset.y.raw + 2 * s.blur.raw + spread
            &&& r >= -s.offset.y.raw + 2 * s.blur.raw + spread
            &&& k == 1 ==> r == s.offset.x.spec_magnitude().raw + 2 * s.blur.raw + spread || r
                == s.offset.y.spec_magnitude().raw + 2 * s.blur.raw + spread
        }),
    decreases k,
{
    let j = (k - 1) as nat;
    if i < j {
        law_shadows_have_room(shadows, j, i);
    } else {
        let b = shadows[i].blur;
        assert(Fixed::spec_ratio(2, 1).raw == 131072);
        assert((b.raw * 131072) / 65536 == 2 * b.raw);
        assert(b.spec_times(Fixed::spec_ratio(2, 1)).raw == 2 * b.raw);
        assert(shadow_reach(shadows, 0).raw == 0);
    }
    assert(shadow_reach(shadows, 0).raw == 0);
}

/// A line is drawn from where its frame begins to where it ends, unless it has no stroke; it is at
/// least half a unit wide.
pub proof fn law_lines_reach_from_end_to_end(
    v: LayerView<Fixed>,
    offset: Vec2<Fixed>,
    opacity: Fixed,
    start_cap: ArrowCap,
    end_cap: ArrowCap,
)
    ensures
        ({
            let d = drawn_line(v, offset, opacity, start_cap, end_cap);
            &&& v.style.stroke is None ==> d.len() == 0
            &&& v.style.stroke matches Some(s) ==> d.len() > 0 && (d[0] matches DrawView::Stroke {
                outline,
                width,
                ..
            } && width.raw >= 32768 && (s.width.raw >= 32768 ==> width == s.width) && (
            outline matches OutlineView::Steps(steps) && steps.len() >= 2 && steps[0]
                == PathStep::MoveTo(v.frame.pos.spec_plus(offset)) && steps[1] == PathStep::LineTo(
                v.frame.pos.spec_plus(v.frame.size).spec_plus(offset),
            ) && (start_cap == ArrowCap::Bare && end_cap == ArrowCap::Bare ==> steps.len() == 2)))
            &&& v.style.stroke is Some && start_cap == ArrowCap::Bare && end_cap == ArrowCap::Bare
                ==> d.len() == 1
            &&& v.style.stroke is Some && start_cap == ArrowCap::Disc && end_cap == ArrowCap::Disc
                ==> d.len() == 3
        }),
{
    assert(Fixed::spec_ratio(1, 2).raw == 32768);
}

/// The marker of an arrow that points right ends at its tip; its two back corners are as far above as
/// below, and as far back as the marker is long.
pub proof fn law_markers_point_outward(tip: Pos2<Fixed>, length: Fixed, width: Fixed)
    requires
        near_point(tip),
        65536 <= length.raw <= 0x2000_0000,
        0 <= width.raw <= 0x100_0000,
    ensures
        cap_wings(tip, (Vec2 { x: length, y: Fixed { raw: 0 } }), width) matches Some((a, b))
            && a.x.raw == tip.x.raw - cap_size(width).raw && b.x == a.x && a.y.raw - tip.y.raw
            == cap_size(width).raw as int / 2 && tip.y.raw - b.y.raw == cap_size(width).raw as int
            / 2,
        cap_size(width).raw >= 8 * 65536,
        cap_size(width).raw == 8 * 65536 || cap_size(width).raw == width.raw * 7 / 2,
{
    let out = Vec2 { x: length, y: Fixed { raw: 0 } };
    let n = length.raw as int;
    assert(0 * 0 == 0);
    crate::fixed::lemma_whole_root(n * n + 0 * 0, n);
    assert((n * 65536) / n == 65536) by (nonlinear_arith)
        requires
            n > 0,
    ;
    assert(0 * 65536 == 0);
    let dir = out.spec_unit();
    assert(dir.x.raw == 65536 && dir.y.raw == 0);
    let w = width.raw as int;
    assert(Fixed::spec_ratio(7, 2).raw == 229376);
    assert(width.spec_times(Fixed::spec_ratio(7, 2)).raw == w * 7 / 2) by {
        assert((w * 229376) / 65536 == w * 7 / 2);
    }
    let k = cap_size(width);
    let m = k.raw as int;
    assert((65536 * m) / 65536 == m);
    assert(0 * m == 0);
    assert(Fixed::spec_ratio(1, 2).raw == 32768);
    assert((m * 32768) / 65536 == m / 2);
    assert(0 * 32768 == 0);
    assert(Fixed::spec_ratio(1, 1000).raw == 65);
}

/// A text that stands upright is drawn as it is; one that is turned is turned by as much.
pub proof fn law_texts_turn_with_their_layer(v: LayerView<Fixed>, b: Rect<Fixed>, o: Fixed)
    ensures
        v.frame.rotation.raw == 0 ==> drawn_text(v, b, o) == (DrawView::<Fixed>::Text {
            layer: v.id,
            bounds: b,
            opacity: o,
        }),
        v.frame.rotation.raw != 0 ==> (drawn_text(v, b, o) matches DrawView::TurnedText {
            layer,
            bounds,
            opacity,
            degrees,
            ..
        } && layer == v.id && bounds == b && degrees == v.frame.rotation && (0 <= o.raw <= 65536
            ==> opacity == o)),
{
}

/// An image is drawn unless its box has no breadth or no height to speak of.
pub proof fn law_images_are_drawn_in_their_box(v: LayerView<Fixed>, offset: Vec2<Fixed>, o: Fixed)
    requires
        v.kind is Image,
    ensures
        ({
            let b = v.frame.spec_bounds().spec_translate(offset);
            let d = drawn_shape(v, offset, o);
            let thin = b.spec_width().spec_magnitude().raw < 655
                || b.spec_height().spec_magnitude().raw < 655;
            &&& thin ==> d.len() == 0
            &&& !thin ==> d == seq![
                (DrawView::Image { layer: v.id, bounds: b, opacity: o, degrees: v.frame.rotation }),
            ]
        }),
{
    assert(Fixed::spec_ratio(1, 100).raw == 655);
}

} // verus!
