//! What the canvas shows of layers: where, how strongly and in which order.
use vstd::prelude::*;

use crate::color::{faded, Color32};
use crate::fixed::Fixed;
use crate::geometry::{Pos2, Vec2};
use crate::layer_painting::{
    cap_painted, line_painted, mesh, painted, painted_until, paragraph_offset, paragraphs_height,
    polygons_painted, shadows_painted, shape_painted, sheet, stamps_of, text_base, text_painted,
};
use crate::masking::{unit, Unit};
use crate::model::{ArrowCap, KindView, LayerId, LayerView, PolygonView};
use crate::outlines::cap_size;
use crate::painting::{
    flat_fill, flat_pen, polygon_painted, ring_on_screen, Brush, PaintworkView, Pen, Place,
};
use crate::plane::{lemma_half, lemma_halved, lemma_times_one, near, near_box, near_point};
use crate::pointing::near_frame;
use crate::scalar::Scalar;
use crate::shading::Ground;
use crate::style::{PaintView, StyleView};
use crate::text::{TextAlign, TextResize, VerticalAlign};

verus! {

/// What a group shows of its only member is what the member shows alone: inside of where the group is,
/// and under the opacity that the group is shown with, times its own.
pub proof fn law_shown_groups_hand_their_opacity_down<S: Scalar>(
    v: LayerView<S>,
    place: Place<S>,
    p: S,
    editing: Option<LayerId>,
)
    requires
        v.visible,
        v.kind is Group,
        v.children.len() == 1,
        v.style.shadows.len() == 0,
        v.style.inner_shadows.len() == 0,
    ensures
        painted(v, place, p, editing) == painted(
            v.children[0],
            (Place {
                offset: Vec2 {
                    x: place.offset.x.spec_plus(v.frame.pos.x),
                    y: place.offset.y.spec_plus(v.frame.pos.y),
                },
                ..place
            }),
            p.spec_times(v.opacity),
            editing,
        ),
{
    let inside = place.spec_inside(v.frame.pos);
    let o = p.spec_times(v.opacity);
    let w = v.children[0];
    assert(unit(v.children, 0) == Unit::Plain);
    assert(painted_until(v.children, inside, o, editing, 0) =~= Seq::empty());
    assert(painted_until(v.children, inside, o, editing, 1) =~= painted(w, inside, o, editing));
    assert(painted(v, place, p, editing) =~= painted(w, inside, o, editing));
}

/// A layer is shown alike whether its opacity is its own or that of what it is shown under.
pub proof fn law_shown_opacities_are_multiplied(
    v: LayerView<Fixed>,
    place: Place<Fixed>,
    p: Fixed,
    editing: Option<LayerId>,
)
    requires
        p.raw >= 0,
        v.opacity.raw >= 0,
    ensures
        painted(v, place, p, editing) == painted(
            (LayerView { opacity: Fixed::spec_ratio(1, 1), ..v }),
            place,
            p.spec_times(v.opacity),
            editing,
        ),
{
    let one = Fixed::spec_ratio(1, 1);
    let w = LayerView { opacity: one, ..v };
    assert(p.raw * v.opacity.raw >= 0) by (nonlinear_arith)
        requires
            p.raw >= 0,
            v.opacity.raw >= 0,
    ;
    let o = p.spec_times(v.opacity);
    lemma_times_one(o);
    lemma_shown_alone(v, w, place, o, editing);
    assert(shadows_painted(v, false, place, o) == shadows_painted(w, false, place, o));
    assert(shadows_painted(v, true, place, o) == shadows_painted(w, true, place, o));
    if let KindView::Artboard { background } = v.kind {
        assert(sheet(v, background, place, o) == sheet(w, background, place, o));
    }
}

/// Two layers that differ in their opacity alone are one shape.
proof fn lemma_shown_alone<S: Scalar>(
    v: LayerView<S>,
    w: LayerView<S>,
    place: Place<S>,
    o: S,
    editing: Option<LayerId>,
)
    requires
        w == (LayerView { opacity: w.opacity, ..v }),
    ensures
        shape_painted(v, place, o, editing) == shape_painted(w, place, o, editing),
{
    match v.kind {
        KindView::CompoundPath { polygons } => {
            lemma_polygons_alone(v, w, polygons, place, o, polygons.len());
        },
        _ => {},
    }
}

proof fn lemma_polygons_alone<S: Scalar>(
    v: LayerView<S>,
    w: LayerView<S>,
    polygons: Seq<PolygonView<S>>,
    place: Place<S>,
    o: S,
    k: nat,
)
    requires
        w == (LayerView { opacity: w.opacity, ..v }),
    ensures
        polygons_painted(v, polygons, place, o, k) == polygons_painted(w, polygons, place, o, k),
    decreases k,
{
    if k > 0 {
        lemma_polygons_alone(v, w, polygons, place, o, (k - 1) as nat);
        let b = v.frame.spec_bounds();
        let ground = Ground {
            rect: place.spec_rect(b),
            center: place.spec_at(b.spec_center()),
            rotation: v.frame.rotation,
        };
        let p = crate::layer_painting::polygon_on_screen(
            polygons[k - 1],
            v.frame.pos,
            place,
            ground.center,
            v.frame.rotation,
        );
        lemma_rings_alone(v, w, p.holes, ground, flat_pen(v.style, place.zoom, o), o, p.holes.len());
    }
}

proof fn lemma_rings_alone<S: Scalar>(
    v: LayerView<S>,
    w: LayerView<S>,
    rings: Seq<Seq<Pos2<S>>>,
    ground: Ground<S>,
    pen: Pen<S>,
    o: S,
    k: nat,
)
    requires
        w == (LayerView { opacity: w.opacity, ..v }),
    ensures
        crate::layer_painting::rings_stroked(v, rings, ground, pen, o, k)
            == crate::layer_painting::rings_stroked(w, rings, ground, pen, o, k),
    decreases k,
{
    if k > 0 {
        lemma_rings_alone(v, w, rings, ground, pen, o, (k - 1) as nat);
    }
}

/// The layers of a list are shown from back to front: what is in front comes after all that is behind it.
pub proof fn law_layers_are_shown_from_the_back<S: Scalar>(
    s: Seq<LayerView<S>>,
    place: Place<S>,
    opacity: S,
    editing: Option<LayerId>,
    j: nat,
    k: nat,
)
    requires
        j <= k <= s.len(),
    ensures
        ({
            let behind = painted_until(s, place, opacity, editing, j);
            let all = painted_until(s, place, opacity, editing, k);
            &&& behind.len() <= all.len()
            &&& all.take(behind.len() as int) == behind
            &&& k == j + 1 && unit(s, j as int) == Unit::Plain ==> all.skip(behind.len() as int)
                == painted(s[j as int], place, opacity, editing)
            &&& k == j + 1 && unit(s, j as int) == Unit::Clipped ==> all == behind
        }),
    decreases k,
{
    let behind = painted_until(s, place, opacity, editing, j);
    let all = painted_until(s, place, opacity, editing, k);
    if j < k {
        law_layers_are_shown_from_the_back(s, place, opacity, editing, j, (k - 1) as nat);
        let t = painted_until(s, place, opacity, editing, (k - 1) as nat);
        assert(all.take(t.len() as int) =~= t);
        assert(all.take(behind.len() as int) =~= t.take(behind.len() as int));
        if k == j + 1 && unit(s, j as int) == Unit::Plain {
            assert(all.skip(behind.len() as int) =~= painted(s[j as int], place, opacity, editing));
        }
        if k == j + 1 && unit(s, j as int) == Unit::Clipped {
            assert(all =~= behind);
        }
    } else {
        assert(all.take(behind.len() as int) =~= behind);
    }
}

/// Shadows are shown behind a layer and those inside it in front of it.
pub proof fn law_shown_shadows_lie_behind<S: Scalar>(
    v: LayerView<S>,
    place: Place<S>,
    p: S,
    editing: Option<LayerId>,
)
    requires
        v.visible,
        v.style.shadows.len() > 0 || v.style.inner_shadows.len() > 0,
    ensures
        ({
            let all = painted(v, place, p, editing);
            &&& all.len() >= 2
            &&& all[0] matches PaintworkView::Shadows { layer, inner, place: at, .. } && layer == v.id
                && !inner && at == place
            &&& all.last() matches PaintworkView::Shadows { layer, inner, place: at, .. } && layer
                == v.id && inner && at == place
        }),
{
}

/// A line is shown from where its frame begins to where it ends, turned about its middle; its stroke is
/// magnified with the page.
pub proof fn law_lines_are_shown_from_end_to_end(
    v: LayerView<Fixed>,
    place: Place<Fixed>,
    opacity: Fixed,
)
    requires
        v.frame.rotation.raw == 0,
        near_point(place.spec_at(v.frame.pos)),
        near_point(place.spec_at(v.frame.spec_end())),
        near_point(place.spec_at(v.frame.spec_bounds().spec_center())),
        v.style.stroke matches Some(s) ==> !(s.paint is Gradient),
    ensures
        ({
            let d = line_painted(v, place, opacity, None);
            &&& d.len() == 1
            &&& d[0] matches PaintworkView::Segment { a, b, pen } && a == place.spec_at(v.frame.pos)
                && b == place.spec_at(v.frame.spec_end()) && (v.style.stroke matches Some(s)
                ==> pen.width == s.width.spec_times(place.zoom))
        }),
{
    let center = place.spec_at(v.frame.spec_bounds().spec_center());
    assert(v.frame.rotation == Fixed { raw: 0 });
    crate::plane::lemma_unturned(place.spec_at(v.frame.pos), center);
    crate::plane::lemma_unturned(place.spec_at(v.frame.spec_end()), center);
}

/// The markers of an arrow: none at a bare end, one wedge with its tip at the end, one disc that reaches
/// to it, or two strokes that meet there.
pub proof fn law_markers_meet_their_end(tip: Pos2<Fixed>, length: Fixed, color: Color32, width: Fixed)
    requires
        near_point(tip),
        65536 <= length.raw <= 0x2000_0000,
        0 <= width.raw <= 0x100_0000,
    ensures
        ({
            let out = Vec2 { x: length, y: Fixed { raw: 0 } };
            let disc = cap_painted(tip, out, ArrowCap::Disc, color, width);
            &&& cap_painted(tip, out, ArrowCap::Bare, color, width).len() == 0
            &&& cap_painted(tip, out, ArrowCap::Triangle, color, width).len() == 1
            &&& cap_painted(
                tip,
                out,
                ArrowCap::Triangle,
                color,
                width,
            )[0] matches PaintworkView::Wedge { points, color: c } && points.0 == tip && c == color
            &&& cap_painted(tip, out, ArrowCap::Line, color, width).len() == 2
            &&& cap_painted(tip, out, ArrowCap::Line, color, width)[0] matches PaintworkView::Segment {
                b,
                ..
            } && b == tip
            &&& cap_painted(tip, out, ArrowCap::Line, color, width)[1] matches PaintworkView::Segment {
                b,
                ..
            } && b == tip
            &&& disc.len() == 1
            &&& disc[0] matches PaintworkView::Disc { center, radius, color: c } && c == color
                && center.y == tip.y && center.x.raw + radius.raw == tip.x.raw && radius.raw > 0
        }),
{
    crate::pictures::law_markers_point_outward(tip, length, width);
    lemma_unit_right(length);
    lemma_disc_reach(tip, cap_size(width));
}

proof fn lemma_unit_right(length: Fixed)
    requires
        65536 <= length.raw <= 0x2000_0000,
    ensures
        (Vec2 { x: length, y: Fixed { raw: 0 } }).spec_unit() == (Vec2 {
            x: Fixed { raw: 65536 },
            y: Fixed { raw: 0 },
        }),
{
    let n = length.raw as int;
    assert(0 * 0 == 0 && 0 * 65536 == 0);
    crate::fixed::lemma_whole_root(n * n + 0 * 0, n);
    assert((n * 65536) / n == 65536) by (nonlinear_arith)
        requires
            n > 0,
    ;
}

proof fn lemma_disc_reach(tip: Pos2<Fixed>, size: Fixed)
    requires
        near_point(tip),
        8 * 65536 <= size.raw <= 0x1000_0000,
    ensures
        ({
            let part = Fixed::spec_ratio(2, 5);
            let out = Vec2 { x: Fixed { raw: 65536 }, y: Fixed { raw: 0 } };
            let c = tip.spec_minus(out.spec_scaled(size).spec_scaled(part));
            let r = size.spec_times(part);
            c.y == tip.y && c.x.raw + r.raw == tip.x.raw && r.raw > 0
        }),
{
    let m = size.raw as int;
    assert(Fixed::spec_ratio(2, 5).raw == 26214);
    assert((65536 * m) / 65536 == m);
    assert(0 * m == 0) by (nonlinear_arith);
    assert(0 < (m * 26214) / 65536 <= m);
}

/// The label of an artboard is above its corner.
pub proof fn law_labels_are_above(v: LayerView<Fixed>, c: Color32, place: Place<Fixed>, o: Fixed)
    requires
        near_box(place.spec_rect(v.frame.spec_bounds())),
    ensures
        sheet(v, c, place, o) matches PaintworkView::Sheet { layer, rect, ground, label, .. } && layer
            == v.id && rect == place.spec_rect(v.frame.spec_bounds()) && ground == faded(c, o)
            && label.x == rect.min.x && label.y.raw == rect.min.y.raw - 16 * 65536,
{
    assert(Fixed::spec_ratio(16, 1).raw == 16 * 65536);
    assert(Fixed::spec_ratio(0, 1).raw == 0);
}

/// The text that is edited is not shown; another is, wrapped at the width of its box unless it grows, and
/// cut off at its box where its size is fixed.
pub proof fn law_texts_are_shown_in_their_box<S: Scalar>(
    v: LayerView<S>,
    place: Place<S>,
    o: S,
    editing: Option<LayerId>,
)
    ensures
        forall|r: TextResize|
            editing == Some(v.id) ==> (#[trigger] text_painted(v, r, place, o, editing)).len() == 0,
        editing != Some(v.id) ==> (text_painted(
            v,
            TextResize::Auto,
            place,
            o,
            editing,
        ) =~= seq![text_painted(v, TextResize::Auto, place, o, editing)[0]]) && (text_painted(
            v,
            TextResize::Auto,
            place,
            o,
            editing,
        )[0] matches PaintworkView::Text { layer, place: at, wrap, clip, .. } && layer == v.id && at
            == place && wrap is None && clip is None),
        editing != Some(v.id) ==> (text_painted(
            v,
            TextResize::AutoHeight,
            place,
            o,
            editing,
        )[0] matches PaintworkView::Text { wrap, clip, .. } && wrap == Some(
            v.frame.spec_bounds().spec_width().spec_times(place.zoom),
        ) && clip is None),
        editing != Some(v.id) ==> (text_painted(
            v,
            TextResize::Fixed,
            place,
            o,
            editing,
        )[0] matches PaintworkView::Text { wrap, clip, .. } && wrap == Some(
            v.frame.spec_bounds().spec_width().spec_times(place.zoom),
        ) && clip == Some(place.spec_rect(v.frame.spec_bounds()))),
{
}

/// Where the text of a layer is anchored on the screen, as large as the page is: at the side or the middle
/// that it is aligned to, so that it is at the top, ends at the bottom, or leaves as much above as below.
pub proof fn law_shown_texts_stand_as_aligned(
    v: LayerView<Fixed>,
    align: TextAlign,
    vertical: VerticalAlign,
    place: Place<Fixed>,
    total: Fixed,
)
    requires
        near_frame(v.frame),
        -0x800_0000 <= total.raw <= 0x800_0000,
        place.zoom.raw == 65536,
        place.offset.x.raw == 0 && place.offset.y.raw == 0,
        place.pan.x.raw == 0 && place.pan.y.raw == 0,
        place.origin.x.raw == 0 && place.origin.y.raw == 0,
    ensures
        ({
            let b = v.frame.spec_bounds();
            let p = text_base(v, align, vertical, place, total);
            &&& align == TextAlign::Left || align == TextAlign::Justify ==> p.x == b.min.x
            &&& align == TextAlign::Right ==> p.x == b.max.x
            &&& align == TextAlign::Center ==> 0 <= (b.max.x.raw - p.x.raw) - (p.x.raw
                - b.min.x.raw) <= 1
            &&& vertical == VerticalAlign::Top ==> p.y == b.min.y
            &&& vertical == VerticalAlign::Bottom ==> p.y.raw + total.raw == b.max.y.raw
            &&& vertical == VerticalAlign::Middle ==> -1 <= (b.max.y.raw - (p.y.raw + total.raw)) - (
            p.y.raw - b.min.y.raw) <= 1
        }),
{
    let b = v.frame.spec_bounds();
    lemma_halved(b.min.x, b.max.x);
    lemma_halved(b.min.y, b.max.y);
    let h = total.spec_over(place.zoom);
    assert((total.raw * 65536) / 65536 == total.raw);
    assert(h == total);
    lemma_half(h);
    let c = b.spec_center();
    lemma_times_one(b.min.x);
    lemma_times_one(b.max.x);
    lemma_times_one(c.x);
    lemma_times_one(b.min.y);
    lemma_times_one(b.max.y.spec_minus(h));
    lemma_times_one(c.y.spec_minus(h.spec_over(Fixed::spec_ratio(2, 1))));
    assert(place.zoom == Fixed { raw: 65536 });
}

/// Each paragraph begins where the one before ends, with the spacing between; together they are as high
/// as to the end of the last.
pub proof fn law_shown_paragraphs_follow_each_other(heights: Seq<Fixed>, spacing: Fixed, k: nat)
    requires
        k < heights.len(),
        near(spacing),
        near(heights[k as int]),
        near(paragraph_offset(heights, spacing, k)),
    ensures
        paragraph_offset(heights, spacing, 0).raw == 0,
        paragraph_offset(heights, spacing, k + 1).raw - paragraph_offset(heights, spacing, k).raw
            == heights[k as int].raw + spacing.raw,
        k + 1 == heights.len() ==> paragraphs_height(heights, spacing).raw - paragraph_offset(
            heights,
            spacing,
            k,
        ).raw == heights[k as int].raw,
{
}

/// A text is stamped once, or twice where it is doubled, the second time beside the first; all turned
/// about the middle of its layer.
pub proof fn law_texts_are_stamped(
    v: LayerView<Fixed>,
    place: Place<Fixed>,
    k: usize,
    pos: Pos2<Fixed>,
)
    requires
        v.frame.rotation.raw == 0,
        near_point(pos),
        near_point(place.spec_at(v.frame.spec_bounds().spec_center())),
    ensures
        ({
            let one = stamps_of(v, place, false, k, pos);
            let two = stamps_of(v, place, true, k, pos);
            &&& one.len() == 1 && one[0].at == pos && one[0].paragraph == k
            &&& two.len() == 2 && two[0] == one[0] && two[1].at.y == pos.y && 0 < two[1].at.x.raw
                - pos.x.raw < 65536
        }),
{
    let center = place.spec_at(v.frame.spec_bounds().spec_center());
    assert(v.frame.rotation == Fixed { raw: 0 });
    assert(Fixed::spec_ratio(6, 10).raw == 39321);
    assert(Fixed::spec_ratio(0, 1).raw == 0);
    crate::plane::lemma_unturned(pos, center);
    crate::plane::lemma_unturned(
        pos.spec_plus(Vec2 { x: Fixed::spec_ratio(6, 10), y: Fixed::spec_ratio(0, 1) }),
        center,
    );
}

/// The points of a polygon with holes come ring by ring, and the beginning of each hole is noted.
pub proof fn law_meshes_hold_every_ring<S: Scalar>(
    exterior: Seq<Pos2<S>>,
    holes: Seq<Seq<Pos2<S>>>,
    k: nat,
)
    requires
        k < holes.len(),
        mesh(exterior, holes, k).points.len() <= usize::MAX,
    ensures
        mesh(exterior, holes, 0).points == exterior,
        mesh(exterior, holes, k + 1).holes.len() == k + 1,
        ({
            let m = mesh(exterior, holes, k + 1);
            let at = m.holes.last() as int;
            &&& at == m.points.len() - holes[k as int].len()
            &&& m.points.skip(at) == holes[k as int]
            &&& m.points.take(at) == mesh(exterior, holes, k).points
        }),
{
    lemma_mesh_holes(exterior, holes, k);
    let m = mesh(exterior, holes, k + 1);
    let n = mesh(exterior, holes, k);
    assert(m.points.skip(n.points.len() as int) =~= holes[k as int]);
    assert(m.points.take(n.points.len() as int) =~= n.points);
}

proof fn lemma_mesh_holes<S: Scalar>(exterior: Seq<Pos2<S>>, holes: Seq<Seq<Pos2<S>>>, k: nat)
    ensures
        mesh(exterior, holes, k).holes.len() == k,
    decreases k,
{
    if k > 0 {
        lemma_mesh_holes(exterior, holes, (k - 1) as nat);
    }
}

/// The points of a path on the screen are where its frame and they are on the page.
pub proof fn law_rings_are_shown_in_place(
    ring: Seq<Pos2<Fixed>>,
    pos: Pos2<Fixed>,
    place: Place<Fixed>,
    center: Pos2<Fixed>,
    i: int,
)
    requires
        0 <= i < ring.len(),
        near_point(center),
        near_point(place.spec_at(pos.spec_plus(ring[i].spec_to_vec2()))),
    ensures
        ring_on_screen(ring, pos, place, center, (Fixed { raw: 0 })).len() == ring.len(),
        ring_on_screen(ring, pos, place, center, (Fixed { raw: 0 }))[i] == place.spec_at(
            pos.spec_plus(ring[i].spec_to_vec2()),
        ),
{
    crate::plane::lemma_unturned(place.spec_at(pos.spec_plus(ring[i].spec_to_vec2())), center);
}

/// A shape is filled before it is outlined; one that is hollow is only outlined, and one without stroke
/// only filled.
pub proof fn law_shown_fills_lie_under_strokes<S: Scalar>(
    v: LayerView<S>,
    points: Seq<Pos2<S>>,
    ground: Ground<S>,
    zoom: S,
    o: S,
    c: Color32,
)
    requires
        points.len() >= 3,
        v.style.fill == Some(PaintView::<S>::Solid(c)),
        flat_fill(v.style, o) != (Color32 { r: 0, g: 0, b: 0, a: 0 }),
        v.style.stroke matches Some(s) ==> !(s.paint is Gradient) && flat_pen(
            v.style,
            zoom,
            o,
        ).color != (Color32 { r: 0, g: 0, b: 0, a: 0 }),
    ensures
        ({
            let d = polygon_painted(v, points, true, ground, zoom, o, false);
            let e = polygon_painted(v, points, true, ground, zoom, o, true);
            let n = if v.style.stroke is Some {
                1int
            } else {
                0
            };
            &&& d.len() == 1 + n && e.len() == n
            &&& d[0] matches PaintworkView::Area { layer, shape, brush, .. } && layer == v.id
                && shape.exterior == points && shape.holes.len() == 0 && brush == Brush::<S>::Flat(
                flat_fill(v.style, o),
            )
            &&& v.style.stroke is Some ==> (d[1] matches PaintworkView::Line {
                points: p,
                closed,
                pen,
            } && p == points && closed && pen == flat_pen(v.style, zoom, o)) && e[0] == d[1]
        }),
{
}

/// The pen of a stroke is as wide as the stroke times the magnification; without a stroke it draws
/// nothing.
pub proof fn law_pens_are_magnified(style: StyleView<Fixed>, c: Color32, width: Fixed)
    requires
        style.stroke matches Some(s) ==> s.width == width && s.paint == PaintView::<Fixed>::Solid(c),
        c.a == 255,
        style.stroke_opacity.raw == 65536,
        -0x2000_0000 <= width.raw <= 0x2000_0000,
    ensures
        style.stroke is None ==> flat_pen(style, Fixed::spec_ratio(1, 1), Fixed::spec_ratio(1, 1))
            == (Pen { width: Fixed { raw: 0 }, color: Color32 { r: 0, g: 0, b: 0, a: 0 } }),
        style.stroke is Some ==> flat_pen(style, Fixed::spec_ratio(1, 1), Fixed::spec_ratio(1, 1))
            == (Pen { width, color: c }),
        style.stroke is Some ==> flat_pen(
            style,
            Fixed::spec_ratio(2, 1),
            Fixed::spec_ratio(1, 1),
        ).width.raw == 2 * width.raw,
{
    assert(Fixed::spec_ratio(1, 1) == Fixed { raw: 65536 });
    assert(Fixed::spec_ratio(2, 1) == Fixed { raw: 131072 });
    assert(Fixed::spec_ratio(0, 1) == Fixed { raw: 0 });
    lemma_times_one(width);
    lemma_times_one(Fixed { raw: 65536 });
    assert((width.raw * 131072) / 65536 == 2 * width.raw);
    crate::pictures::lemma_full_strength(c);
}

} // verus!
