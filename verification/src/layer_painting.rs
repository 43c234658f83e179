//! Every kind of layer on the screen.
use vstd::prelude::*;

use crate::color::{faded, with_opacity, Color32};
use crate::geometry::{Pos2, Rect, Vec2};
use crate::masking::{ids_of_run, run_ids, unit, unit_at, Unit};
use crate::model::{
    group_views, polygon_views, ring_views, views, ArrowCap, CornerRadii, KindView, Layer, LayerId,
    LayerKind, LayerView, PathPolygon, PolygonView,
};
use crate::outlines::{arrow_cap_size, arrow_cap_wings, cap_size, cap_wings};
use crate::painting::{
    brush_of, fill_brush, fill_color, flat_fill, flat_pen, gradient_line, paint_gradient_stroke,
    paint_polygon, paintwork_views, pen_of, polygon_painted, put, put_ring_on_screen,
    ring_on_screen, ring_stroked, Paintwork, PaintworkView, Pen, Place,
};
use crate::path_edit::{flatten_path, flattened};
use crate::scalar::{clamp_int, Scalar};
use crate::shading::{flat_color, gradient_color, to_channel, Ground};
use crate::shapes::{
    ellipse, ellipse_points, polygon_points, regular_polygon, rounded_rect, rounded_rect_points, star,
    star_points, turn_ring, turned_ring,
};
use crate::style::{copy_vec, Paint, PaintView, StyleView};
use crate::text::{TextAlign, TextResize, VerticalAlign};

verus! {

broadcast use group_views;

/// The rings of a polygon on the screen.
pub open spec fn polygon_on_screen<S: Scalar>(
    p: PolygonView<S>,
    pos: Pos2<S>,
    place: Place<S>,
    center: Pos2<S>,
    degrees: S,
) -> PolygonView<S> {
    PolygonView {
        exterior: ring_on_screen(p.exterior, pos, place, center, degrees),
        holes: Seq::new(
            p.holes.len(),
            |i: int| ring_on_screen(p.holes[i], pos, place, center, degrees),
        ),
    }
}

/// The first `k` rings stroked, closed.
pub open spec fn rings_stroked<S: Scalar>(
    v: LayerView<S>,
    rings: Seq<Seq<Pos2<S>>>,
    ground: Ground<S>,
    pen: Pen<S>,
    opacity: S,
    k: nat,
) -> Seq<PaintworkView<S>>
    decreases k,
{
    if k == 0 {
        Seq::empty()
    } else {
        rings_stroked(v, rings, ground, pen, opacity, (k - 1) as nat) + ring_outlined(
            v,
            rings[k - 1],
            ground,
            pen,
            opacity,
        )
    }
}

/// One ring of a compound shape stroked: with a gradient in pieces, else in one line if it has two
/// points.
pub open spec fn ring_outlined<S: Scalar>(
    v: LayerView<S>,
    ring: Seq<Pos2<S>>,
    ground: Ground<S>,
    pen: Pen<S>,
    opacity: S,
) -> Seq<PaintworkView<S>> {
    match v.style.stroke {
        Some(s) => if s.paint is Gradient {
            gradient_line(
                ring,
                true,
                s.paint,
                ground,
                pen.width,
                opacity.spec_times(v.style.stroke_opacity),
            )
        } else if ring.len() >= 2 {
            seq![PaintworkView::Line { points: ring, closed: true, pen }]
        } else {
            Seq::empty()
        },
        None => Seq::empty(),
    }
}

fn outline_ring<S: Scalar>(
    layer: &Layer<S>,
    ring: &Vec<Pos2<S>>,
    ground: Ground<S>,
    pen: Pen<S>,
    opacity: S,
    out: &mut Vec<Paintwork<S>>,
)
    ensures
        paintwork_views(final(out)@) == paintwork_views(old(out)@) + ring_outlined(
            layer@,
            ring@,
            ground,
            pen,
            opacity,
        ),
{
    let ghost start = paintwork_views(out@);
    if let Some(stroke) = &layer.style.stroke {
        if let Paint::Gradient(g) = &stroke.paint {
            let faint = opacity.times(layer.style.stroke_opacity);
            paint_gradient_stroke(ring, true, g, ground, pen.width, faint, out);
        } else if ring.len() >= 2 {
            put(out, Paintwork::Line { points: copy_vec(ring), closed: true, pen });
        }
    }
    assert(paintwork_views(out@) =~= start + ring_outlined(layer@, ring@, ground, pen, opacity));
}

/// The first `k` polygons of a layer painted, each with its holes left out.
pub open spec fn polygons_painted<S: Scalar>(
    v: LayerView<S>,
    polygons: Seq<PolygonView<S>>,
    place: Place<S>,
    opacity: S,
    k: nat,
) -> Seq<PaintworkView<S>>
    decreases k,
{
    if k == 0 {
        Seq::empty()
    } else {
        let b = v.frame.spec_bounds();
        let ground = Ground {
            rect: place.spec_rect(b),
            center: place.spec_at(b.spec_center()),
            rotation: v.frame.rotation,
        };
        let p = polygon_on_screen(
            polygons[k - 1],
            v.frame.pos,
            place,
            ground.center,
            v.frame.rotation,
        );
        let pen = flat_pen(v.style, place.zoom, opacity);
        polygons_painted(v, polygons, place, opacity, (k - 1) as nat) + (match fill_brush(
            v.style,
            flat_fill(v.style, opacity),
            opacity,
        ) {
            Some(brush) => if p.exterior.len() >= 3 {
                seq![PaintworkView::Area { layer: v.id, shape: p, brush, ground }]
            } else {
                Seq::empty()
            },
            None => Seq::empty(),
        }) + ring_outlined(v, p.exterior, ground, pen, opacity) + rings_stroked(
            v,
            p.holes,
            ground,
            pen,
            opacity,
            p.holes.len(),
        )
    }
}

/// Paints polygons with holes as the style of a layer says; their points are relative to it.
#[verifier::rlimit(50)]
pub fn draw_even_odd_polygons<S: Scalar>(
    layer: &Layer<S>,
    polygons: &Vec<PathPolygon<S>>,
    place: Place<S>,
    opacity: S,
    out: &mut Vec<Paintwork<S>>,
)
    ensures
        paintwork_views(final(out)@) == paintwork_views(old(out)@) + polygons_painted(
            layer@,
            polygon_views(polygons@),
            place,
            opacity,
            polygons@.len(),
        ),
{
    let ghost start = paintwork_views(out@);
    let ghost pv = polygon_views(polygons@);
    let ghost v = layer@;
    let b = layer.frame.bounds();
    let rotation = layer.frame.rotation;
    let ground = Ground { rect: place.rect(b), center: place.at(b.center()), rotation };
    let flat = fill_color(layer, opacity);
    let pen = pen_of(layer, place.zoom, opacity);
    let brush = brush_of(layer, flat, opacity);
    let mut k: usize = 0;
    assert(paintwork_views(out@) =~= start + polygons_painted(v, pv, place, opacity, 0));
    while k < polygons.len()
        invariant
            v == layer@,
            pv == polygon_views(polygons@),
            b == v.frame.spec_bounds(),
            rotation == v.frame.rotation,
            ground == (Ground {
                rect: place.spec_rect(b),
                center: place.spec_at(b.spec_center()),
                rotation,
            }),
            pen == flat_pen(v.style, place.zoom, opacity),
            brush == fill_brush(v.style, flat_fill(v.style, opacity), opacity),
            k <= polygons.len(),
            paintwork_views(out@) == start + polygons_painted(v, pv, place, opacity, k as nat),
        decreases polygons.len() - k,
    {
        assert(pv[k as int] == polygons@[k as int]@);
        let poly = &polygons[k];
        let ghost p = polygon_on_screen(poly@, v.frame.pos, place, ground.center, rotation);
        let exterior = put_ring_on_screen(
            &poly.exterior,
            layer.frame.pos,
            place,
            ground.center,
            rotation,
        );
        let mut holes: Vec<Vec<Pos2<S>>> = Vec::new();
        let mut j: usize = 0;
        while j < poly.holes.len()
            invariant
                p == polygon_on_screen(poly@, layer@.frame.pos, place, ground.center, rotation),
                j <= poly.holes.len(),
                holes.len() == j,
                forall|i: int| 0 <= i < j ==> (#[trigger] holes@[i])@ == p.holes[i],
            decreases poly.holes.len() - j,
        {
            assert(poly@.holes[j as int] == poly.holes@[j as int]@);
            holes.push(
                put_ring_on_screen(
                    &poly.holes[j],
                    layer.frame.pos,
                    place,
                    ground.center,
                    rotation,
                ),
            );
            j += 1;
        }
        assert(ring_views(holes@) =~= p.holes);
        let ghost before = paintwork_views(out@);
        let ghost fill: Seq<PaintworkView<S>> = match brush {
            Some(brush) => if p.exterior.len() >= 3 {
                seq![PaintworkView::Area { layer: v.id, shape: p, brush, ground }]
            } else {
                Seq::empty()
            },
            None => Seq::empty(),
        };
        if let Some(brush) = brush {
            if exterior.len() >= 3 {
                put(
                    out,
                    Paintwork::Area {
                        layer: layer.id,
                        exterior: copy_vec(&exterior),
                        holes: copy_rings(&holes),
                        brush,
                        ground,
                    },
                );
            }
        }
        assert(paintwork_views(out@) =~= before + fill);
        outline_ring(layer, &exterior, ground, pen, opacity, out);
        let ghost mid = paintwork_views(out@);
        let mut i: usize = 0;
        assert(mid =~= mid + rings_stroked(v, p.holes, ground, pen, opacity, 0));
        while i < holes.len()
            invariant
                v == layer@,
                ring_views(holes@) == p.holes,
                i <= holes.len(),
                paintwork_views(out@) == mid + rings_stroked(
                    v,
                    p.holes,
                    ground,
                    pen,
                    opacity,
                    i as nat,
                ),
            decreases holes.len() - i,
        {
            assert(p.holes[i as int] == holes@[i as int]@);
            outline_ring(layer, &holes[i], ground, pen, opacity, out);
            i += 1;
            assert(paintwork_views(out@) =~= mid + rings_stroked(
                v,
                p.holes,
                ground,
                pen,
                opacity,
                i as nat,
            ));
        }
        k += 1;
        assert(paintwork_views(out@) =~= start + polygons_painted(
            v,
            pv,
            place,
            opacity,
            k as nat,
        ));
    }
}

/// A copy of a list of rings.
fn copy_rings<S: Scalar>(rings: &Vec<Vec<Pos2<S>>>) -> (r: Vec<Vec<Pos2<S>>>)
    ensures
        ring_views(r@) == ring_views(rings@),
{
    let mut r: Vec<Vec<Pos2<S>>> = Vec::new();
    let mut i: usize = 0;
    while i < rings.len()
        invariant
            i <= rings.len(),
            r.len() == i,
            forall|k: int| 0 <= k < i ==> (#[trigger] r@[k])@ == rings@[k]@,
        decreases rings.len() - i,
    {
        r.push(copy_vec(&rings[i]));
        i += 1;
    }
    assert(ring_views(r@) =~= ring_views(rings@));
    r
}

/// The marker at an end of an arrow that points `outward`.
pub open spec fn cap_painted<S: Scalar>(
    tip: Pos2<S>,
    outward: Vec2<S>,
    cap: ArrowCap,
    color: Color32,
    width: S,
) -> Seq<PaintworkView<S>> {
    let pen = Pen { width, color };
    match cap_wings(tip, outward, width) {
        None => Seq::empty(),
        Some((p1, p2)) => match cap {
            ArrowCap::Bare => Seq::empty(),
            ArrowCap::Triangle => seq![PaintworkView::Wedge { points: (tip, p1, p2), color }],
            ArrowCap::Disc => {
                let part = S::spec_ratio(2, 5);
                let size = cap_size(width);
                seq![
                    PaintworkView::Disc {
                        center: tip.spec_minus(
                            outward.spec_unit().spec_scaled(size).spec_scaled(part),
                        ),
                        radius: size.spec_times(part),
                        color,
                    },
                ]
            },
            ArrowCap::Line => seq![
                PaintworkView::Segment { a: p1, b: tip, pen },
                PaintworkView::Segment { a: p2, b: tip, pen },
            ],
        },
    }
}

/// Paints the marker at an end of an arrow that points `outward`.
fn draw_arrow_cap<S: Scalar>(
    tip: Pos2<S>,
    outward: Vec2<S>,
    cap: ArrowCap,
    color: Color32,
    width: S,
    out: &mut Vec<Paintwork<S>>,
)
    ensures
        paintwork_views(final(out)@) == paintwork_views(old(out)@) + cap_painted(
            tip,
            outward,
            cap,
            color,
            width,
        ),
{
    let ghost start = paintwork_views(out@);
    let pen = Pen { width, color };
    if let Some((p1, p2)) = arrow_cap_wings(tip, outward, width) {
        match cap {
            ArrowCap::Bare => {},
            ArrowCap::Triangle => {
                put(out, Paintwork::Wedge { points: (tip, p1, p2), color });
            },
            ArrowCap::Disc => {
                let part = S::ratio(2, 5);
                let size = arrow_cap_size(width);
                let center = tip.minus(outward.unit().scaled(size).scaled(part));
                put(out, Paintwork::Disc { center, radius: size.times(part), color });
            },
            ArrowCap::Line => {
                put(out, Paintwork::Segment { a: p1, b: tip, pen });
                put(out, Paintwork::Segment { a: p2, b: tip, pen });
            },
        }
    }
    assert(paintwork_views(out@) =~= start + cap_painted(tip, outward, cap, color, width));
}

/// The ends of a straight layer on the screen.
pub open spec fn ends_on_screen<S: Scalar>(v: LayerView<S>, place: Place<S>) -> (Pos2<S>, Pos2<S>) {
    let center = place.spec_at(v.frame.spec_bounds().spec_center());
    (
        place.spec_at(v.frame.spec_start()).spec_rotated(center, v.frame.rotation),
        place.spec_at(v.frame.spec_end()).spec_rotated(center, v.frame.rotation),
    )
}

/// A straight layer painted: its shaft, then the markers at its ends unless its colour hides
/// nothing.
pub open spec fn line_painted<S: Scalar>(
    v: LayerView<S>,
    place: Place<S>,
    opacity: S,
    caps: Option<(ArrowCap, ArrowCap)>,
) -> Seq<PaintworkView<S>> {
    let b = v.frame.spec_bounds();
    let pen = flat_pen(v.style, place.zoom, opacity);
    let ground = Ground {
        rect: place.spec_rect(b),
        center: place.spec_at(b.spec_center()),
        rotation: v.frame.rotation,
    };
    let (p, q) = ends_on_screen(v, place);
    let faint = opacity.spec_times(v.style.stroke_opacity);
    let shaft = match v.style.stroke {
        Some(s) => if s.paint is Gradient {
            gradient_line(seq![p, q], false, s.paint, ground, pen.width, faint)
        } else {
            seq![PaintworkView::Segment { a: p, b: q, pen }]
        },
        None => seq![PaintworkView::Segment { a: p, b: q, pen }],
    };
    let cap_color = match v.style.stroke {
        Some(s) => match s.paint {
            PaintView::Gradient { stops, .. } => faded(
                gradient_color(stops, S::spec_ratio(1, 1)),
                faint,
            ),
            _ => pen.color,
        },
        None => pen.color,
    };
    shaft + (match caps {
        Some((start, end)) => if pen.color != Color32::spec_transparent() {
            cap_painted(p, p.spec_from(q), start, cap_color, pen.width) + cap_painted(
                q,
                q.spec_from(p),
                end,
                cap_color,
                pen.width,
            )
        } else {
            Seq::empty()
        },
        None => Seq::empty(),
    })
}

fn paint_line<S: Scalar>(
    layer: &Layer<S>,
    place: Place<S>,
    opacity: S,
    caps: Option<(ArrowCap, ArrowCap)>,
    out: &mut Vec<Paintwork<S>>,
)
    ensures
        paintwork_views(final(out)@) == paintwork_views(old(out)@) + line_painted(
            layer@,
            place,
            opacity,
            caps,
        ),
{
    let ghost begin = paintwork_views(out@);
    let b = layer.frame.bounds();
    let pen = pen_of(layer, place.zoom, opacity);
    let rotation = layer.frame.rotation;
    let center = place.at(b.center());
    let ground = Ground { rect: place.rect(b), center, rotation };
    let p = place.at(layer.frame.start()).rotated(center, rotation);
    let q = place.at(layer.frame.end()).rotated(center, rotation);
    let faint = opacity.times(layer.style.stroke_opacity);
    let mut cap_color = pen.color;
    match &layer.style.stroke {
        Some(stroke) => {
            if let Paint::Gradient(g) = &stroke.paint {
                let ends = vec![p, q];
                assert(ends@ =~= seq![p, q]);
                paint_gradient_stroke(&ends, false, g, ground, pen.width, faint, out);
                cap_color = with_opacity(g.color_at(S::ratio(1, 1)), faint);
            } else {
                put(out, Paintwork::Segment { a: p, b: q, pen });
            }
        },
        None => {
            put(out, Paintwork::Segment { a: p, b: q, pen });
        },
    }
    if let Some((start, end)) = caps {
        if pen.color != Color32::transparent() {
            draw_arrow_cap(p, p.from(q), start, cap_color, pen.width, out);
            draw_arrow_cap(q, q.from(p), end, cap_color, pen.width, out);
        }
    }
    assert(paintwork_views(out@) =~= begin + line_painted(layer@, place, opacity, caps));
}

/// The radii of a rectangle at a zoom.
pub open spec fn zoomed_radii<S: Scalar>(r: CornerRadii<S>, zoom: S) -> CornerRadii<S> {
    CornerRadii {
        top_left: r.top_left.spec_times(zoom),
        top_right: r.top_right.spec_times(zoom),
        bottom_right: r.bottom_right.spec_times(zoom),
        bottom_left: r.bottom_left.spec_times(zoom),
    }
}

/// A radius in whole pixels.
pub open spec fn radius_pixels<S: Scalar>(r: S) -> u8 {
    clamp_int(
        clamp_int(r.spec_rounded().spec_to_int(), i64::MIN as int, i64::MAX as int),
        0,
        255,
    ) as u8
}

fn to_radius_pixels<S: Scalar>(r: S) -> (q: u8)
    ensures
        q == radius_pixels(r),
{
    to_channel(r.rounded().to_i64())
}

/// Whether a layer can be painted by flat colours alone.
pub open spec fn is_flat<S: Scalar>(style: StyleView<S>) -> bool {
    (style.fill matches Some(p) ==> p is Solid) && (style.stroke matches Some(s) ==> !(
    s.paint is Gradient))
}

fn flat_style<S: Scalar>(layer: &Layer<S>) -> (r: bool)
    ensures
        r == is_flat(layer@.style),
{
    let fill = match &layer.style.fill {
        Some(Paint::Solid(_)) => true,
        Some(_) => false,
        None => true,
    };
    let stroke = match &layer.style.stroke {
        Some(s) => match &s.paint {
            Paint::Gradient(_) => false,
            _ => true,
        },
        None => true,
    };
    fill && stroke
}

/// A layer that is a ring, on the screen: an oval, a star, a polygon or a rectangle.
pub open spec fn screen_ring<S: Scalar>(v: LayerView<S>, rect: Rect<S>, zoom: S) -> Seq<Pos2<S>> {
    let two = S::spec_ratio(2, 1);
    let rx = rect.spec_width().spec_over(two);
    let ry = rect.spec_height().spec_over(two);
    let c = rect.spec_center();
    turned_ring(
        match v.kind {
            KindView::Rectangle { corner_radius } => rounded_rect(
                rect,
                zoomed_radii(corner_radius, zoom),
            ),
            KindView::Oval => ellipse(c, rx, ry),
            KindView::Star { points, inner_ratio } => star(c, rx, ry, points, inner_ratio),
            KindView::Polygon { sides } => regular_polygon(c, rx, ry, sides),
            _ => Seq::empty(),
        },
        c,
        v.frame.rotation,
    )
}

/// A layer that is a ring, painted.
pub open spec fn ring_painted<S: Scalar>(v: LayerView<S>, place: Place<S>, opacity: S) -> Seq<
    PaintworkView<S>,
> {
    let rect = place.spec_rect(v.frame.spec_bounds());
    let upright = v.frame.rotation.spec_same(S::spec_ratio(0, 1));
    match v.kind {
        KindView::Rectangle { corner_radius } if upright && is_flat(v.style) => {
            let r = zoomed_radii(corner_radius, place.zoom);
            seq![
                PaintworkView::RoundBox {
                    rect,
                    radii: (
                        radius_pixels(r.top_left),
                        radius_pixels(r.top_right),
                        radius_pixels(r.bottom_right),
                        radius_pixels(r.bottom_left),
                    ),
                    fill: flat_fill(v.style, opacity),
                    pen: flat_pen(v.style, place.zoom, opacity),
                },
            ]
        },
        _ => polygon_painted(
            v,
            screen_ring(v, rect, place.zoom),
            true,
            Ground { rect, center: rect.spec_center(), rotation: v.frame.rotation },
            place.zoom,
            opacity,
            false,
        ),
    }
}

fn paint_turned<S: Scalar>(
    layer: &Layer<S>,
    ring: &Vec<Pos2<S>>,
    rect: Rect<S>,
    zoom: S,
    opacity: S,
    out: &mut Vec<Paintwork<S>>,
)
    ensures
        paintwork_views(final(out)@) == paintwork_views(old(out)@) + polygon_painted(
            layer@,
            turned_ring(ring@, rect.spec_center(), layer@.frame.rotation),
            true,
            Ground { rect, center: rect.spec_center(), rotation: layer@.frame.rotation },
            zoom,
            opacity,
            false,
        ),
{
    let center = rect.center();
    let rotation = layer.frame.rotation;
    let points = turn_ring(ring, center, rotation);
    let ground = Ground { rect, center, rotation };
    paint_polygon(layer, points, true, ground, zoom, opacity, false, out);
}

/// The path of a layer painted, if it has two points on the screen; an open one is hollow.
pub open spec fn path_painted<S: Scalar>(
    v: LayerView<S>,
    flat: Seq<Pos2<S>>,
    closed: bool,
    place: Place<S>,
    opacity: S,
) -> Seq<PaintworkView<S>> {
    let b = v.frame.spec_bounds();
    let center = place.spec_at(b.spec_center());
    let points = ring_on_screen(flat, v.frame.pos, place, center, v.frame.rotation);
    if points.len() >= 2 {
        polygon_painted(
            v,
            points,
            closed,
            Ground { rect: place.spec_rect(b), center, rotation: v.frame.rotation },
            place.zoom,
            opacity,
            !closed,
        )
    } else {
        Seq::empty()
    }
}

/// The text of a layer painted, unless it is being edited in place.
pub open spec fn text_painted<S: Scalar>(
    v: LayerView<S>,
    resize: TextResize,
    place: Place<S>,
    opacity: S,
    editing: Option<LayerId>,
) -> Seq<PaintworkView<S>> {
    let b = v.frame.spec_bounds();
    if editing == Some(v.id) {
        Seq::empty()
    } else {
        seq![
            PaintworkView::Text {
                layer: v.id,
                place,
                color: faded(
                    match v.style.fill {
                        Some(p) => flat_color(p),
                        None => Color32 { r: 0, g: 0, b: 0, a: 255 },
                    },
                    opacity.spec_times(v.style.fill_opacity),
                ),
                wrap: match resize {
                    TextResize::Auto => None,
                    _ => Some(b.spec_width().spec_times(place.zoom)),
                },
                clip: match resize {
                    TextResize::Fixed => Some(place.spec_rect(b)),
                    _ => None,
                },
            },
        ]
    }
}

/// A layer without children, painted.
pub open spec fn shape_painted<S: Scalar>(
    v: LayerView<S>,
    place: Place<S>,
    opacity: S,
    editing: Option<LayerId>,
) -> Seq<PaintworkView<S>> {
    let white = Color32 { r: 255, g: 255, b: 255, a: 255 };
    match v.kind {
        KindView::Rectangle { .. }
        | KindView::Oval
        | KindView::Star { .. }
        | KindView::Polygon { .. } => ring_painted(v, place, opacity),
        KindView::Line => line_painted(v, place, opacity, None),
        KindView::Arrow { start_cap, end_cap } => line_painted(
            v,
            place,
            opacity,
            Some((start_cap, end_cap)),
        ),
        KindView::Path { points, closed } => path_painted(
            v,
            flattened(points, closed),
            closed,
            place,
            opacity,
        ),
        KindView::CompoundPath { polygons } => polygons_painted(
            v,
            polygons,
            place,
            opacity,
            polygons.len(),
        ),
        KindView::BooleanGroup => seq![PaintworkView::Region { layer: v.id, place, opacity }],
        KindView::Text { text } => text_painted(v, text.resize, place, opacity, editing),
        KindView::Image { .. } => {
            let rect = place.spec_rect(v.frame.spec_bounds());
            let tint = faded(white, opacity);
            if v.frame.rotation.spec_same(S::spec_ratio(0, 1)) {
                seq![PaintworkView::Image { layer: v.id, rect, tint }]
            } else {
                seq![
                    PaintworkView::TurnedImage {
                        layer: v.id,
                        rect,
                        degrees: v.frame.rotation,
                        tint,
                    },
                ]
            }
        },
        _ => Seq::empty(),
    }
}

fn same_id(a: Option<LayerId>, b: LayerId) -> (r: bool)
    ensures
        r == (a == Some(b)),
{
    match a {
        Some(a) => a == b,
        None => false,
    }
}

fn paint_ring_layer<S: Scalar>(
    layer: &Layer<S>,
    place: Place<S>,
    opacity: S,
    out: &mut Vec<Paintwork<S>>,
)
    requires
        layer@.kind is Rectangle || layer@.kind is Oval || layer@.kind is Star
            || layer@.kind is Polygon,
    ensures
        paintwork_views(final(out)@) == paintwork_views(old(out)@) + ring_painted(
            layer@,
            place,
            opacity,
        ),
{
    let ghost start = paintwork_views(out@);
    let rect = place.rect(layer.frame.bounds());
    let two = S::ratio(2, 1);
    let rx = rect.width().over(two);
    let ry = rect.height().over(two);
    let c = rect.center();
    match &layer.kind {
        LayerKind::Rectangle { corner_radius } => {
            let zoom = place.zoom;
            let r = CornerRadii {
                top_left: corner_radius.top_left.times(zoom),
                top_right: corner_radius.top_right.times(zoom),
                bottom_right: corner_radius.bottom_right.times(zoom),
                bottom_left: corner_radius.bottom_left.times(zoom),
            };
            if layer.frame.rotation.is_same(S::ratio(0, 1)) && flat_style(layer) {
                let radii = (
                    to_radius_pixels(r.top_left),
                    to_radius_pixels(r.top_right),
                    to_radius_pixels(r.bottom_right),
                    to_radius_pixels(r.bottom_left),
                );
                let fill = fill_color(layer, opacity);
                put(
                    out,
                    Paintwork::RoundBox { rect, radii, fill, pen: pen_of(layer, zoom, opacity) },
                );
            } else {
                let ring = rounded_rect_points(rect, r);
                paint_turned(layer, &ring, rect, zoom, opacity, out);
            }
        },
        LayerKind::Oval => {
            let ring = ellipse_points(c, rx, ry);
            paint_turned(layer, &ring, rect, place.zoom, opacity, out);
        },
        LayerKind::Star { points, inner_ratio } => {
            let ring = star_points(c, rx, ry, *points, *inner_ratio);
            paint_turned(layer, &ring, rect, place.zoom, opacity, out);
        },
        LayerKind::Polygon { sides } => {
            let ring = polygon_points(c, rx, ry, *sides);
            paint_turned(layer, &ring, rect, place.zoom, opacity, out);
        },
        _ => {},
    }
    assert(paintwork_views(out@) =~= start + ring_painted(layer@, place, opacity));
}

#[verifier::rlimit(50)]
fn paint_shape<S: Scalar>(
    layer: &Layer<S>,
    place: Place<S>,
    opacity: S,
    editing: Option<LayerId>,
    out: &mut Vec<Paintwork<S>>,
)
    ensures
        paintwork_views(final(out)@) == paintwork_views(old(out)@) + shape_painted(
            layer@,
            place,
            opacity,
            editing,
        ),
{
    let ghost start = paintwork_views(out@);
    match &layer.kind {
        LayerKind::Rectangle { .. }
        | LayerKind::Oval
        | LayerKind::Star { .. }
        | LayerKind::Polygon { .. } => {
            paint_ring_layer(layer, place, opacity, out);
        },
        LayerKind::Line => {
            paint_line(layer, place, opacity, None, out);
        },
        LayerKind::Arrow { start_cap, end_cap } => {
            paint_line(layer, place, opacity, Some((*start_cap, *end_cap)), out);
        },
        LayerKind::Path { points, closed } => {
            let b = layer.frame.bounds();
            let rotation = layer.frame.rotation;
            let center = place.at(b.center());
            let flat = flatten_path(points.as_slice(), *closed);
            let ring = put_ring_on_screen(&flat, layer.frame.pos, place, center, rotation);
            if ring.len() >= 2 {
                let ground = Ground { rect: place.rect(b), center, rotation };
                paint_polygon(
                    layer,
                    ring,
                    *closed,
                    ground,
                    place.zoom,
                    opacity,
                    !*closed,
                    out,
                );
            }
        },
        LayerKind::CompoundPath { polygons } => {
            draw_even_odd_polygons(layer, polygons, place, opacity, out);
        },
        LayerKind::BooleanGroup { .. } => {
            put(out, Paintwork::Region { layer: layer.id, place, opacity });
        },
        LayerKind::Text { text } => {
            if !same_id(editing, layer.id) {
                let b = layer.frame.bounds();
                let c = match &layer.style.fill {
                    Some(p) => p.to_color32(),
                    None => Color32 { r: 0, g: 0, b: 0, a: 255 },
                };
                let color = with_opacity(c, opacity.times(layer.style.fill_opacity));
                let wrap = match text.resize {
                    TextResize::Auto => None,
                    _ => Some(b.width().times(place.zoom)),
                };
                let clip = match text.resize {
                    TextResize::Fixed => Some(place.rect(b)),
                    _ => None,
                };
                put(out, Paintwork::Text { layer: layer.id, place, color, wrap, clip });
            }
        },
        LayerKind::Image { .. } => {
            let rect = place.rect(layer.frame.bounds());
            let tint = with_opacity(Color32 { r: 255, g: 255, b: 255, a: 255 }, opacity);
            let degrees = layer.frame.rotation;
            if degrees.is_same(S::ratio(0, 1)) {
                put(out, Paintwork::Image { layer: layer.id, rect, tint });
            } else {
                put(out, Paintwork::TurnedImage { layer: layer.id, rect, degrees, tint });
            }
        },
        LayerKind::Artboard { .. } | LayerKind::Group { .. } => {},
    }
    assert(paintwork_views(out@) =~= start + shape_painted(layer@, place, opacity, editing));
}

/// Whether a layer casts any shadow.
pub open spec fn casts<S: Scalar>(style: StyleView<S>) -> bool {
    style.shadows.len() > 0 || style.inner_shadows.len() > 0
}

/// The shadows of a layer painted, if it casts any.
pub open spec fn shadows_painted<S: Scalar>(
    v: LayerView<S>,
    inner: bool,
    place: Place<S>,
    opacity: S,
) -> Seq<PaintworkView<S>> {
    if casts(v.style) {
        seq![
            PaintworkView::Shadows {
                layer: v.id,
                inner,
                place,
                tint: faded(Color32 { r: 255, g: 255, b: 255, a: 255 }, opacity),
            },
        ]
    } else {
        Seq::empty()
    }
}

fn paint_shadows<S: Scalar>(
    layer: &Layer<S>,
    inner: bool,
    place: Place<S>,
    opacity: S,
    out: &mut Vec<Paintwork<S>>,
)
    ensures
        paintwork_views(final(out)@) == paintwork_views(old(out)@) + shadows_painted(
            layer@,
            inner,
            place,
            opacity,
        ),
{
    let ghost start = paintwork_views(out@);
    if layer.style.shadows.len() > 0 || layer.style.inner_shadows.len() > 0 {
        let tint = with_opacity(Color32 { r: 255, g: 255, b: 255, a: 255 }, opacity);
        put(out, Paintwork::Shadows { layer: layer.id, inner, place, tint });
    }
    assert(paintwork_views(out@) =~= start + shadows_painted(layer@, inner, place, opacity));
}

/// The sheet of an artboard painted.
pub open spec fn sheet<S: Scalar>(
    v: LayerView<S>,
    background: Color32,
    place: Place<S>,
    opacity: S,
) -> PaintworkView<S> {
    let rect = place.spec_rect(v.frame.spec_bounds());
    PaintworkView::Sheet {
        layer: v.id,
        rect,
        ground: faded(background, opacity),
        edge: faded(Color32 { r: 150, g: 150, b: 150, a: 255 }, opacity),
        label: rect.min.spec_minus(Vec2 { x: S::spec_ratio(0, 1), y: S::spec_ratio(16, 1) }),
    }
}

/// A layer and what it holds, painted.
pub open spec fn painted<S: Scalar>(
    v: LayerView<S>,
    place: Place<S>,
    parent_opacity: S,
    editing: Option<LayerId>,
) -> Seq<PaintworkView<S>>
    decreases v, 0nat,
{
    let opacity = parent_opacity.spec_times(v.opacity);
    let inside = place.spec_inside(v.frame.pos);
    if !v.visible {
        Seq::empty()
    } else {
        shadows_painted(v, false, place, opacity) + (match v.kind {
            KindView::Artboard { background } => seq![sheet(v, background, place, opacity)]
                + painted_until(v.children, inside, opacity, editing, v.children.len()),
            KindView::Group => painted_until(
                v.children,
                inside,
                opacity,
                editing,
                v.children.len(),
            ),
            _ => shape_painted(v, place, opacity, editing),
        }) + shadows_painted(v, true, place, opacity)
    }
}

/// The first `k` layers of a list painted from back to front.
pub open spec fn painted_until<S: Scalar>(
    s: Seq<LayerView<S>>,
    place: Place<S>,
    opacity: S,
    editing: Option<LayerId>,
    k: nat,
) -> Seq<PaintworkView<S>>
    decreases s, k,
{
    if k == 0 || k > s.len() {
        Seq::empty()
    } else {
        let i = k - 1;
        painted_until(s, place, opacity, editing, (k - 1) as nat) + (match unit(s, i) {
            Unit::Clipped => Seq::empty(),
            Unit::Run { first } => seq![
                PaintworkView::Masked {
                    mask: s[i].id,
                    content: run_ids(s, first as int, i),
                    place,
                    tint: faded(Color32 { r: 255, g: 255, b: 255, a: 255 }, opacity),
                },
            ],
            Unit::Plain => painted(s[i], place, opacity, editing),
        })
    }
}

/// Paints the layers of a list from back to front.
pub fn draw_children<S: Scalar>(
    layers: &Vec<Layer<S>>,
    place: Place<S>,
    opacity: S,
    editing: Option<LayerId>,
    out: &mut Vec<Paintwork<S>>,
)
    ensures
        paintwork_views(final(out)@) == paintwork_views(old(out)@) + painted_until(
            views(layers@),
            place,
            opacity,
            editing,
            layers@.len(),
        ),
    decreases views(layers@), layers@.len(),
{
    let ghost s = views(layers@);
    let ghost start = paintwork_views(out@);
    let mut i: usize = 0;
    assert(paintwork_views(out@) =~= start + painted_until(s, place, opacity, editing, 0));
    while i < layers.len()
        invariant
            s == views(layers@),
            i <= layers.len(),
            paintwork_views(out@) == start + painted_until(s, place, opacity, editing, i as nat),
        decreases layers.len() - i,
    {
        assert(s[i as int] == layers@[i as int]@);
        match unit_at(layers, i) {
            Unit::Clipped => {},
            Unit::Run { first } => {
                let content = ids_of_run(layers, first, i);
                let tint = with_opacity(Color32 { r: 255, g: 255, b: 255, a: 255 }, opacity);
                put(out, Paintwork::Masked { mask: layers[i].id, content, place, tint });
            },
            Unit::Plain => {
                draw_layer(&layers[i], place, opacity, editing, out);
            },
        }
        i += 1;
        assert(paintwork_views(out@) =~= start + painted_until(
            s,
            place,
            opacity,
            editing,
            i as nat,
        ));
    }
}

/// Paints a layer and what it holds: its shadows behind it, then itself, then its shadows inside.
/// A hidden layer paints nothing, nor does the text that is edited in place.
pub fn draw_layer<S: Scalar>(
    layer: &Layer<S>,
    place: Place<S>,
    parent_opacity: S,
    editing: Option<LayerId>,
    out: &mut Vec<Paintwork<S>>,
)
    ensures
        paintwork_views(final(out)@) == paintwork_views(old(out)@) + painted(
            layer@,
            place,
            parent_opacity,
            editing,
        ),
    decreases layer@, 0nat,
{
    let ghost start = paintwork_views(out@);
    if !layer.visible {
        assert(paintwork_views(out@) =~= start + painted(layer@, place, parent_opacity, editing));
        return;
    }
    let opacity = parent_opacity.times(layer.opacity);
    paint_shadows(layer, false, place, opacity, out);
    match &layer.kind {
        LayerKind::Artboard { children, background } => {
            let rect = place.rect(layer.frame.bounds());
            put(
                out,
                Paintwork::Sheet {
                    layer: layer.id,
                    rect,
                    ground: with_opacity(*background, opacity),
                    edge: with_opacity(Color32 { r: 150, g: 150, b: 150, a: 255 }, opacity),
                    label: rect.min.minus(Vec2 { x: S::ratio(0, 1), y: S::ratio(16, 1) }),
                },
            );
            assert(views(children@) == layer@.children);
            draw_children(children, place.inside(layer.frame.pos), opacity, editing, out);
        },
        LayerKind::Group { children } => {
            assert(views(children@) == layer@.children);
            draw_children(children, place.inside(layer.frame.pos), opacity, editing, out);
        },
        _ => {
            paint_shape(layer, place, opacity, editing, out);
        },
    }
    paint_shadows(layer, true, place, opacity, out);
    assert(paintwork_views(out@) =~= start + painted(layer@, place, parent_opacity, editing));
}

/// Where the rows of a text layer begin on the screen: `total` is their height on the screen.
pub open spec fn text_base<S: Scalar>(
    v: LayerView<S>,
    align: TextAlign,
    vertical: VerticalAlign,
    place: Place<S>,
    total: S,
) -> Pos2<S> {
    let b = v.frame.spec_bounds();
    let h = total.spec_over(place.zoom);
    place.spec_at(
        Pos2 {
            x: match align {
                TextAlign::Left | TextAlign::Justify => b.min.x,
                TextAlign::Center => b.spec_center().x,
                TextAlign::Right => b.max.x,
            },
            y: match vertical {
                VerticalAlign::Top => b.min.y,
                VerticalAlign::Middle => b.spec_center().y.spec_minus(
                    h.spec_over(S::spec_ratio(2, 1)),
                ),
                VerticalAlign::Bottom => b.max.y.spec_minus(h),
            },
        },
    )
}

/// Where the rows of a text layer begin on the screen; none for another layer.
pub fn text_anchor<S: Scalar>(layer: &Layer<S>, place: Place<S>, total: S) -> (r: Option<Pos2<S>>)
    ensures
        r == match layer@.kind {
            KindView::Text { text } => Some(
                text_base(layer@, text.align, text.vertical_align, place, total),
            ),
            _ => None,
        },
{
    match &layer.kind {
        LayerKind::Text { text } => {
            let b = layer.frame.bounds();
            let h = total.over(place.zoom);
            let x = match text.align {
                TextAlign::Left | TextAlign::Justify => b.min.x,
                TextAlign::Center => b.center().x,
                TextAlign::Right => b.max.x,
            };
            let y = match text.vertical_align {
                VerticalAlign::Top => b.min.y,
                VerticalAlign::Middle => b.center().y.minus(h.over(S::ratio(2, 1))),
                VerticalAlign::Bottom => b.max.y.minus(h),
            };
            Some(place.at(Pos2 { x, y }))
        },
        _ => None,
    }
}

/// Where a paragraph begins below the first, those before it being so high and so far apart.
pub open spec fn paragraph_offset<S: Scalar>(heights: Seq<S>, spacing: S, k: nat) -> S
    decreases k,
{
    if k == 0 {
        S::spec_ratio(0, 1)
    } else {
        paragraph_offset(heights, spacing, (k - 1) as nat).spec_plus(heights[k - 1]).spec_plus(
            spacing,
        )
    }
}

/// How high all paragraphs are together.
pub open spec fn paragraphs_height<S: Scalar>(heights: Seq<S>, spacing: S) -> S {
    if heights.len() == 0 {
        S::spec_ratio(0, 1)
    } else {
        let last = (heights.len() - 1) as nat;
        paragraph_offset(heights, spacing, last).spec_plus(heights[last as int])
    }
}

/// Where each paragraph begins below the first, and how high they are together.
pub fn stack_paragraphs<S: Scalar>(heights: &Vec<S>, spacing: S) -> (r: (Vec<S>, S))
    ensures
        r.0@ == Seq::new(
            heights@.len(),
            |k: int| paragraph_offset(heights@, spacing, k as nat),
        ),
        r.1 == paragraphs_height(heights@, spacing),
{
    let mut offsets: Vec<S> = Vec::new();
    let mut y = S::ratio(0, 1);
    let mut total = S::ratio(0, 1);
    let mut k: usize = 0;
    while k < heights.len()
        invariant
            k <= heights.len(),
            offsets.len() == k,
            y == paragraph_offset(heights@, spacing, k as nat),
            k == 0 ==> total == S::spec_ratio(0, 1),
            k > 0 ==> total == paragraph_offset(heights@, spacing, (k - 1) as nat).spec_plus(
                heights@[k - 1],
            ),
            forall|j: int|
                0 <= j < k ==> #[trigger] offsets@[j] == paragraph_offset(
                    heights@,
                    spacing,
                    j as nat,
                ),
        decreases heights.len() - k,
    {
        offsets.push(y);
        total = y.plus(heights[k]);
        y = total.plus(spacing);
        k += 1;
    }
    assert(offsets@ =~= Seq::new(
        heights@.len(),
        |k: int| paragraph_offset(heights@, spacing, k as nat),
    ));
    (offsets, total)
}

/// A paragraph put on the screen: its upper left corner, about which it is turned.
#[derive(Debug, PartialEq)]
pub struct TextStamp<S> {
    pub paragraph: usize,
    pub at: Pos2<S>,
    pub degrees: S,
}

/// The stamps of a paragraph that begins at `pos` before the layer is turned about its center: a
/// second one beside it, where bold is drawn twice.
pub open spec fn stamps_of<S: Scalar>(
    v: LayerView<S>,
    place: Place<S>,
    doubled: bool,
    k: usize,
    pos: Pos2<S>,
) -> Seq<TextStamp<S>> {
    let center = place.spec_at(v.frame.spec_bounds().spec_center());
    let degrees = v.frame.rotation;
    let once = seq![TextStamp { paragraph: k, at: pos.spec_rotated(center, degrees), degrees }];
    let beside = pos.spec_plus(Vec2 { x: S::spec_ratio(6, 10), y: S::spec_ratio(0, 1) });
    if doubled {
        once.push(TextStamp { paragraph: k, at: beside.spec_rotated(center, degrees), degrees })
    } else {
        once
    }
}

/// The stamps of the first `k` paragraphs of a text, which begin below `base`; an empty paragraph
/// has none.
pub open spec fn stamps_until<S: Scalar>(
    v: LayerView<S>,
    place: Place<S>,
    doubled: bool,
    base: Pos2<S>,
    offsets: Seq<S>,
    empty: Seq<bool>,
    k: nat,
) -> Seq<TextStamp<S>>
    decreases k,
{
    if k == 0 {
        Seq::empty()
    } else {
        let rest = stamps_until(v, place, doubled, base, offsets, empty, (k - 1) as nat);
        if empty[k - 1] {
            rest
        } else {
            rest + stamps_of(
                v,
                place,
                doubled,
                (k - 1) as usize,
                base.spec_plus(Vec2 { x: S::spec_ratio(0, 1), y: offsets[k - 1] }),
            )
        }
    }
}

/// Where the paragraphs of a text layer go on the screen, each turned with the layer; `offsets` are
/// where they begin below the first and `total` how high they are together. Bold of a text without
/// runs is drawn twice. Nothing for another layer.
pub fn text_stamps<S: Scalar>(
    layer: &Layer<S>,
    place: Place<S>,
    total: S,
    offsets: &Vec<S>,
    empty: &Vec<bool>,
) -> (r: Vec<TextStamp<S>>)
    requires
        empty.len() == offsets.len(),
    ensures
        r@ == match layer@.kind {
            KindView::Text { text } => stamps_until(
                layer@,
                place,
                text.bold && text.runs.len() == 0,
                text_base(layer@, text.align, text.vertical_align, place, total),
                offsets@,
                empty@,
                offsets@.len(),
            ),
            _ => Seq::empty(),
        },
{
    let mut out: Vec<TextStamp<S>> = Vec::new();
    if let LayerKind::Text { text } = &layer.kind {
        let base = match text_anchor(layer, place, total) {
            Some(base) => base,
            None => {
                return out;
            },
        };
        let doubled = text.bold && text.runs.len() == 0;
        let center = place.at(layer.frame.bounds().center());
        let degrees = layer.frame.rotation;
        let zero = S::ratio(0, 1);
        let mut k: usize = 0;
        while k < offsets.len()
            invariant
                empty.len() == offsets.len(),
                k <= offsets.len(),
                zero == S::spec_ratio(0, 1),
                center == place.spec_at(layer@.frame.spec_bounds().spec_center()),
                degrees == layer@.frame.rotation,
                out@ == stamps_until(
                    layer@,
                    place,
                    doubled,
                    base,
                    offsets@,
                    empty@,
                    k as nat,
                ),
            decreases offsets.len() - k,
        {
            let ghost was = out@;
            if !empty[k] {
                let pos = base.plus(Vec2 { x: zero, y: offsets[k] });
                out.push(TextStamp { paragraph: k, at: pos.rotated(center, degrees), degrees });
                if doubled {
                    let beside = pos.plus(Vec2 { x: S::ratio(6, 10), y: zero });
                    out.push(
                        TextStamp { paragraph: k, at: beside.rotated(center, degrees), degrees },
                    );
                }
                assert(out@ =~= was + stamps_of(layer@, place, doubled, k, pos));
            }
            k += 1;
        }
    }
    out
}

/// The corners of a polygon with holes, and where each hole begins among them.
pub struct MeshView<S> {
    pub points: Seq<Pos2<S>>,
    pub holes: Seq<usize>,
}

/// The corners of a polygon and of its first `k` holes.
pub open spec fn mesh<S: Scalar>(exterior: Seq<Pos2<S>>, holes: Seq<Seq<Pos2<S>>>, k: nat) -> MeshView<
    S,
>
    decreases k,
{
    if k == 0 {
        MeshView { points: exterior, holes: Seq::empty() }
    } else {
        let m = mesh(exterior, holes, (k - 1) as nat);
        MeshView {
            points: m.points + holes[k - 1],
            holes: m.holes.push(m.points.len() as usize),
        }
    }
}

/// The corners of a polygon with holes, and where each hole begins among them; none for an
/// outside of fewer than three corners.
pub fn earcut_polygon<S: Scalar>(exterior: &Vec<Pos2<S>>, holes: &Vec<Vec<Pos2<S>>>) -> (r: Option<
    (Vec<Pos2<S>>, Vec<usize>),
>)
    ensures
        match r {
            Some((points, starts)) => {
                let m = mesh(exterior@, ring_views(holes@), holes@.len());
                exterior@.len() >= 3 && points@ == m.points && starts@ == m.holes
            },
            None => exterior@.len() < 3,
        },
{
    if exterior.len() < 3 {
        return None;
    }
    let ghost hv = ring_views(holes@);
    let mut points = copy_vec(exterior);
    let mut starts: Vec<usize> = Vec::new();
    let mut k: usize = 0;
    while k < holes.len()
        invariant
            hv == ring_views(holes@),
            k <= holes.len(),
            points@ == mesh(exterior@, hv, k as nat).points,
            starts@ == mesh(exterior@, hv, k as nat).holes,
        decreases holes.len() - k,
    {
        assert(hv[k as int] == holes@[k as int]@);
        let ghost before = points@;
        starts.push(points.len());
        let mut j: usize = 0;
        assert(points@ =~= before + holes@[k as int]@.take(0));
        while j < holes[k].len()
            invariant
                k < holes.len(),
                j <= holes@[k as int].len(),
                points@ == before + holes@[k as int]@.take(j as int),
            decreases holes@[k as int].len() - j,
        {
            points.push(holes[k][j]);
            j += 1;
            assert(points@ =~= before + holes@[k as int]@.take(j as int));
        }
        assert(holes@[k as int]@.take(j as int) =~= holes@[k as int]@);
        k += 1;
    }
    Some((points, starts))
}

/// A hidden layer paints nothing.
pub proof fn law_hidden_layers_paint_nothing<S: Scalar>(
    v: LayerView<S>,
    place: Place<S>,
    opacity: S,
    editing: Option<LayerId>,
)
    requires
        !v.visible,
    ensures
        painted(v, place, opacity, editing).len() == 0,
{
}

/// An open path is never filled.
pub proof fn law_open_paths_are_hollow<S: Scalar>(
    v: LayerView<S>,
    flat: Seq<Pos2<S>>,
    place: Place<S>,
    opacity: S,
    i: int,
)
    requires
        0 <= i < path_painted(v, flat, false, place, opacity).len(),
    ensures
        !(path_painted(v, flat, false, place, opacity)[i] is Area),
{
    let b = v.frame.spec_bounds();
    let center = place.spec_at(b.spec_center());
    let points = ring_on_screen(flat, v.frame.pos, place, center, v.frame.rotation);
    let ground = Ground { rect: place.spec_rect(b), center, rotation: v.frame.rotation };
    let pen = flat_pen(v.style, place.zoom, opacity);
    let line = ring_stroked(v, points, false, ground, pen, opacity);
    assert(path_painted(v, flat, false, place, opacity) =~= line);
    if v.style.stroke is Some && (v.style.stroke->0).paint is Gradient && points.len() >= 2 {
        crate::painting::lemma_pieces_are_segments(
            points,
            (v.style.stroke->0).paint,
            ground,
            pen.width,
            opacity.spec_times(v.style.stroke_opacity),
            crate::path_edit::segment_count(points.len() as int, false) as nat,
        );
    }
}

} // verus!
