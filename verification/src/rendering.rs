//! Drawing layers into a pixmap: what is filled and stroked, in which order and with which paint.
//!
//! The drawing itself is done by whoever holds the pixmap; a layer becomes a list of [`Draw`]s.
use vstd::prelude::*;

use crate::color::{faded, with_opacity, Color32};
use crate::geometry::{Pos2, Rect, Vec2};
use crate::masking::{ids_of_run, run_ids, unit, unit_at, Unit};
use crate::model::{
    group_views, views, ArrowCap, KindView, Layer, LayerId, LayerKind, LayerView, PathPolygon,
    PolygonView, polygon_views,
};
use crate::outlines::{
    arrow_cap_size, arrow_cap_wings, cap_size, cap_wings, compound_outline,
    compound_path_to_sk_path, outline_view, path_outline, path_to_sk_path, polygon_ring_path,
    ring_outline, rounded_outline, rounded_rect_path, Outline, OutlineView, PathStep,
};
use crate::scalar::{clamp_int, clamped, spec_clamped, Scalar};
use crate::shapes::{polygon_points, regular_polygon, star, star_points};
use crate::style::{
    copy_vec, Gradient, GradientKind, GradientStop, HalftoneFill, NoiseFill, Paint, PaintView,
    Shadow, StyleView,
};

verus! {

broadcast use group_views;

/// A turn by some degrees about a point.
#[derive(Debug, PartialEq)]
pub struct Turn<S> {
    pub degrees: S,
    pub center: Pos2<S>,
}

impl<S: Scalar> Clone for Turn<S> {
    fn clone(&self) -> (r: Self)
        ensures
            r == *self,
    {
        *self
    }
}

impl<S: Scalar> Copy for Turn<S> {

}

/// The turn of a layer about the centre of its bounds; none for an upright one.
pub open spec fn turn_of<S: Scalar>(rotation: S, bounds: Rect<S>) -> Option<Turn<S>> {
    if rotation.spec_same(S::spec_ratio(0, 1)) {
        None
    } else {
        Some(Turn { degrees: rotation, center: bounds.spec_center() })
    }
}

/// The turn of a layer about the centre of its bounds; none for an upright one.
pub fn rotation_transform<S: Scalar>(rotation: S, bounds: Rect<S>) -> (r: Option<Turn<S>>)
    ensures
        r == turn_of(rotation, bounds),
{
    if rotation.is_same(S::ratio(0, 1)) {
        None
    } else {
        Some(Turn { degrees: rotation, center: bounds.center() })
    }
}

/// A length in whole pixels, at least one.
pub open spec fn pixels<S: Scalar>(length: S) -> u32 {
    clamp_int(
        clamp_int(
            length.spec_rounded().spec_greater(S::spec_ratio(1, 1)).spec_to_int(),
            i64::MIN as int,
            i64::MAX as int,
        ),
        0,
        u32::MAX as int,
    ) as u32
}

/// A length in whole pixels, at least one.
pub fn to_pixels<S: Scalar>(length: S) -> (r: u32)
    ensures
        r == pixels(length),
{
    let v: i64 = length.rounded().greater(S::ratio(1, 1)).to_i64();
    if v < 0 {
        0
    } else if v > 4294967295 {
        4294967295
    } else {
        v as u32
    }
}

/// A paint as it is laid under an outline.
#[allow(inconsistent_fields)]
#[derive(Debug, PartialEq)]
pub enum Shade<S> {
    Flat(Color32),
    Linear { from: Pos2<S>, to: Pos2<S>, stops: Vec<GradientStop<S>> },
    Radial { center: Pos2<S>, radius: S, stops: Vec<GradientStop<S>> },
    /// Grain for every pixel of a box at `at`.
    Grain { fill: NoiseFill<S>, width: u32, height: u32, at: Pos2<S>, opacity: S },
    /// Dots for every pixel of a box at `at`.
    Dots { fill: HalftoneFill<S>, width: u32, height: u32, at: Pos2<S>, opacity: S },
    /// An encoded image repeated from `at` on.
    Tiles { encoded: Vec<u8>, tile_width: S, at: Pos2<S>, opacity: S },
}

#[allow(inconsistent_fields)]
#[verifier::ext_equal]
pub enum ShadeView<S> {
    Flat(Color32),
    Linear { from: Pos2<S>, to: Pos2<S>, stops: Seq<GradientStop<S>> },
    Radial { center: Pos2<S>, radius: S, stops: Seq<GradientStop<S>> },
    Grain { fill: NoiseFill<S>, width: u32, height: u32, at: Pos2<S>, opacity: S },
    Dots { fill: HalftoneFill<S>, width: u32, height: u32, at: Pos2<S>, opacity: S },
    Tiles { encoded: Seq<u8>, tile_width: S, at: Pos2<S>, opacity: S },
}

impl<S: Scalar> Shade<S> {
    pub open spec fn view(&self) -> ShadeView<S> {
        match *self {
            Shade::Flat(c) => ShadeView::Flat(c),
            Shade::Linear { from, to, stops } => ShadeView::Linear { from, to, stops: stops@ },
            Shade::Radial { center, radius, stops } => ShadeView::Radial {
                center,
                radius,
                stops: stops@,
            },
            Shade::Grain { fill, width, height, at, opacity } => ShadeView::Grain {
                fill,
                width,
                height,
                at,
                opacity,
            },
            Shade::Dots { fill, width, height, at, opacity } => ShadeView::Dots {
                fill,
                width,
                height,
                at,
                opacity,
            },
            Shade::Tiles { encoded, tile_width, at, opacity } => ShadeView::Tiles {
                encoded: encoded@,
                tile_width,
                at,
                opacity,
            },
        }
    }
}

/// The stops of a gradient with an opacity, their offsets held to `0..=1`.
pub open spec fn faded_stops<S: Scalar>(stops: Seq<GradientStop<S>>, opacity: S) -> Seq<
    GradientStop<S>,
> {
    Seq::new(
        stops.len(),
        |i: int|
            GradientStop {
                offset: spec_clamped(
                    stops[i].offset,
                    S::spec_ratio(0, 1),
                    S::spec_ratio(1, 1),
                ),
                color: faded(stops[i].color, opacity),
            },
    )
}

fn fade_stops<S: Scalar>(stops: &Vec<GradientStop<S>>, opacity: S) -> (r: Vec<GradientStop<S>>)
    ensures
        r@ == faded_stops(stops@, opacity),
{
    let mut r: Vec<GradientStop<S>> = Vec::new();
    let mut i: usize = 0;
    while i < stops.len()
        invariant
            i <= stops.len(),
            r@ == faded_stops(stops@, opacity).take(i as int),
        decreases stops.len() - i,
    {
        r.push(
            GradientStop {
                offset: clamped(stops[i].offset, S::ratio(0, 1), S::ratio(1, 1)),
                color: with_opacity(stops[i].color, opacity),
            },
        );
        i += 1;
        assert(r@ =~= faded_stops(stops@, opacity).take(i as int));
    }
    assert(faded_stops(stops@, opacity).take(i as int) =~= faded_stops(stops@, opacity));
    r
}

/// A point given in fractions of a box.
pub open spec fn point_in<S: Scalar>(b: Rect<S>, p: Pos2<S>) -> Pos2<S> {
    let least = S::spec_ratio(1, 1000);
    Pos2 {
        x: b.min.x.spec_plus(p.x.spec_times(b.spec_width().spec_greater(least))),
        y: b.min.y.spec_plus(p.y.spec_times(b.spec_height().spec_greater(least))),
    }
}

fn place_in<S: Scalar>(b: Rect<S>, p: Pos2<S>) -> (r: Pos2<S>)
    ensures
        r == point_in(b, p),
{
    let least = S::ratio(1, 1000);
    Pos2 {
        x: b.min.x.plus(p.x.times(b.width().greater(least))),
        y: b.min.y.plus(p.y.times(b.height().greater(least))),
    }
}

/// The radius of a radial gradient from its centre to the point at its edge.
pub open spec fn reach<S: Scalar>(center: Pos2<S>, edge: Pos2<S>) -> S {
    let dx = edge.x.spec_minus(center.x);
    let dy = edge.y.spec_minus(center.y);
    dx.spec_times(dx).spec_plus(dy.spec_times(dy)).spec_root().spec_greater(S::spec_ratio(1, 100))
}

/// A paint laid over the upright bounds of a shape.
pub open spec fn shade<S: Scalar>(paint: PaintView<S>, bounds: Rect<S>, opacity: S) -> ShadeView<S> {
    match paint {
        PaintView::Solid(c) => ShadeView::Flat(faded(c, opacity)),
        PaintView::Gradient { kind, from, to, stops } => match kind {
            GradientKind::Linear => ShadeView::Linear {
                from: point_in(bounds, from),
                to: point_in(bounds, to),
                stops: faded_stops(stops, opacity),
            },
            GradientKind::Radial => ShadeView::Radial {
                center: point_in(bounds, from),
                radius: reach(point_in(bounds, from), point_in(bounds, to)),
                stops: faded_stops(stops, opacity),
            },
        },
        PaintView::Noise(fill) => ShadeView::Grain {
            fill,
            width: pixels(bounds.spec_width()),
            height: pixels(bounds.spec_height()),
            at: bounds.min,
            opacity,
        },
        PaintView::Halftone(fill) => ShadeView::Dots {
            fill,
            width: pixels(bounds.spec_width()),
            height: pixels(bounds.spec_height()),
            at: bounds.min,
            opacity,
        },
        PaintView::Pattern { encoded, tile_width } => ShadeView::Tiles {
            encoded,
            tile_width: tile_width.spec_greater(S::spec_ratio(1, 100)),
            at: bounds.min,
            opacity: spec_clamped(opacity, S::spec_ratio(0, 1), S::spec_ratio(1, 1)),
        },
    }
}

/// A paint laid over the upright bounds of a shape: it turns with the shape when drawn.
pub fn to_sk_paint<S: Scalar>(paint: &Paint<S>, bounds: Rect<S>, opacity: S) -> (r: Shade<S>)
    ensures
        r@ == shade(paint@, bounds, opacity),
{
    match paint {
        Paint::Solid(c) => Shade::Flat(with_opacity(*c, opacity)),
        Paint::Gradient(g) => {
            let stops = fade_stops(&g.stops, opacity);
            let from = place_in(bounds, g.from);
            let to = place_in(bounds, g.to);
            match g.kind {
                GradientKind::Linear => Shade::Linear { from, to, stops },
                GradientKind::Radial => {
                    let dx = to.x.minus(from.x);
                    let dy = to.y.minus(from.y);
                    let radius = dx.times(dx).plus(dy.times(dy)).root().greater(S::ratio(1, 100));
                    Shade::Radial { center: from, radius, stops }
                },
            }
        },
        Paint::Noise(fill) => Shade::Grain {
            fill: *fill,
            width: to_pixels(bounds.width()),
            height: to_pixels(bounds.height()),
            at: bounds.min,
            opacity,
        },
        Paint::Halftone(fill) => Shade::Dots {
            fill: *fill,
            width: to_pixels(bounds.width()),
            height: to_pixels(bounds.height()),
            at: bounds.min,
            opacity,
        },
        Paint::Pattern(p) => Shade::Tiles {
            encoded: copy_vec(&p.encoded),
            tile_width: p.tile_width.greater(S::ratio(1, 100)),
            at: bounds.min,
            opacity: clamped(opacity, S::ratio(0, 1), S::ratio(1, 1)),
        },
    }
}

/// One thing to draw.
#[allow(inconsistent_fields)]
#[derive(Debug, PartialEq)]
pub enum Draw<S> {
    Box { rect: Rect<S>, color: Color32 },
    Fill { outline: Outline<S>, shade: Shade<S>, even_odd: bool, turn: Option<Turn<S>> },
    Stroke { outline: Outline<S>, shade: Shade<S>, width: S, round: bool, turn: Option<Turn<S>> },
    /// The text of a layer, upright.
    Text { layer: LayerId, bounds: Rect<S>, opacity: S },
    /// The text of a layer, drawn for itself in a box of some pixels and then turned.
    TurnedText { layer: LayerId, width: u32, height: u32, bounds: Rect<S>, opacity: S, degrees: S },
    Image { layer: LayerId, bounds: Rect<S>, opacity: S, degrees: S },
    /// The region of a boolean group, whose shape is worked out when it is drawn.
    Region { layer: LayerId, offset: Vec2<S>, opacity: S },
    /// Layers clipped by a mask.
    Masked { mask: LayerId, content: Vec<LayerId>, offset: Vec2<S>, opacity: S, shadows: bool },
    /// One of a layer's shadows, behind it.
    Shadow { layer: LayerId, shadow: Shadow<S>, at: Pos2<S>, opacity: S },
    /// One of a layer's shadows, inside it.
    InnerShadow { layer: LayerId, shadow: Shadow<S>, at: Pos2<S>, opacity: S },
}

#[allow(inconsistent_fields)]
#[verifier::ext_equal]
pub enum DrawView<S> {
    Box { rect: Rect<S>, color: Color32 },
    Fill { outline: OutlineView<S>, shade: ShadeView<S>, even_odd: bool, turn: Option<Turn<S>> },
    Stroke {
        outline: OutlineView<S>,
        shade: ShadeView<S>,
        width: S,
        round: bool,
        turn: Option<Turn<S>>,
    },
    Text { layer: LayerId, bounds: Rect<S>, opacity: S },
    TurnedText { layer: LayerId, width: u32, height: u32, bounds: Rect<S>, opacity: S, degrees: S },
    Image { layer: LayerId, bounds: Rect<S>, opacity: S, degrees: S },
    Region { layer: LayerId, offset: Vec2<S>, opacity: S },
    Masked { mask: LayerId, content: Seq<LayerId>, offset: Vec2<S>, opacity: S, shadows: bool },
    Shadow { layer: LayerId, shadow: Shadow<S>, at: Pos2<S>, opacity: S },
    InnerShadow { layer: LayerId, shadow: Shadow<S>, at: Pos2<S>, opacity: S },
}

impl<S: Scalar> Draw<S> {
    pub open spec fn view(&self) -> DrawView<S> {
        match *self {
            Draw::Box { rect, color } => DrawView::Box { rect, color },
            Draw::Fill { outline, shade, even_odd, turn } => DrawView::Fill {
                outline: outline@,
                shade: shade@,
                even_odd,
                turn,
            },
            Draw::Stroke { outline, shade, width, round, turn } => DrawView::Stroke {
                outline: outline@,
                shade: shade@,
                width,
                round,
                turn,
            },
            Draw::Text { layer, bounds, opacity } => DrawView::Text { layer, bounds, opacity },
            Draw::TurnedText { layer, width, height, bounds, opacity, degrees } =>
                DrawView::TurnedText { layer, width, height, bounds, opacity, degrees },
            Draw::Image { layer, bounds, opacity, degrees } => DrawView::Image {
                layer,
                bounds,
                opacity,
                degrees,
            },
            Draw::Region { layer, offset, opacity } => DrawView::Region { layer, offset, opacity },
            Draw::Masked { mask, content, offset, opacity, shadows } => DrawView::Masked {
                mask,
                content: content@,
                offset,
                opacity,
                shadows,
            },
            Draw::Shadow { layer, shadow, at, opacity } => DrawView::Shadow {
                layer,
                shadow,
                at,
                opacity,
            },
            Draw::InnerShadow { layer, shadow, at, opacity } => DrawView::InnerShadow {
                layer,
                shadow,
                at,
                opacity,
            },
        }
    }
}

pub open spec fn draw_views<S: Scalar>(draws: Seq<Draw<S>>) -> Seq<DrawView<S>> {
    Seq::new(draws.len(), |i: int| draws[i]@)
}

/// Puts one thing at the end of what is to be drawn.
fn put<S: Scalar>(out: &mut Vec<Draw<S>>, d: Draw<S>)
    ensures
        draw_views(final(out)@) == draw_views(old(out)@).push(d@),
{
    out.push(d);
    assert(draw_views(out@) =~= draw_views(old(out)@).push(d@));
}

/// An outline filled and stroked as a style says.
pub open spec fn filled_and_stroked<S: Scalar>(
    outline: OutlineView<S>,
    style: StyleView<S>,
    even_odd: bool,
    bounds: Rect<S>,
    opacity: S,
    turn: Option<Turn<S>>,
) -> Seq<DrawView<S>> {
    (match style.fill {
        Some(p) => seq![
            DrawView::Fill {
                outline,
                shade: shade(p, bounds, opacity.spec_times(style.fill_opacity)),
                even_odd,
                turn,
            },
        ],
        None => Seq::empty(),
    }) + (match style.stroke {
        Some(s) => seq![
            DrawView::Stroke {
                outline,
                shade: shade(s.paint, bounds, opacity.spec_times(style.stroke_opacity)),
                width: s.width,
                round: false,
                turn,
            },
        ],
        None => Seq::empty(),
    })
}

/// Fills and strokes an outline as the style of a layer says; nothing without an outline.
fn fill_and_stroke<S: Scalar>(
    outline: Option<Outline<S>>,
    layer: &Layer<S>,
    even_odd: bool,
    bounds: Rect<S>,
    opacity: S,
    out: &mut Vec<Draw<S>>,
)
    ensures
        draw_views(final(out)@) == draw_views(old(out)@) + (match outline {
            Some(o) => filled_and_stroked(
                o@,
                layer@.style,
                even_odd,
                bounds,
                opacity,
                turn_of(layer@.frame.rotation, bounds),
            ),
            None => Seq::empty(),
        }),
{
    let ghost start = draw_views(out@);
    if let Some(outline) = outline {
        let turn = rotation_transform(layer.frame.rotation, bounds);
        if let Some(fill) = &layer.style.fill {
            let shade = to_sk_paint(fill, bounds, opacity.times(layer.style.fill_opacity));
            put(out, Draw::Fill { outline: outline.duplicate(), shade, even_odd, turn });
        }
        if let Some(stroke) = &layer.style.stroke {
            let shade = to_sk_paint(
                &stroke.paint,
                bounds,
                opacity.times(layer.style.stroke_opacity),
            );
            put(out, Draw::Stroke { outline, shade, width: stroke.width, round: false, turn });
        }
    }
    assert(draw_views(out@) =~= start + (match outline {
        Some(o) => filled_and_stroked(
            o@,
            layer@.style,
            even_odd,
            bounds,
            opacity,
            turn_of(layer@.frame.rotation, bounds),
        ),
        None => Seq::empty(),
    }));
}

/// The steps of a chevron at an end of an arrow.
pub open spec fn chevron<S: Scalar>(tip: Pos2<S>, outward: Vec2<S>, cap: ArrowCap, width: S) -> Seq<
    PathStep<S>,
> {
    match (cap, cap_wings(tip, outward, width)) {
        (ArrowCap::Line, Some((p1, p2))) => seq![
            PathStep::MoveTo(p1),
            PathStep::LineTo(tip),
            PathStep::LineTo(p2),
        ],
        _ => Seq::empty(),
    }
}

fn push_chevron<S: Scalar>(
    tip: Pos2<S>,
    outward: Vec2<S>,
    cap: ArrowCap,
    width: S,
    out: &mut Vec<PathStep<S>>,
)
    ensures
        final(out)@ == old(out)@ + chevron(tip, outward, cap, width),
{
    if let ArrowCap::Line = cap {
        if let Some((p1, p2)) = arrow_cap_wings(tip, outward, width) {
            out.push(PathStep::MoveTo(p1));
            out.push(PathStep::LineTo(tip));
            out.push(PathStep::LineTo(p2));
        }
    }
    assert(out@ =~= old(out)@ + chevron(tip, outward, cap, width));
}

/// The box of the disc at an end of an arrow.
pub open spec fn disc_box<S: Scalar>(tip: Pos2<S>, outward: Vec2<S>, width: S) -> Rect<S> {
    let part = S::spec_ratio(2, 5);
    let size = cap_size(width);
    let dir = if S::spec_ratio(1, 1000).spec_lt(outward.spec_length()) {
        outward.spec_unit()
    } else {
        Vec2::spec_zero()
    };
    let side = size.spec_times(part).spec_times(S::spec_ratio(2, 1));
    Rect::spec_from_center_size(
        tip.spec_minus(dir.spec_scaled(size).spec_scaled(part)),
        Vec2 { x: side, y: side },
    )
}

/// The filled marker at an end of an arrow.
pub open spec fn solid_cap<S: Scalar>(tip: Pos2<S>, outward: Vec2<S>, cap: ArrowCap, width: S) -> Option<
    OutlineView<S>,
> {
    match cap {
        ArrowCap::Triangle => match cap_wings(tip, outward, width) {
            Some((p1, p2)) => ring_outline(seq![tip, p1, p2]),
            None => None,
        },
        ArrowCap::Disc => Some(OutlineView::Oval(disc_box(tip, outward, width))),
        _ => None,
    }
}

fn make_solid_cap<S: Scalar>(tip: Pos2<S>, outward: Vec2<S>, cap: ArrowCap, width: S) -> (r: Option<
    Outline<S>,
>)
    ensures
        outline_view(r) == solid_cap(tip, outward, cap, width),
{
    match cap {
        ArrowCap::Triangle => match arrow_cap_wings(tip, outward, width) {
            Some((p1, p2)) => {
                let ring = vec![tip, p1, p2];
                assert(ring@ =~= seq![tip, p1, p2]);
                polygon_ring_path(&ring)
            },
            None => None,
        },
        ArrowCap::Disc => {
            let part = S::ratio(2, 5);
            let size = arrow_cap_size(width);
            let dir = if S::ratio(1, 1000).is_lt(outward.length()) {
                outward.unit()
            } else {
                Vec2::zero()
            };
            let center = tip.minus(dir.scaled(size).scaled(part));
            let side = size.times(part).times(S::ratio(2, 1));
            Some(Outline::Oval(Rect::from_center_size(center, Vec2 { x: side, y: side })))
        },
        _ => None,
    }
}

/// The filled marker at an end of an arrow, drawn.
pub open spec fn drawn_cap<S: Scalar>(
    tip: Pos2<S>,
    outward: Vec2<S>,
    cap: ArrowCap,
    width: S,
    shade: ShadeView<S>,
    turn: Option<Turn<S>>,
) -> Seq<DrawView<S>> {
    match solid_cap(tip, outward, cap, width) {
        Some(outline) => seq![DrawView::Fill { outline, shade, even_odd: false, turn }],
        None => Seq::empty(),
    }
}

/// A straight layer: its shaft with the chevrons of its ends, then the filled ends.
pub open spec fn drawn_line<S: Scalar>(
    v: LayerView<S>,
    offset: Vec2<S>,
    opacity: S,
    start_cap: ArrowCap,
    end_cap: ArrowCap,
) -> Seq<DrawView<S>> {
    let bounds = v.frame.spec_bounds().spec_translate(offset);
    match v.style.stroke {
        None => Seq::empty(),
        Some(s) => {
            let a = v.frame.spec_start().spec_plus(offset);
            let b = v.frame.spec_end().spec_plus(offset);
            let turn = turn_of(v.frame.rotation, bounds);
            let paint = shade(s.paint, bounds, opacity.spec_times(v.style.stroke_opacity));
            seq![
                DrawView::Stroke {
                    outline: OutlineView::Steps(
                        seq![PathStep::MoveTo(a), PathStep::LineTo(b)] + chevron(
                            a,
                            a.spec_from(b),
                            start_cap,
                            s.width,
                        ) + chevron(b, b.spec_from(a), end_cap, s.width),
                    ),
                    shade: paint,
                    width: s.width.spec_greater(S::spec_ratio(1, 2)),
                    round: true,
                    turn,
                },
            ] + drawn_cap(a, a.spec_from(b), start_cap, s.width, paint, turn) + drawn_cap(
                b,
                b.spec_from(a),
                end_cap,
                s.width,
                paint,
                turn,
            )
        },
    }
}

fn push_cap<S: Scalar>(
    tip: Pos2<S>,
    outward: Vec2<S>,
    cap: ArrowCap,
    width: S,
    shade: Shade<S>,
    turn: Option<Turn<S>>,
    out: &mut Vec<Draw<S>>,
)
    ensures
        draw_views(final(out)@) == draw_views(old(out)@) + drawn_cap(
            tip,
            outward,
            cap,
            width,
            shade@,
            turn,
        ),
{
    if let Some(outline) = make_solid_cap(tip, outward, cap, width) {
        put(out, Draw::Fill { outline, shade, even_odd: false, turn });
    }
    assert(draw_views(out@) =~= draw_views(old(out)@) + drawn_cap(
        tip,
        outward,
        cap,
        width,
        shade@,
        turn,
    ));
}

fn push_line<S: Scalar>(
    layer: &Layer<S>,
    offset: Vec2<S>,
    opacity: S,
    start_cap: ArrowCap,
    end_cap: ArrowCap,
    out: &mut Vec<Draw<S>>,
)
    ensures
        draw_views(final(out)@) == draw_views(old(out)@) + drawn_line(
            layer@,
            offset,
            opacity,
            start_cap,
            end_cap,
        ),
{
    let ghost start = draw_views(out@);
    if let Some(stroke) = &layer.style.stroke {
        let bounds = layer.frame.bounds().translate(offset);
        let a = layer.frame.start().plus(offset);
        let b = layer.frame.end().plus(offset);
        let turn = rotation_transform(layer.frame.rotation, bounds);
        let faint = opacity.times(layer.style.stroke_opacity);
        let mut steps: Vec<PathStep<S>> = vec![PathStep::MoveTo(a), PathStep::LineTo(b)];
        assert(steps@ =~= seq![PathStep::MoveTo(a), PathStep::LineTo(b)]);
        push_chevron(a, a.from(b), start_cap, stroke.width, &mut steps);
        push_chevron(b, b.from(a), end_cap, stroke.width, &mut steps);
        put(
            out,
            Draw::Stroke {
                outline: Outline::Steps(steps),
                shade: to_sk_paint(&stroke.paint, bounds, faint),
                width: stroke.width.greater(S::ratio(1, 2)),
                round: true,
                turn,
            },
        );
        let shade = to_sk_paint(&stroke.paint, bounds, faint);
        push_cap(a, a.from(b), start_cap, stroke.width, shade, turn, out);
        let shade = to_sk_paint(&stroke.paint, bounds, faint);
        push_cap(b, b.from(a), end_cap, stroke.width, shade, turn, out);
    }
    assert(draw_views(out@) =~= start + drawn_line(layer@, offset, opacity, start_cap, end_cap));
}

/// The text of a layer, drawn.
pub open spec fn drawn_text<S: Scalar>(v: LayerView<S>, bounds: Rect<S>, opacity: S) -> DrawView<S> {
    if v.frame.rotation.spec_same(S::spec_ratio(0, 1)) {
        DrawView::Text { layer: v.id, bounds, opacity }
    } else {
        DrawView::TurnedText {
            layer: v.id,
            width: pixels(bounds.spec_width()),
            height: pixels(bounds.spec_height()),
            bounds,
            opacity: spec_clamped(opacity, S::spec_ratio(0, 1), S::spec_ratio(1, 1)),
            degrees: v.frame.rotation,
        }
    }
}

/// Whether a box is too thin for an image: less than a hundredth wide or high.
pub open spec fn is_sliver<S: Scalar>(b: Rect<S>) -> bool {
    let least = S::spec_ratio(1, 100);
    b.spec_width().spec_magnitude().spec_lt(least) || b.spec_height().spec_magnitude().spec_lt(
        least,
    )
}

/// A layer without children, drawn.
pub open spec fn drawn_shape<S: Scalar>(v: LayerView<S>, offset: Vec2<S>, opacity: S) -> Seq<
    DrawView<S>,
> {
    let bounds = v.frame.spec_bounds().spec_translate(offset);
    let turn = turn_of(v.frame.rotation, bounds);
    let two = S::spec_ratio(2, 1);
    let rx = bounds.spec_width().spec_over(two);
    let ry = bounds.spec_height().spec_over(two);
    let inner = offset.spec_plus(v.frame.pos.spec_to_vec2());
    let outlined = |o: Option<OutlineView<S>>, even_odd: bool|
        match o {
            Some(o) => filled_and_stroked(o, v.style, even_odd, bounds, opacity, turn),
            None => Seq::empty(),
        };
    match v.kind {
        KindView::Rectangle { corner_radius } => outlined(
            Some(rounded_outline(bounds, corner_radius)),
            false,
        ),
        KindView::Oval => outlined(Some(OutlineView::Oval(bounds)), false),
        KindView::Star { points, inner_ratio } => outlined(
            ring_outline(star(bounds.spec_center(), rx, ry, points, inner_ratio)),
            false,
        ),
        KindView::Polygon { sides } => outlined(
            ring_outline(regular_polygon(bounds.spec_center(), rx, ry, sides)),
            false,
        ),
        KindView::Line => drawn_line(v, offset, opacity, ArrowCap::Bare, ArrowCap::Bare),
        KindView::Arrow { start_cap, end_cap } => drawn_line(
            v,
            offset,
            opacity,
            start_cap,
            end_cap,
        ),
        KindView::Path { points, closed } => outlined(path_outline(points, closed, inner), false),
        KindView::CompoundPath { polygons } => outlined(compound_outline(polygons, inner), true),
        KindView::BooleanGroup => seq![DrawView::Region { layer: v.id, offset, opacity }],
        KindView::Text { .. } => seq![drawn_text(v, bounds, opacity)],
        KindView::Image { .. } => if is_sliver(bounds) {
            Seq::empty()
        } else {
            seq![DrawView::Image { layer: v.id, bounds, opacity, degrees: v.frame.rotation }]
        },
        _ => Seq::empty(),
    }
}

/// The region of a boolean group once its shape is known.
pub open spec fn drawn_region<S: Scalar>(
    v: LayerView<S>,
    polygons: Seq<PolygonView<S>>,
    offset: Vec2<S>,
    opacity: S,
) -> Seq<DrawView<S>> {
    let bounds = v.frame.spec_bounds().spec_translate(offset);
    match compound_outline(polygons, offset.spec_plus(v.frame.pos.spec_to_vec2())) {
        Some(o) => filled_and_stroked(
            o,
            v.style,
            true,
            bounds,
            opacity,
            turn_of(v.frame.rotation, bounds),
        ),
        None => Seq::empty(),
    }
}

/// Draws the region of a boolean group, given the shape that its children make together.
pub fn draw_region<S: Scalar>(
    layer: &Layer<S>,
    polygons: &Vec<PathPolygon<S>>,
    offset: Vec2<S>,
    opacity: S,
) -> (r: Vec<Draw<S>>)
    ensures
        draw_views(r@) == drawn_region(layer@, polygon_views(polygons@), offset, opacity),
{
    let bounds = layer.frame.bounds().translate(offset);
    let inner = offset.plus(layer.frame.pos.to_vec2());
    let mut out: Vec<Draw<S>> = Vec::new();
    let outline = compound_path_to_sk_path(polygons, inner);
    fill_and_stroke(outline, layer, true, bounds, opacity, &mut out);
    assert(draw_views(out@) =~= drawn_region(layer@, polygon_views(polygons@), offset, opacity));
    out
}

fn push_shape<S: Scalar>(layer: &Layer<S>, offset: Vec2<S>, opacity: S, out: &mut Vec<Draw<S>>)
    ensures
        draw_views(final(out)@) == draw_views(old(out)@) + drawn_shape(layer@, offset, opacity),
{
    let ghost start = draw_views(out@);
    let bounds = layer.frame.bounds().translate(offset);
    let two = S::ratio(2, 1);
    let rx = bounds.width().over(two);
    let ry = bounds.height().over(two);
    let inner = offset.plus(layer.frame.pos.to_vec2());
    match &layer.kind {
        LayerKind::Rectangle { corner_radius } => {
            let outline = rounded_rect_path(bounds, *corner_radius);
            fill_and_stroke(Some(outline), layer, false, bounds, opacity, out);
        },
        LayerKind::Oval => {
            fill_and_stroke(Some(Outline::Oval(bounds)), layer, false, bounds, opacity, out);
        },
        LayerKind::Star { points, inner_ratio } => {
            let ring = star_points(bounds.center(), rx, ry, *points, *inner_ratio);
            fill_and_stroke(polygon_ring_path(&ring), layer, false, bounds, opacity, out);
        },
        LayerKind::Polygon { sides } => {
            let ring = polygon_points(bounds.center(), rx, ry, *sides);
            fill_and_stroke(polygon_ring_path(&ring), layer, false, bounds, opacity, out);
        },
        LayerKind::Line => {
            push_line(layer, offset, opacity, ArrowCap::Bare, ArrowCap::Bare, out);
        },
        LayerKind::Arrow { start_cap, end_cap } => {
            push_line(layer, offset, opacity, *start_cap, *end_cap, out);
        },
        LayerKind::Path { points, closed } => {
            let outline = path_to_sk_path(points, *closed, inner);
            fill_and_stroke(outline, layer, false, bounds, opacity, out);
        },
        LayerKind::CompoundPath { polygons } => {
            let outline = compound_path_to_sk_path(polygons, inner);
            fill_and_stroke(outline, layer, true, bounds, opacity, out);
        },
        LayerKind::BooleanGroup { .. } => {
            put(out, Draw::Region { layer: layer.id, offset, opacity });
        },
        LayerKind::Text { .. } => {
            if layer.frame.rotation.is_same(S::ratio(0, 1)) {
                put(out, Draw::Text { layer: layer.id, bounds, opacity });
            } else {
                put(
                    out,
                    Draw::TurnedText {
                        layer: layer.id,
                        width: to_pixels(bounds.width()),
                        height: to_pixels(bounds.height()),
                        bounds,
                        opacity: clamped(opacity, S::ratio(0, 1), S::ratio(1, 1)),
                        degrees: layer.frame.rotation,
                    },
                );
            }
        },
        LayerKind::Image { .. } => {
            let least = S::ratio(1, 100);
            let thin = bounds.width().magnitude().is_lt(least)
                || bounds.height().magnitude().is_lt(least);
            if !thin {
                put(
                    out,
                    Draw::Image { layer: layer.id, bounds, opacity, degrees: layer.frame.rotation },
                );
            }
        },
        LayerKind::Artboard { .. } | LayerKind::Group { .. } => {},
    }
    assert(draw_views(out@) =~= start + drawn_shape(layer@, offset, opacity));
}

/// The shadows of a layer that lie behind it, drawn.
pub open spec fn drawn_shadows<S: Scalar>(v: LayerView<S>, offset: Vec2<S>, opacity: S) -> Seq<
    DrawView<S>,
> {
    Seq::new(
        v.style.shadows.len(),
        |i: int|
            DrawView::Shadow {
                layer: v.id,
                shadow: v.style.shadows[i],
                at: v.frame.spec_rotated_bounds().min.spec_plus(offset),
                opacity,
            },
    )
}

/// The shadows of a layer that lie inside it, drawn.
pub open spec fn drawn_inner_shadows<S: Scalar>(v: LayerView<S>, offset: Vec2<S>, opacity: S) -> Seq<
    DrawView<S>,
> {
    Seq::new(
        v.style.inner_shadows.len(),
        |i: int|
            DrawView::InnerShadow {
                layer: v.id,
                shadow: v.style.inner_shadows[i],
                at: v.frame.spec_rotated_bounds().min.spec_plus(offset),
                opacity,
            },
    )
}

fn push_shadows<S: Scalar>(
    layer: &Layer<S>,
    inner: bool,
    offset: Vec2<S>,
    opacity: S,
    out: &mut Vec<Draw<S>>,
)
    ensures
        draw_views(final(out)@) == draw_views(old(out)@) + (if inner {
            drawn_inner_shadows(layer@, offset, opacity)
        } else {
            drawn_shadows(layer@, offset, opacity)
        }),
{
    let ghost start = draw_views(out@);
    let ghost all = if inner {
        drawn_inner_shadows(layer@, offset, opacity)
    } else {
        drawn_shadows(layer@, offset, opacity)
    };
    let at = layer.frame.rotated_bounds().min.plus(offset);
    let list = if inner {
        &layer.style.inner_shadows
    } else {
        &layer.style.shadows
    };
    let mut i: usize = 0;
    assert(draw_views(out@) =~= start + all.take(0));
    while i < list.len()
        invariant
            all == (if inner {
                drawn_inner_shadows(layer@, offset, opacity)
            } else {
                drawn_shadows(layer@, offset, opacity)
            }),
            list@ == (if inner {
                layer@.style.inner_shadows
            } else {
                layer@.style.shadows
            }),
            at == layer@.frame.spec_rotated_bounds().min.spec_plus(offset),
            i <= list.len(),
            draw_views(out@) == start + all.take(i as int),
        decreases list.len() - i,
    {
        if inner {
            put(out, Draw::InnerShadow { layer: layer.id, shadow: list[i], at, opacity });
        } else {
            put(out, Draw::Shadow { layer: layer.id, shadow: list[i], at, opacity });
        }
        i += 1;
        assert(draw_views(out@) =~= start + all.take(i as int));
    }
    assert(all.take(i as int) =~= all);
}

/// A layer and what it holds, drawn; with its shadows or without any.
pub open spec fn drawn<S: Scalar>(
    v: LayerView<S>,
    offset: Vec2<S>,
    parent_opacity: S,
    shadows: bool,
) -> Seq<DrawView<S>>
    decreases v, 0nat,
{
    let opacity = parent_opacity.spec_times(v.opacity);
    let none = Seq::<DrawView<S>>::empty();
    let inner = offset.spec_plus(v.frame.pos.spec_to_vec2());
    if !v.visible {
        none
    } else {
        (if shadows {
            drawn_shadows(v, offset, parent_opacity)
        } else {
            none
        }) + (match v.kind {
            KindView::Artboard { background } => seq![
                DrawView::Box {
                    rect: v.frame.spec_bounds().spec_translate(offset),
                    color: faded(background, opacity),
                },
            ] + drawn_until(v.children, inner, opacity, shadows, v.children.len()),
            KindView::Group => drawn_until(v.children, inner, opacity, shadows, v.children.len()),
            _ => drawn_shape(v, offset, opacity),
        }) + (if shadows {
            drawn_inner_shadows(v, offset, parent_opacity)
        } else {
            none
        })
    }
}

/// The first `k` layers of a list, drawn from back to front.
pub open spec fn drawn_until<S: Scalar>(
    s: Seq<LayerView<S>>,
    offset: Vec2<S>,
    opacity: S,
    shadows: bool,
    k: nat,
) -> Seq<DrawView<S>>
    decreases s, k,
{
    if k == 0 || k > s.len() {
        Seq::empty()
    } else {
        let i = k - 1;
        drawn_until(s, offset, opacity, shadows, (k - 1) as nat) + (match unit(s, i) {
            Unit::Clipped => Seq::empty(),
            Unit::Run { first } => seq![
                DrawView::Masked {
                    mask: s[i].id,
                    content: run_ids(s, first as int, i),
                    offset,
                    opacity,
                    shadows,
                },
            ],
            Unit::Plain => drawn(s[i], offset, opacity, shadows),
        })
    }
}

/// Draws the layers of a list from back to front.
pub fn draw_children<S: Scalar>(
    layers: &Vec<Layer<S>>,
    offset: Vec2<S>,
    opacity: S,
    shadows: bool,
    out: &mut Vec<Draw<S>>,
)
    ensures
        draw_views(final(out)@) == draw_views(old(out)@) + drawn_until(
            views(layers@),
            offset,
            opacity,
            shadows,
            layers@.len(),
        ),
    decreases views(layers@), layers@.len(),
{
    let ghost s = views(layers@);
    let ghost start = draw_views(out@);
    let mut i: usize = 0;
    assert(draw_views(out@) =~= start + drawn_until(s, offset, opacity, shadows, 0));
    while i < layers.len()
        invariant
            s == views(layers@),
            i <= layers.len(),
            draw_views(out@) == start + drawn_until(s, offset, opacity, shadows, i as nat),
        decreases layers.len() - i,
    {
        assert(s[i as int] == layers@[i as int]@);
        match unit_at(layers, i) {
            Unit::Clipped => {},
            Unit::Run { first } => {
                let content = ids_of_run(layers, first, i);
                put(out, Draw::Masked { mask: layers[i].id, content, offset, opacity, shadows });
            },
            Unit::Plain => {
                draw_layer(&layers[i], offset, opacity, shadows, out);
            },
        }
        i += 1;
        assert(draw_views(out@) =~= start + drawn_until(s, offset, opacity, shadows, i as nat));
    }
}

/// Draws a layer and what it holds; with shadows, those behind it come first and those inside it
/// last. A hidden layer draws nothing.
pub fn draw_layer<S: Scalar>(
    layer: &Layer<S>,
    offset: Vec2<S>,
    parent_opacity: S,
    shadows: bool,
    out: &mut Vec<Draw<S>>,
)
    ensures
        draw_views(final(out)@) == draw_views(old(out)@) + drawn(
            layer@,
            offset,
            parent_opacity,
            shadows,
        ),
    decreases layer@, 0nat,
{
    let ghost start = draw_views(out@);
    if !layer.visible {
        assert(draw_views(out@) =~= start + drawn(layer@, offset, parent_opacity, shadows));
        return;
    }
    let opacity = parent_opacity.times(layer.opacity);
    let inner = offset.plus(layer.frame.pos.to_vec2());
    if shadows {
        push_shadows(layer, false, offset, parent_opacity, out);
    }
    match &layer.kind {
        LayerKind::Artboard { children, background } => {
            let rect = layer.frame.bounds().translate(offset);
            put(out, Draw::Box { rect, color: with_opacity(*background, opacity) });
            assert(views(children@) == layer@.children);
            draw_children(children, inner, opacity, shadows, out);
        },
        LayerKind::Group { children } => {
            assert(views(children@) == layer@.children);
            draw_children(children, inner, opacity, shadows, out);
        },
        _ => {
            push_shape(layer, offset, opacity, out);
        },
    }
    if shadows {
        push_shadows(layer, true, offset, parent_opacity, out);
    }
    assert(draw_views(out@) =~= start + drawn(layer@, offset, parent_opacity, shadows));
}

/// A pixmap and what is drawn into it.
#[derive(Debug, PartialEq)]
pub struct Picture<S> {
    pub width: u32,
    pub height: u32,
    pub draws: Vec<Draw<S>>,
}

/// How far shadows reach beyond the shape that casts them.
pub open spec fn shadow_reach<S: Scalar>(shadows: Seq<Shadow<S>>, k: nat) -> S
    decreases k,
{
    if k == 0 {
        S::spec_ratio(0, 1)
    } else {
        let s = shadows[k - 1];
        shadow_reach(shadows, (k - 1) as nat).spec_greater(
            s.offset.x.spec_magnitude().spec_greater(s.offset.y.spec_magnitude()).spec_plus(
                s.blur.spec_times(S::spec_ratio(2, 1)),
            ).spec_plus(s.spread.spec_greater(S::spec_ratio(0, 1))),
        )
    }
}

/// How far shadows reach beyond the shape that casts them.
pub fn outer_shadow_extent<S: Scalar>(shadows: &Vec<Shadow<S>>) -> (r: S)
    ensures
        r == shadow_reach(shadows@, shadows@.len()),
{
    let mut r = S::ratio(0, 1);
    let mut k: usize = 0;
    while k < shadows.len()
        invariant
            k <= shadows.len(),
            r == shadow_reach(shadows@, k as nat),
        decreases shadows.len() - k,
    {
        let s = shadows[k];
        let far = s.offset.x.magnitude().greater(s.offset.y.magnitude());
        r = r.greater(
            far.plus(s.blur.times(S::ratio(2, 1))).plus(s.spread.greater(S::ratio(0, 1))),
        );
        k += 1;
    }
    r
}

/// The picture of a layer alone: as large as the upright box around it, and larger by what its
/// shadows need.
pub fn render_layer<S: Scalar>(layer: &Layer<S>) -> (r: Picture<S>)
    ensures
        ({
            let b = layer@.frame.spec_rotated_bounds();
            let pad = shadow_reach(layer@.style.shadows, layer@.style.shadows.len());
            let twice = S::spec_ratio(2, 1).spec_times(pad);
            &&& r.width == pixels(b.spec_width().spec_plus(twice))
            &&& r.height == pixels(b.spec_height().spec_plus(twice))
            &&& draw_views(r.draws@) == drawn(
                layer@,
                Vec2 {
                    x: b.min.x.spec_negated().spec_plus(pad),
                    y: b.min.y.spec_negated().spec_plus(pad),
                },
                S::spec_ratio(1, 1),
                true,
            )
        }),
{
    let b = layer.frame.rotated_bounds();
    let pad = outer_shadow_extent(&layer.style.shadows);
    let twice = S::ratio(2, 1).times(pad);
    let offset = Vec2 { x: b.min.x.negated().plus(pad), y: b.min.y.negated().plus(pad) };
    let mut draws: Vec<Draw<S>> = Vec::new();
    draw_layer(layer, offset, S::ratio(1, 1), true, &mut draws);
    assert(draw_views(draws@) =~= drawn(layer@, offset, S::spec_ratio(1, 1), true));
    Picture {
        width: to_pixels(b.width().plus(twice)),
        height: to_pixels(b.height().plus(twice)),
        draws,
    }
}

/// The picture of a layer alone without any shadow: what its shadows are cast from.
pub fn render_layer_plain<S: Scalar>(layer: &Layer<S>) -> (r: Picture<S>)
    ensures
        ({
            let b = layer@.frame.spec_rotated_bounds();
            &&& r.width == pixels(b.spec_width())
            &&& r.height == pixels(b.spec_height())
            &&& draw_views(r.draws@) == drawn(
                layer@,
                Vec2 { x: b.min.x.spec_negated(), y: b.min.y.spec_negated() },
                S::spec_ratio(1, 1),
                false,
            )
        }),
{
    let b = layer.frame.rotated_bounds();
    let offset = Vec2 { x: b.min.x.negated(), y: b.min.y.negated() };
    let mut draws: Vec<Draw<S>> = Vec::new();
    draw_layer(layer, offset, S::ratio(1, 1), false, &mut draws);
    assert(draw_views(draws@) =~= drawn(layer@, offset, S::spec_ratio(1, 1), false));
    Picture { width: to_pixels(b.width()), height: to_pixels(b.height()), draws }
}

/// A hidden layer leaves no mark.
pub proof fn law_hidden_layers_draw_nothing<S: Scalar>(
    v: LayerView<S>,
    offset: Vec2<S>,
    opacity: S,
    shadows: bool,
)
    requires
        !v.visible,
    ensures
        drawn(v, offset, opacity, shadows).len() == 0,
{
}

/// Whatever a layer holds, without shadows nothing that is drawn is a shadow.
pub proof fn law_plain_pictures_have_no_shadows<S: Scalar>(
    v: LayerView<S>,
    offset: Vec2<S>,
    opacity: S,
    i: int,
)
    requires
        0 <= i < drawn(v, offset, opacity, false).len(),
    ensures
        !(drawn(v, offset, opacity, false)[i] is Shadow),
        !(drawn(v, offset, opacity, false)[i] is InnerShadow),
    decreases v, 0nat,
{
    let d = drawn(v, offset, opacity, false);
    let o = opacity.spec_times(v.opacity);
    let inner = offset.spec_plus(v.frame.pos.spec_to_vec2());
    let none = Seq::<DrawView<S>>::empty();
    if v.visible {
        match v.kind {
            KindView::Artboard { .. } => {
                let rest = drawn_until(v.children, inner, o, false, v.children.len());
                assert(d =~= seq![d[0]] + rest);
                if i > 0 {
                    lemma_plain_list(v.children, inner, o, v.children.len(), i - 1);
                }
            },
            KindView::Group => {
                let rest = drawn_until(v.children, inner, o, false, v.children.len());
                assert(d =~= rest);
                lemma_plain_list(v.children, inner, o, v.children.len(), i);
            },
            _ => {
                assert(d =~= drawn_shape(v, offset, o));
            },
        }
    }
}

/// Without shadows nothing that a list draws is a shadow.
proof fn lemma_plain_list<S: Scalar>(
    s: Seq<LayerView<S>>,
    offset: Vec2<S>,
    opacity: S,
    k: nat,
    i: int,
)
    requires
        k <= s.len(),
        0 <= i < drawn_until(s, offset, opacity, false, k).len(),
    ensures
        !(drawn_until(s, offset, opacity, false, k)[i] is Shadow),
        !(drawn_until(s, offset, opacity, false, k)[i] is InnerShadow),
    decreases s, k,
{
    if k > 0 {
        let before = drawn_until(s, offset, opacity, false, (k - 1) as nat);
        if i < before.len() {
            lemma_plain_list(s, offset, opacity, (k - 1) as nat, i);
        } else if unit(s, k - 1) == Unit::Plain {
            law_plain_pictures_have_no_shadows(s[k - 1], offset, opacity, i - before.len());
        }
    }
}

} // verus!
