//! Drawing layers on the screen: what is painted where, in which order and with which brush.
use vstd::prelude::*;

use crate::color::{faded, with_opacity, Color32};
use crate::geometry::{Pos2, Rect, Vec2};
use crate::model::{group_views, ring_views, Layer, LayerId, LayerView, PolygonView};
use crate::path_edit::{next_index, segment_count};
use crate::scalar::Scalar;
use crate::shading::{flat_color, gradient_color_at_screen_point, gradient_on_screen, Ground};
use crate::style::{Gradient, Paint, PaintView, StyleView};

verus! {

broadcast use group_views;

/// Where the layers of a list are on the screen.
#[derive(Debug, PartialEq)]
pub struct Place<S> {
    pub origin: Pos2<S>,
    pub pan: Vec2<S>,
    pub zoom: S,
    /// Where their parent stands on the page.
    pub offset: Vec2<S>,
}

impl<S: Scalar> Clone for Place<S> {
    fn clone(&self) -> (r: Self)
        ensures
            r == *self,
    {
        *self
    }
}

impl<S: Scalar> Copy for Place<S> {

}

impl<S: Scalar> Place<S> {
    pub open spec fn spec_at(self, p: Pos2<S>) -> Pos2<S> {
        self.origin.spec_plus(self.pan).spec_plus(
            p.spec_to_vec2().spec_plus(self.offset).spec_scaled(self.zoom),
        )
    }

    /// A point of the parent on the screen.
    pub fn at(self, p: Pos2<S>) -> (r: Pos2<S>)
        ensures
            r == self.spec_at(p),
    {
        self.origin.plus(self.pan).plus(p.to_vec2().plus(self.offset).scaled(self.zoom))
    }

    pub open spec fn spec_rect(self, r: Rect<S>) -> Rect<S> {
        Rect::spec_from_two_pos(self.spec_at(r.min), self.spec_at(r.max))
    }

    /// A box of the parent on the screen.
    pub fn rect(self, b: Rect<S>) -> (r: Rect<S>)
        ensures
            r == self.spec_rect(b),
    {
        Rect::from_two_pos(self.at(b.min), self.at(b.max))
    }

    pub open spec fn spec_inside(self, pos: Pos2<S>) -> Self {
        Place { offset: self.offset.spec_plus(pos.spec_to_vec2()), ..self }
    }

    /// Where the layers are that a layer at `pos` holds.
    pub fn inside(self, pos: Pos2<S>) -> (r: Self)
        ensures
            r == self.spec_inside(pos),
    {
        Place {
            origin: self.origin,
            pan: self.pan,
            zoom: self.zoom,
            offset: self.offset.plus(pos.to_vec2()),
        }
    }
}

/// What an area is filled with.
#[derive(Debug, PartialEq)]
pub enum Brush<S> {
    Flat(Color32),
    /// The gradient of the layer's fill.
    Gradient { opacity: S },
    /// The texture of the layer's fill.
    Texture { tint: Color32 },
}

impl<S: Scalar> Clone for Brush<S> {
    fn clone(&self) -> (r: Self)
        ensures
            r == *self,
    {
        *self
    }
}

impl<S: Scalar> Copy for Brush<S> {

}

/// A line's width and colour.
#[derive(Debug, PartialEq)]
pub struct Pen<S> {
    pub width: S,
    pub color: Color32,
}

impl<S: Scalar> Clone for Pen<S> {
    fn clone(&self) -> (r: Self)
        ensures
            r == *self,
    {
        *self
    }
}

impl<S: Scalar> Copy for Pen<S> {

}

/// One thing to paint.
#[allow(inconsistent_fields)]
#[derive(Debug, PartialEq)]
pub enum Paintwork<S> {
    /// The shadows of a layer: behind it, or inside it.
    Shadows { layer: LayerId, inner: bool, place: Place<S>, tint: Color32 },
    /// The ground of an artboard with its edge and its name.
    Sheet { layer: LayerId, rect: Rect<S>, ground: Color32, edge: Color32, label: Pos2<S> },
    /// A box with rounded corners, their radii clockwise from the top left.
    RoundBox { rect: Rect<S>, radii: (u8, u8, u8, u8), fill: Color32, pen: Pen<S> },
    /// An area with holes.
    Area {
        layer: LayerId,
        exterior: Vec<Pos2<S>>,
        holes: Vec<Vec<Pos2<S>>>,
        brush: Brush<S>,
        ground: Ground<S>,
    },
    /// A line through points.
    Line { points: Vec<Pos2<S>>, closed: bool, pen: Pen<S> },
    Segment { a: Pos2<S>, b: Pos2<S>, pen: Pen<S> },
    Wedge { points: (Pos2<S>, Pos2<S>, Pos2<S>), color: Color32 },
    Disc { center: Pos2<S>, radius: S, color: Color32 },
    /// The region of a boolean group, whose shape is worked out when it is painted.
    Region { layer: LayerId, place: Place<S>, opacity: S },
    /// Layers clipped by a mask.
    Masked { mask: LayerId, content: Vec<LayerId>, place: Place<S>, tint: Color32 },
    /// A text, wrapped at a width and clipped to a box where those are given.
    Text {
        layer: LayerId,
        place: Place<S>,
        color: Color32,
        wrap: Option<S>,
        clip: Option<Rect<S>>,
    },
    /// An upright image.
    Image { layer: LayerId, rect: Rect<S>, tint: Color32 },
    /// A turned image, by its corners clockwise from the top left.
    TurnedImage { layer: LayerId, rect: Rect<S>, degrees: S, tint: Color32 },
}

#[allow(inconsistent_fields)]
#[verifier::ext_equal]
pub enum PaintworkView<S> {
    Shadows { layer: LayerId, inner: bool, place: Place<S>, tint: Color32 },
    Sheet { layer: LayerId, rect: Rect<S>, ground: Color32, edge: Color32, label: Pos2<S> },
    RoundBox { rect: Rect<S>, radii: (u8, u8, u8, u8), fill: Color32, pen: Pen<S> },
    Area { layer: LayerId, shape: PolygonView<S>, brush: Brush<S>, ground: Ground<S> },
    Line { points: Seq<Pos2<S>>, closed: bool, pen: Pen<S> },
    Segment { a: Pos2<S>, b: Pos2<S>, pen: Pen<S> },
    Wedge { points: (Pos2<S>, Pos2<S>, Pos2<S>), color: Color32 },
    Disc { center: Pos2<S>, radius: S, color: Color32 },
    Region { layer: LayerId, place: Place<S>, opacity: S },
    Masked { mask: LayerId, content: Seq<LayerId>, place: Place<S>, tint: Color32 },
    Text {
        layer: LayerId,
        place: Place<S>,
        color: Color32,
        wrap: Option<S>,
        clip: Option<Rect<S>>,
    },
    Image { layer: LayerId, rect: Rect<S>, tint: Color32 },
    TurnedImage { layer: LayerId, rect: Rect<S>, degrees: S, tint: Color32 },
}

impl<S: Scalar> Paintwork<S> {
    pub open spec fn view(&self) -> PaintworkView<S> {
        match *self {
            Paintwork::Shadows { layer, inner, place, tint } => PaintworkView::Shadows {
                layer,
                inner,
                place,
                tint,
            },
            Paintwork::Sheet { layer, rect, ground, edge, label } => PaintworkView::Sheet {
                layer,
                rect,
                ground,
                edge,
                label,
            },
            Paintwork::RoundBox { rect, radii, fill, pen } => PaintworkView::RoundBox {
                rect,
                radii,
                fill,
                pen,
            },
            Paintwork::Area { layer, exterior, holes, brush, ground } => PaintworkView::Area {
                layer,
                shape: PolygonView { exterior: exterior@, holes: ring_views(holes@) },
                brush,
                ground,
            },
            Paintwork::Line { points, closed, pen } => PaintworkView::Line {
                points: points@,
                closed,
                pen,
            },
            Paintwork::Segment { a, b, pen } => PaintworkView::Segment { a, b, pen },
            Paintwork::Wedge { points, color } => PaintworkView::Wedge { points, color },
            Paintwork::Disc { center, radius, color } => PaintworkView::Disc { center, radius, color },
            Paintwork::Region { layer, place, opacity } => PaintworkView::Region {
                layer,
                place,
                opacity,
            },
            Paintwork::Masked { mask, content, place, tint } => PaintworkView::Masked {
                mask,
                content: content@,
                place,
                tint,
            },
            Paintwork::Text { layer, place, color, wrap, clip } => PaintworkView::Text {
                layer,
                place,
                color,
                wrap,
                clip,
            },
            Paintwork::Image { layer, rect, tint } => PaintworkView::Image { layer, rect, tint },
            Paintwork::TurnedImage { layer, rect, degrees, tint } => PaintworkView::TurnedImage {
                layer,
                rect,
                degrees,
                tint,
            },
        }
    }
}

pub open spec fn paintwork_views<S: Scalar>(strokes: Seq<Paintwork<S>>) -> Seq<PaintworkView<S>> {
    Seq::new(strokes.len(), |i: int| strokes[i]@)
}

/// Puts one thing at the end of what is to be painted.
pub fn put<S: Scalar>(out: &mut Vec<Paintwork<S>>, d: Paintwork<S>)
    ensures
        paintwork_views(final(out)@) == paintwork_views(old(out)@).push(d@),
{
    out.push(d);
    assert(paintwork_views(out@) =~= paintwork_views(old(out)@).push(d@));
}

/// The flat colour of a layer's fill.
pub open spec fn flat_fill<S: Scalar>(style: StyleView<S>, opacity: S) -> Color32 {
    faded(
        match style.fill {
            Some(p) => flat_color(p),
            None => Color32::spec_transparent(),
        },
        opacity.spec_times(style.fill_opacity),
    )
}

pub fn fill_color<S: Scalar>(layer: &Layer<S>, opacity: S) -> (r: Color32)
    ensures
        r == flat_fill(layer@.style, opacity),
{
    let c = match &layer.style.fill {
        Some(p) => p.to_color32(),
        None => Color32::transparent(),
    };
    with_opacity(c, opacity.times(layer.style.fill_opacity))
}

/// The flat pen of a layer's stroke; one that draws nothing without a stroke.
pub open spec fn flat_pen<S: Scalar>(style: StyleView<S>, zoom: S, opacity: S) -> Pen<S> {
    match style.stroke {
        Some(s) => Pen {
            width: s.width.spec_times(zoom),
            color: faded(flat_color(s.paint), opacity.spec_times(style.stroke_opacity)),
        },
        None => Pen { width: S::spec_ratio(0, 1), color: Color32::spec_transparent() },
    }
}

pub fn pen_of<S: Scalar>(layer: &Layer<S>, zoom: S, opacity: S) -> (r: Pen<S>)
    ensures
        r == flat_pen(layer@.style, zoom, opacity),
{
    match &layer.style.stroke {
        Some(s) => Pen {
            width: s.width.times(zoom),
            color: with_opacity(s.paint.to_color32(), opacity.times(layer.style.stroke_opacity)),
        },
        None => Pen { width: S::ratio(0, 1), color: Color32::transparent() },
    }
}

/// How many straight pieces stand for one edge of a gradient stroke.
pub const GRADIENT_STROKE_SEGMENTS_PER_EDGE: usize = 10;

/// The `k`-th piece of the edge from `a` to `b`.
pub open spec fn edge_piece<S: Scalar>(
    a: Pos2<S>,
    b: Pos2<S>,
    gradient: PaintView<S>,
    ground: Ground<S>,
    width: S,
    opacity: S,
    k: int,
) -> PaintworkView<S> {
    let n = S::spec_ratio(10, 1);
    let t0 = S::spec_ratio(k, 1).spec_over(n);
    let t1 = S::spec_ratio(k + 1, 1).spec_over(n);
    let along = b.spec_from(a);
    let mid = a.spec_plus(
        along.spec_scaled(t0.spec_plus(t1).spec_times(S::spec_ratio(1, 2))),
    );
    PaintworkView::Segment {
        a: a.spec_plus(along.spec_scaled(t0)),
        b: a.spec_plus(along.spec_scaled(t1)),
        pen: Pen {
            width,
            color: match gradient {
                PaintView::Gradient { kind, from, to, stops } => gradient_on_screen(
                    kind,
                    from,
                    to,
                    stops,
                    mid,
                    ground,
                    opacity,
                ),
                _ => Color32::spec_transparent(),
            },
        },
    }
}

/// The pieces of the first `k` edges of a line.
pub open spec fn edge_pieces<S: Scalar>(
    points: Seq<Pos2<S>>,
    gradient: PaintView<S>,
    ground: Ground<S>,
    width: S,
    opacity: S,
    k: nat,
) -> Seq<PaintworkView<S>>
    decreases k,
{
    if k == 0 {
        Seq::empty()
    } else {
        let i = k - 1;
        edge_pieces(points, gradient, ground, width, opacity, (k - 1) as nat) + Seq::new(
            10,
            |p: int|
                edge_piece(
                    points[i],
                    points[next_index(i, points.len() as int)],
                    gradient,
                    ground,
                    width,
                    opacity,
                    p,
                ),
        )
    }
}

/// A line with the colours of a gradient, in short straight pieces.
pub open spec fn gradient_line<S: Scalar>(
    points: Seq<Pos2<S>>,
    closed: bool,
    gradient: PaintView<S>,
    ground: Ground<S>,
    width: S,
    opacity: S,
) -> Seq<PaintworkView<S>> {
    if points.len() < 2 || width.spec_le(S::spec_ratio(0, 1)) {
        Seq::empty()
    } else {
        edge_pieces(
            points,
            gradient,
            ground,
            width,
            opacity,
            segment_count(points.len() as int, closed) as nat,
        )
    }
}

/// The view of a gradient as a paint.
pub open spec fn gradient_paint<S: Scalar>(g: Gradient<S>) -> PaintView<S> {
    PaintView::Gradient { kind: g.kind, from: g.from, to: g.to, stops: g.stops@ }
}

/// Paints a line with the colours of a gradient, in short straight pieces.
#[verifier::rlimit(50)]
pub fn paint_gradient_stroke<S: Scalar>(
    points: &Vec<Pos2<S>>,
    closed: bool,
    gradient: &Gradient<S>,
    ground: Ground<S>,
    width: S,
    opacity: S,
    out: &mut Vec<Paintwork<S>>,
)
    ensures
        paintwork_views(final(out)@) == paintwork_views(old(out)@) + gradient_line(
            points@,
            closed,
            gradient_paint(*gradient),
            ground,
            width,
            opacity,
        ),
{
    let ghost start = paintwork_views(out@);
    let ghost g = gradient_paint(*gradient);
    let n = points.len();
    if n < 2 || width.is_le(S::ratio(0, 1)) {
        assert(paintwork_views(out@) =~= start + Seq::<PaintworkView<S>>::empty());
        return;
    }
    let count = if closed {
        n
    } else {
        n - 1
    };
    let parts = S::ratio(10, 1);
    let mut i: usize = 0;
    assert(paintwork_views(out@) =~= start + edge_pieces(points@, g, ground, width, opacity, 0));
    while i < count
        invariant
            g == gradient_paint(*gradient),
            parts == S::spec_ratio(10, 1),
            n == points.len(),
            n >= 2,
            count == segment_count(n as int, closed),
            count <= n,
            i <= count,
            paintwork_views(out@) == start + edge_pieces(
                points@,
                g,
                ground,
                width,
                opacity,
                i as nat,
            ),
        decreases count - i,
    {
        let a = points[i];
        let b = if i + 1 < n {
            points[i + 1]
        } else {
            points[0]
        };
        assert(b == points@[next_index(i as int, n as int)]);
        let along = b.from(a);
        let ghost before = paintwork_views(out@);
        let mut k: usize = 0;
        assert(paintwork_views(out@) =~= before + Seq::new(
            0,
            |p: int| edge_piece(a, b, g, ground, width, opacity, p),
        ));
        while k < GRADIENT_STROKE_SEGMENTS_PER_EDGE
            invariant
                g == gradient_paint(*gradient),
                parts == S::spec_ratio(10, 1),
                along == b.spec_from(a),
                k <= GRADIENT_STROKE_SEGMENTS_PER_EDGE,
                paintwork_views(out@) == before + Seq::new(
                    k as nat,
                    |p: int| edge_piece(a, b, g, ground, width, opacity, p),
                ),
            decreases GRADIENT_STROKE_SEGMENTS_PER_EDGE - k,
        {
            let t0 = S::of_count(k as u64).over(parts);
            let t1 = S::of_count(k as u64 + 1).over(parts);
            let mid = a.plus(along.scaled(t0.plus(t1).times(S::ratio(1, 2))));
            let color = gradient_color_at_screen_point(gradient, mid, ground, opacity);
            put(
                out,
                Paintwork::Segment {
                    a: a.plus(along.scaled(t0)),
                    b: a.plus(along.scaled(t1)),
                    pen: Pen { width, color },
                },
            );
            k += 1;
            assert(paintwork_views(out@) =~= before + Seq::new(
                k as nat,
                |p: int| edge_piece(a, b, g, ground, width, opacity, p),
            ));
        }
        i += 1;
        assert(paintwork_views(out@) =~= start + edge_pieces(
            points@,
            g,
            ground,
            width,
            opacity,
            i as nat,
        ));
    }
}

/// The brush of a fill.
pub open spec fn fill_brush<S: Scalar>(style: StyleView<S>, flat: Color32, opacity: S) -> Option<
    Brush<S>,
> {
    let o = opacity.spec_times(style.fill_opacity);
    match style.fill {
        Some(PaintView::Gradient { .. }) => Some(Brush::Gradient { opacity: o }),
        Some(PaintView::Solid(_)) => Some(Brush::Flat(flat)),
        Some(_) => Some(
            Brush::Texture { tint: faded(Color32 { r: 255, g: 255, b: 255, a: 255 }, o) },
        ),
        None => None,
    }
}

pub fn brush_of<S: Scalar>(layer: &Layer<S>, flat: Color32, opacity: S) -> (r: Option<Brush<S>>)
    ensures
        r == fill_brush(layer@.style, flat, opacity),
{
    let o = opacity.times(layer.style.fill_opacity);
    match &layer.style.fill {
        Some(Paint::Gradient(_)) => Some(Brush::Gradient { opacity: o }),
        Some(Paint::Solid(_)) => Some(Brush::Flat(flat)),
        Some(_) => Some(
            Brush::Texture { tint: with_opacity(Color32 { r: 255, g: 255, b: 255, a: 255 }, o) },
        ),
        None => None,
    }
}

/// A ring stroked as a style says: in pieces for a gradient, else in one line unless its colour
/// hides nothing.
pub open spec fn ring_stroked<S: Scalar>(
    v: LayerView<S>,
    points: Seq<Pos2<S>>,
    closed: bool,
    ground: Ground<S>,
    pen: Pen<S>,
    opacity: S,
) -> Seq<PaintworkView<S>> {
    match v.style.stroke {
        Some(s) => if s.paint is Gradient {
            gradient_line(
                points,
                closed,
                s.paint,
                ground,
                pen.width,
                opacity.spec_times(v.style.stroke_opacity),
            )
        } else if pen.color != Color32::spec_transparent() {
            seq![PaintworkView::Line { points, closed, pen }]
        } else {
            Seq::empty()
        },
        None => Seq::empty(),
    }
}

/// A polygon filled and stroked.
pub open spec fn polygon_painted<S: Scalar>(
    v: LayerView<S>,
    points: Seq<Pos2<S>>,
    closed: bool,
    ground: Ground<S>,
    zoom: S,
    opacity: S,
    hollow: bool,
) -> Seq<PaintworkView<S>> {
    let flat = flat_fill(v.style, opacity);
    let pen = flat_pen(v.style, zoom, opacity);
    (match fill_brush(v.style, flat, opacity) {
        Some(brush) => if !hollow && points.len() >= 3 && brush != Brush::<S>::Flat(
            Color32::spec_transparent(),
        ) {
            seq![
                PaintworkView::Area {
                    layer: v.id,
                    shape: PolygonView { exterior: points, holes: Seq::empty() },
                    brush,
                    ground,
                },
            ]
        } else {
            Seq::empty()
        },
        None => Seq::empty(),
    }) + ring_stroked(v, points, closed, ground, pen, opacity)
}

/// Whether a brush paints anything.
fn paints<S: Scalar>(brush: Brush<S>) -> (r: bool)
    ensures
        r == (brush != Brush::<S>::Flat(Color32::spec_transparent())),
{
    match brush {
        Brush::Flat(c) => c != Color32::transparent(),
        _ => true,
    }
}

/// Paints a polygon as the style of a layer says; a hollow one is only stroked.
pub fn paint_polygon<S: Scalar>(
    layer: &Layer<S>,
    points: Vec<Pos2<S>>,
    closed: bool,
    ground: Ground<S>,
    zoom: S,
    opacity: S,
    hollow: bool,
    out: &mut Vec<Paintwork<S>>,
)
    ensures
        paintwork_views(final(out)@) == paintwork_views(old(out)@) + polygon_painted(
            layer@,
            points@,
            closed,
            ground,
            zoom,
            opacity,
            hollow,
        ),
{
    let ghost start = paintwork_views(out@);
    let flat = fill_color(layer, opacity);
    let pen = pen_of(layer, zoom, opacity);
    if let Some(brush) = brush_of(layer, flat, opacity) {
        if !hollow && points.len() >= 3 && paints(brush) {
            let holes: Vec<Vec<Pos2<S>>> = Vec::new();
            assert(ring_views(holes@) =~= Seq::empty());
            put(
                out,
                Paintwork::Area {
                    layer: layer.id,
                    exterior: crate::style::copy_vec(&points),
                    holes,
                    brush,
                    ground,
                },
            );
        }
    }
    paint_ring(layer, points, closed, ground, pen, opacity, out);
    assert(paintwork_views(out@) =~= start + polygon_painted(
        layer@,
        points@,
        closed,
        ground,
        zoom,
        opacity,
        hollow,
    ));
}

pub fn paint_ring<S: Scalar>(
    layer: &Layer<S>,
    points: Vec<Pos2<S>>,
    closed: bool,
    ground: Ground<S>,
    pen: Pen<S>,
    opacity: S,
    out: &mut Vec<Paintwork<S>>,
)
    ensures
        paintwork_views(final(out)@) == paintwork_views(old(out)@) + ring_stroked(
            layer@,
            points@,
            closed,
            ground,
            pen,
            opacity,
        ),
{
    let ghost start = paintwork_views(out@);
    if let Some(stroke) = &layer.style.stroke {
        if let Paint::Gradient(g) = &stroke.paint {
            let faint = opacity.times(layer.style.stroke_opacity);
            paint_gradient_stroke(&points, closed, g, ground, pen.width, faint, out);
        } else if pen.color != Color32::transparent() {
            put(out, Paintwork::Line { points, closed, pen });
        }
    }
    assert(paintwork_views(out@) =~= start + ring_stroked(
        layer@,
        points@,
        closed,
        ground,
        pen,
        opacity,
    ));
}

/// A ring of a layer on the screen, turned with it.
pub open spec fn ring_on_screen<S: Scalar>(
    ring: Seq<Pos2<S>>,
    pos: Pos2<S>,
    place: Place<S>,
    center: Pos2<S>,
    degrees: S,
) -> Seq<Pos2<S>> {
    Seq::new(
        ring.len(),
        |i: int| place.spec_at(pos.spec_plus(ring[i].spec_to_vec2())).spec_rotated(center, degrees),
    )
}

pub fn put_ring_on_screen<S: Scalar>(
    ring: &Vec<Pos2<S>>,
    pos: Pos2<S>,
    place: Place<S>,
    center: Pos2<S>,
    degrees: S,
) -> (r: Vec<Pos2<S>>)
    ensures
        r@ == ring_on_screen(ring@, pos, place, center, degrees),
{
    let ghost all = ring_on_screen(ring@, pos, place, center, degrees);
    let mut r: Vec<Pos2<S>> = Vec::new();
    let mut i: usize = 0;
    while i < ring.len()
        invariant
            all == ring_on_screen(ring@, pos, place, center, degrees),
            i <= ring.len(),
            r@ == all.take(i as int),
        decreases ring.len() - i,
    {
        r.push(place.at(pos.plus(ring[i].to_vec2())).rotated(center, degrees));
        i += 1;
        assert(r@ =~= all.take(i as int));
    }
    assert(all.take(i as int) =~= all);
    r
}

/// Every piece of a gradient line is a segment.
pub proof fn lemma_pieces_are_segments<S: Scalar>(
    points: Seq<Pos2<S>>,
    gradient: PaintView<S>,
    ground: Ground<S>,
    width: S,
    opacity: S,
    k: nat,
)
    ensures
        forall|i: int|
            0 <= i < edge_pieces(points, gradient, ground, width, opacity, k).len() ==> (
            #[trigger] edge_pieces(points, gradient, ground, width, opacity, k)[i]) is Segment,
    decreases k,
{
    if k > 0 {
        lemma_pieces_are_segments(points, gradient, ground, width, opacity, (k - 1) as nat);
    }
}

} // verus!
