//! The colour of a paint at a point of what it covers.
use vstd::prelude::*;

use crate::color::{faded, with_opacity, Color32};
use crate::geometry::{Pos2, Rect, Vec2};
use crate::scalar::{clamp_int, clamped, spec_clamped, Scalar};
use crate::style::{Gradient, GradientKind, GradientStop, Paint, PaintView, PatternFill};

verus! {

/// A whole number moved into the range of a channel.
pub fn to_channel(v: i64) -> (r: u8)
    ensures
        r == clamp_int(v as int, 0, 255),
{
    if v < 0 {
        0
    } else if v > 255 {
        255
    } else {
        v as u8
    }
}

/// A channel between two others, at the fraction `f` of the way.
pub open spec fn channel_between<S: Scalar>(a: u8, b: u8, f: S) -> u8 {
    let x = S::spec_ratio(a as int, 1);
    let y = S::spec_ratio(b as int, 1);
    clamp_int(
        clamp_int(
            x.spec_plus(y.spec_minus(x).spec_times(f)).spec_rounded().spec_to_int(),
            i64::MIN as int,
            i64::MAX as int,
        ),
        0,
        255,
    ) as u8
}

pub fn mix_channel<S: Scalar>(a: u8, b: u8, f: S) -> (r: u8)
    ensures
        r == channel_between(a, b, f),
{
    let x = S::of_int(a as i64);
    let y = S::of_int(b as i64);
    to_channel(x.plus(y.minus(x).times(f)).rounded().to_i64())
}

/// A colour between two others, at the fraction `f` of the way.
pub open spec fn color_between<S: Scalar>(a: Color32, b: Color32, f: S) -> Color32 {
    Color32 {
        r: channel_between(a.r, b.r, f),
        g: channel_between(a.g, b.g, f),
        b: channel_between(a.b, b.b, f),
        a: channel_between(a.a, b.a, f),
    }
}

/// A colour between two others, at the fraction `f` of the way.
pub fn mix_colors<S: Scalar>(a: Color32, b: Color32, f: S) -> (r: Color32)
    ensures
        r == color_between(a, b, f),
{
    Color32 {
        r: mix_channel(a.r, b.r, f),
        g: mix_channel(a.g, b.g, f),
        b: mix_channel(a.b, b.b, f),
        a: mix_channel(a.a, b.a, f),
    }
}

/// The colour at `t` among the stops from the `k`-th on, which is not beyond `t`.
pub open spec fn stop_color<S: Scalar>(stops: Seq<GradientStop<S>>, t: S, k: int) -> Color32
    decreases stops.len() - k,
{
    if k < 0 || k + 1 >= stops.len() {
        stops.last().color
    } else {
        let a = stops[k];
        let b = stops[k + 1];
        if t.spec_lt(b.offset) {
            let span = b.offset.spec_minus(a.offset);
            if S::spec_ratio(0, 1).spec_lt(span) {
                color_between(a.color, b.color, t.spec_minus(a.offset).spec_over(span))
            } else {
                b.color
            }
        } else {
            stop_color(stops, t, k + 1)
        }
    }
}

/// The colour of a gradient at a place along it.
pub open spec fn gradient_color<S: Scalar>(stops: Seq<GradientStop<S>>, t: S) -> Color32 {
    let v = spec_clamped(t, S::spec_ratio(0, 1), S::spec_ratio(1, 1));
    if stops.len() == 0 {
        Color32::spec_transparent()
    } else if v.spec_le(stops[0].offset) {
        stops[0].color
    } else {
        stop_color(stops, v, 0)
    }
}

/// How far along a gradient a point is.
pub open spec fn gradient_place<S: Scalar>(
    kind: GradientKind,
    from: Pos2<S>,
    to: Pos2<S>,
    p: Pos2<S>,
) -> S {
    let zero = S::spec_ratio(0, 1);
    let d = to.spec_from(from);
    let v = p.spec_from(from);
    match kind {
        GradientKind::Linear => {
            let span = d.spec_dot(d);
            if zero.spec_lt(span) {
                v.spec_dot(d).spec_over(span)
            } else {
                zero
            }
        },
        GradientKind::Radial => {
            let reach = d.spec_length();
            if zero.spec_lt(reach) {
                v.spec_length().spec_over(reach)
            } else {
                zero
            }
        },
    }
}

impl<S: Scalar> Gradient<S> {
    /// The colour at a place along the gradient.
    pub fn color_at(&self, t: S) -> (r: Color32)
        ensures
            r == gradient_color(self.stops@, t),
    {
        let v = clamped(t, S::ratio(0, 1), S::ratio(1, 1));
        let n = self.stops.len();
        if n == 0 {
            return Color32::transparent();
        }
        if v.is_le(self.stops[0].offset) {
            return self.stops[0].color;
        }
        let mut k: usize = 0;
        while k + 1 < n
            invariant
                n == self.stops.len(),
                0 < n,
                k < n,
                gradient_color(self.stops@, t) == stop_color(self.stops@, v, 0),
                stop_color(self.stops@, v, 0) == stop_color(self.stops@, v, k as int),
            ensures
                stop_color(self.stops@, v, 0) == self.stops@.last().color,
            decreases n - k,
        {
            let a = self.stops[k];
            let b = self.stops[k + 1];
            if v.is_lt(b.offset) {
                let span = b.offset.minus(a.offset);
                if S::ratio(0, 1).is_lt(span) {
                    return mix_colors(a.color, b.color, v.minus(a.offset).over(span));
                }
                return b.color;
            }
            k += 1;
        }
        self.stops[n - 1].color
    }

    /// The colour at a point given in fractions of the painted bounds.
    pub fn sample_normalized(&self, p: Pos2<S>) -> (r: Color32)
        ensures
            r == gradient_color(self.stops@, gradient_place(self.kind, self.from, self.to, p)),
    {
        let zero = S::ratio(0, 1);
        let d = self.to.from(self.from);
        let v = p.from(self.from);
        let t = match self.kind {
            GradientKind::Linear => {
                let span = d.dot(d);
                if zero.is_lt(span) {
                    v.dot(d).over(span)
                } else {
                    zero
                }
            },
            GradientKind::Radial => {
                let reach = d.length();
                if zero.is_lt(reach) {
                    v.length().over(reach)
                } else {
                    zero
                }
            },
        };
        self.color_at(t)
    }
}

/// The one colour that stands for a paint: a gradient's in the middle, a texture's ground.
pub open spec fn flat_color<S: Scalar>(paint: PaintView<S>) -> Color32 {
    match paint {
        PaintView::Solid(c) => c,
        PaintView::Gradient { stops, .. } => gradient_color(stops, S::spec_ratio(1, 2)),
        PaintView::Noise(n) => n.base,
        PaintView::Halftone(h) => h.background,
        PaintView::Pattern { .. } => Color32 { r: 128, g: 128, b: 128, a: 255 },
    }
}

impl<S: Scalar> Paint<S> {
    /// The one colour that stands for the paint.
    pub fn to_color32(&self) -> (r: Color32)
        ensures
            r == flat_color(self@),
    {
        match self {
            Paint::Solid(c) => *c,
            Paint::Gradient(g) => g.color_at(S::ratio(1, 2)),
            Paint::Noise(n) => n.base,
            Paint::Halftone(h) => h.background,
            Paint::Pattern(_) => Color32 { r: 128, g: 128, b: 128, a: 255 },
        }
    }
}

/// Where a paint lies: the upright box of the shape, turned about its centre.
#[derive(Debug, PartialEq)]
pub struct Ground<S> {
    pub rect: Rect<S>,
    pub center: Pos2<S>,
    pub rotation: S,
}

impl<S: Scalar> Clone for Ground<S> {
    fn clone(&self) -> (r: Self)
        ensures
            r == *self,
    {
        *self
    }
}

impl<S: Scalar> Copy for Ground<S> {

}

impl<S: Scalar> Ground<S> {
    /// A point in fractions of the box, with its turn undone.
    pub open spec fn spec_fraction(self, p: Pos2<S>) -> Pos2<S> {
        let least = S::spec_ratio(1, 1000);
        let local = p.spec_rotated(self.center, self.rotation.spec_negated());
        Pos2 {
            x: local.x.spec_minus(self.rect.min.x).spec_over(
                self.rect.spec_width().spec_greater(least),
            ),
            y: local.y.spec_minus(self.rect.min.y).spec_over(
                self.rect.spec_height().spec_greater(least),
            ),
        }
    }

    /// A point in fractions of the box, with its turn undone: where a texture that covers the
    /// shape once is read.
    pub fn fraction(self, p: Pos2<S>) -> (r: Pos2<S>)
        ensures
            r == self.spec_fraction(p),
    {
        let least = S::ratio(1, 1000);
        let local = p.rotated(self.center, self.rotation.negated());
        let w = self.rect.width().greater(least);
        let h = self.rect.height().greater(least);
        Pos2 {
            x: local.x.minus(self.rect.min.x).over(w),
            y: local.y.minus(self.rect.min.y).over(h),
        }
    }
}

/// The colour of a gradient at a point of the screen.
pub open spec fn gradient_on_screen<S: Scalar>(
    kind: GradientKind,
    from: Pos2<S>,
    to: Pos2<S>,
    stops: Seq<GradientStop<S>>,
    p: Pos2<S>,
    ground: Ground<S>,
    opacity: S,
) -> Color32 {
    faded(
        gradient_color(stops, gradient_place(kind, from, to, ground.spec_fraction(p))),
        opacity,
    )
}

/// The colour of a gradient at a point of the screen: the gradient turns with its shape.
pub fn gradient_color_at_screen_point<S: Scalar>(
    gradient: &Gradient<S>,
    p: Pos2<S>,
    ground: Ground<S>,
    opacity: S,
) -> (r: Color32)
    ensures
        r == gradient_on_screen(
            gradient.kind,
            gradient.from,
            gradient.to,
            gradient.stops@,
            p,
            ground,
            opacity,
        ),
{
    with_opacity(gradient.sample_normalized(ground.fraction(p)), opacity)
}

/// Where a repeated image is read for a point of the screen: `aspect` is its height over its
/// width, `size` the size of the shape in the document.
pub open spec fn tile_place<S: Scalar>(
    tile_width: S,
    aspect: S,
    size: Vec2<S>,
    ground: Ground<S>,
    p: Pos2<S>,
) -> Pos2<S> {
    let least = S::spec_ratio(1, 100);
    let w = tile_width.spec_greater(least);
    let h = w.spec_times(aspect).spec_greater(least);
    let f = ground.spec_fraction(p);
    Pos2 {
        x: f.x.spec_times(size.x).spec_over(w),
        y: f.y.spec_times(size.y).spec_over(h),
    }
}

/// Where a repeated image is read for a point of the screen; beyond one, the next tile begins.
pub fn pattern_place<S: Scalar>(
    pattern: &PatternFill<S>,
    aspect: S,
    size: Vec2<S>,
    ground: Ground<S>,
    p: Pos2<S>,
) -> (r: Pos2<S>)
    ensures
        r == tile_place(pattern.tile_width, aspect, size, ground, p),
{
    let least = S::ratio(1, 100);
    let w = pattern.tile_width.greater(least);
    let h = w.times(aspect).greater(least);
    let f = ground.fraction(p);
    Pos2 { x: f.x.times(size.x).over(w), y: f.y.times(size.y).over(h) }
}

} // verus!
