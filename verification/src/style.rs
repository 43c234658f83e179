//! How a layer is painted.
use vstd::prelude::*;

use crate::color::Color32;
use crate::geometry::{Pos2, Vec2};
use crate::scalar::Scalar;

verus! {

/// A copy of a vector of plain values.
pub fn copy_vec<T: Copy>(v: &Vec<T>) -> (r: Vec<T>)
    ensures
        r@ == v@,
{
    let mut r: Vec<T> = Vec::new();
    let mut i: usize = 0;
    while i < v.len()
        invariant
            i <= v.len(),
            r@ == v@.take(i as int),
        decreases v.len() - i,
    {
        r.push(v[i]);
        i += 1;
        assert(v@.take(i as int) =~= v@.take(i - 1).push(v@[i - 1]));
    }
    assert(v@.take(v@.len() as int) =~= v@);
    r
}

#[derive(Clone, Copy, Debug, PartialEq, Eq, Structural)]
pub enum GradientKind {
    Linear,
    Radial,
}

/// A colour at a place along a gradient, `offset` in `0..=1`.
#[derive(Debug, PartialEq)]
pub struct GradientStop<S> {
    pub offset: S,
    pub color: Color32,
}

impl<S: Scalar> Clone for GradientStop<S> {
    fn clone(&self) -> (r: Self)
        ensures
            r == *self,
    {
        *self
    }
}

impl<S: Scalar> Copy for GradientStop<S> {

}

/// A blend between colours; `from` and `to` are fractions of the painted bounds.
#[derive(Debug, PartialEq)]
pub struct Gradient<S> {
    pub kind: GradientKind,
    pub from: Pos2<S>,
    pub to: Pos2<S>,
    pub stops: Vec<GradientStop<S>>,
}

/// A dot grid over a background.
#[derive(Debug, PartialEq)]
pub struct HalftoneFill<S> {
    pub background: Color32,
    pub dot: Color32,
    /// The side of a grid cell.
    pub scale: S,
    /// A dot's radius as a fraction of half a cell.
    pub coverage: S,
}

impl<S: Scalar> Clone for HalftoneFill<S> {
    fn clone(&self) -> (r: Self)
        ensures
            r == *self,
    {
        *self
    }
}

impl<S: Scalar> Copy for HalftoneFill<S> {

}

/// Grain over a base colour.
#[derive(Debug, PartialEq)]
pub struct NoiseFill<S> {
    pub base: Color32,
    pub scale: S,
    pub intensity: S,
    pub seed: u32,
}

impl<S: Scalar> Clone for NoiseFill<S> {
    fn clone(&self) -> (r: Self)
        ensures
            r == *self,
    {
        *self
    }
}

impl<S: Scalar> Copy for NoiseFill<S> {

}

/// An encoded image repeated across the painted bounds.
#[derive(Debug, PartialEq)]
pub struct PatternFill<S> {
    pub encoded: Vec<u8>,
    pub tile_width: S,
}

#[derive(Debug, PartialEq)]
pub enum Paint<S> {
    Solid(Color32),
    Gradient(Gradient<S>),
    Noise(NoiseFill<S>),
    Halftone(HalftoneFill<S>),
    Pattern(PatternFill<S>),
}

#[verifier::ext_equal]
pub enum PaintView<S> {
    Solid(Color32),
    Gradient { kind: GradientKind, from: Pos2<S>, to: Pos2<S>, stops: Seq<GradientStop<S>> },
    Noise(NoiseFill<S>),
    Halftone(HalftoneFill<S>),
    Pattern { encoded: Seq<u8>, tile_width: S },
}

impl<S: Scalar> Paint<S> {
    pub open spec fn view(&self) -> PaintView<S> {
        match *self {
            Paint::Solid(c) => PaintView::Solid(c),
            Paint::Gradient(g) => PaintView::Gradient {
                kind: g.kind,
                from: g.from,
                to: g.to,
                stops: g.stops@,
            },
            Paint::Noise(n) => PaintView::Noise(n),
            Paint::Halftone(h) => PaintView::Halftone(h),
            Paint::Pattern(p) => PaintView::Pattern {
                encoded: p.encoded@,
                tile_width: p.tile_width,
            },
        }
    }

    /// A copy of its own.
    pub fn duplicate(&self) -> (r: Self)
        ensures
            r@ == self@,
    {
        match self {
            Paint::Solid(c) => Paint::Solid(*c),
            Paint::Gradient(g) => Paint::Gradient(
                Gradient { kind: g.kind, from: g.from, to: g.to, stops: copy_vec(&g.stops) },
            ),
            Paint::Noise(n) => Paint::Noise(*n),
            Paint::Halftone(h) => Paint::Halftone(*h),
            Paint::Pattern(p) => Paint::Pattern(
                PatternFill { encoded: copy_vec(&p.encoded), tile_width: p.tile_width },
            ),
        }
    }
}

#[derive(Debug, PartialEq)]
pub struct Stroke<S> {
    pub width: S,
    pub paint: Paint<S>,
}

#[verifier::ext_equal]
pub struct StrokeView<S> {
    pub width: S,
    pub paint: PaintView<S>,
}

/// A blurred copy of a layer's silhouette.
#[derive(Debug, PartialEq)]
pub struct Shadow<S> {
    pub color: Color32,
    pub offset: Vec2<S>,
    pub blur: S,
    pub spread: S,
}

impl<S: Scalar> Clone for Shadow<S> {
    fn clone(&self) -> (r: Self)
        ensures
            r == *self,
    {
        *self
    }
}

impl<S: Scalar> Copy for Shadow<S> {

}

/// Everything about a layer's look that is not its shape.
#[derive(Debug, PartialEq)]
pub struct Style<S> {
    pub fill: Option<Paint<S>>,
    pub stroke: Option<Stroke<S>>,
    pub fill_opacity: S,
    pub stroke_opacity: S,
    pub shadows: Vec<Shadow<S>>,
    pub inner_shadows: Vec<Shadow<S>>,
}

#[verifier::ext_equal]
pub struct StyleView<S> {
    pub fill: Option<PaintView<S>>,
    pub stroke: Option<StrokeView<S>>,
    pub fill_opacity: S,
    pub stroke_opacity: S,
    pub shadows: Seq<Shadow<S>>,
    pub inner_shadows: Seq<Shadow<S>>,
}

impl<S: Scalar> Style<S> {
    pub open spec fn view(&self) -> StyleView<S> {
        StyleView {
            fill: match self.fill {
                Some(p) => Some(p@),
                None => None,
            },
            stroke: match self.stroke {
                Some(s) => Some(StrokeView { width: s.width, paint: s.paint@ }),
                None => None,
            },
            fill_opacity: self.fill_opacity,
            stroke_opacity: self.stroke_opacity,
            shadows: self.shadows@,
            inner_shadows: self.inner_shadows@,
        }
    }

    /// The look of a freshly drawn layer: a light grey fill and nothing else.
    pub open spec fn spec_default() -> StyleView<S> {
        StyleView {
            fill: Some(PaintView::Solid(Color32 { r: 217, g: 217, b: 217, a: 255 })),
            stroke: None,
            fill_opacity: S::spec_ratio(1, 1),
            stroke_opacity: S::spec_ratio(1, 1),
            shadows: Seq::empty(),
            inner_shadows: Seq::empty(),
        }
    }

    /// The look of a freshly drawn layer.
    pub fn standard() -> (r: Self)
        ensures
            r@ == Self::spec_default(),
    {
        Style {
            fill: Some(Paint::Solid(Color32 { r: 217, g: 217, b: 217, a: 255 })),
            stroke: None,
            fill_opacity: S::ratio(1, 1),
            stroke_opacity: S::ratio(1, 1),
            shadows: Vec::new(),
            inner_shadows: Vec::new(),
        }
    }

    /// A copy of its own.
    pub fn duplicate(&self) -> (r: Self)
        ensures
            r@ == self@,
    {
        Style {
            fill: match &self.fill {
                Some(p) => Some(p.duplicate()),
                None => None,
            },
            stroke: match &self.stroke {
                Some(s) => Some(Stroke { width: s.width, paint: s.paint.duplicate() }),
                None => None,
            },
            fill_opacity: self.fill_opacity,
            stroke_opacity: self.stroke_opacity,
            shadows: copy_vec(&self.shadows),
            inner_shadows: copy_vec(&self.inner_shadows),
        }
    }
}

} // verus!
