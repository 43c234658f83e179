//! Fitting the frame of a text layer to its content.
//!
//! How large a text is when laid out is known only to whoever has the fonts; this module says what
//! to measure and what the answer does to the frame.
use vstd::prelude::*;

use crate::geometry::Vec2;
use crate::model::{group_views, Frame, KindView, Layer, LayerKind, LayerView};
use crate::scalar::Scalar;
use crate::text::TextResize;

verus! {

broadcast use group_views;

/// How a text is to be laid out for measuring.
#[derive(Debug, PartialEq)]
pub enum MeasureAt<S> {
    /// In one line for each paragraph.
    Unwrapped,
    /// Wrapped at a width.
    Width(S),
}

/// How a text layer is to be measured; none where its size does not follow its content.
pub open spec fn to_measure<S: Scalar>(v: LayerView<S>) -> Option<MeasureAt<S>> {
    match v.kind {
        KindView::Text { text } => match text.resize {
            TextResize::Fixed => None,
            TextResize::AutoHeight => Some(MeasureAt::Width(v.frame.size.x.spec_magnitude())),
            TextResize::Auto => Some(MeasureAt::Unwrapped),
        },
        _ => None,
    }
}

/// How a text layer is to be measured; none where its size does not follow its content.
pub fn measure_request<S: Scalar>(layer: &Layer<S>) -> (r: Option<MeasureAt<S>>)
    ensures
        r == to_measure(layer@),
{
    match &layer.kind {
        LayerKind::Text { text } => match text.resize {
            TextResize::Fixed => None,
            TextResize::AutoHeight => Some(MeasureAt::Width(layer.frame.size.x.magnitude())),
            TextResize::Auto => Some(MeasureAt::Unwrapped),
        },
        _ => None,
    }
}

/// A text layer as large as its content, but at least one unit: with automatic height only the
/// height follows, with fixed size nothing does.
pub open spec fn fitted<S: Scalar>(v: LayerView<S>, measured: Vec2<S>) -> LayerView<S> {
    let one = S::spec_ratio(1, 1);
    match to_measure(v) {
        None => v,
        Some(MeasureAt::Width(_)) => LayerView {
            frame: Frame {
                size: Vec2 { x: v.frame.size.x, y: measured.y.spec_greater(one) },
                ..v.frame
            },
            ..v
        },
        Some(MeasureAt::Unwrapped) => LayerView {
            frame: Frame {
                size: Vec2 { x: measured.x.spec_greater(one), y: measured.y.spec_greater(one) },
                ..v.frame
            },
            ..v
        },
    }
}

/// Makes a text layer as large as its content, where its size follows it.
pub fn apply_text_auto_resize<S: Scalar>(layer: &mut Layer<S>, measured: Vec2<S>)
    ensures
        final(layer)@ == fitted(old(layer)@, measured),
{
    let one = S::ratio(1, 1);
    match measure_request(layer) {
        None => {},
        Some(MeasureAt::Width(_)) => {
            layer.frame.size.y = measured.y.greater(one);
        },
        Some(MeasureAt::Unwrapped) => {
            layer.frame.size.y = measured.y.greater(one);
            layer.frame.size.x = measured.x.greater(one);
        },
    }
}

/// A layer of fixed size, or that is no text, keeps its frame whatever is measured.
pub proof fn law_fixed_text_keeps_its_frame<S: Scalar>(v: LayerView<S>, measured: Vec2<S>)
    requires
        !(v.kind is Text) || v.kind->text.resize == TextResize::Fixed,
    ensures
        fitted(v, measured) == v,
{
}

/// Fitting again to the same measure changes nothing.
pub proof fn law_fitting_twice_is_fitting_once<S: Scalar>(v: LayerView<S>, measured: Vec2<S>)
    ensures
        fitted(fitted(v, measured), measured) == fitted(v, measured),
{
}

} // verus!
