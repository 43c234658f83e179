//! A grid of soft dots over a background, every other row shifted by half a cell.
use vstd::prelude::*;

use crate::color::Color32;
use crate::geometry::Pos2;
use crate::scalar::{clamp_int, clamped, spec_clamped, Scalar};
use crate::shading::{channel_between, mix_channel, to_channel};
use crate::style::HalftoneFill;

verus! {

/// How far the smooth step from `edge0` to `edge1` has risen at `x`.
pub open spec fn smooth<S: Scalar>(edge0: S, edge1: S, x: S) -> S {
    let t = spec_clamped(
        x.spec_minus(edge0).spec_over(edge1.spec_minus(edge0)),
        S::spec_ratio(0, 1),
        S::spec_ratio(1, 1),
    );
    t.spec_times(t).spec_times(S::spec_ratio(3, 1).spec_minus(S::spec_ratio(2, 1).spec_times(t)))
}

/// How far the smooth step from `edge0` to `edge1` has risen at `x`.
pub fn smoothstep<S: Scalar>(edge0: S, edge1: S, x: S) -> (r: S)
    ensures
        r == smooth(edge0, edge1, x),
{
    let t = clamped(x.minus(edge0).over(edge1.minus(edge0)), S::ratio(0, 1), S::ratio(1, 1));
    t.times(t).times(S::ratio(3, 1).minus(S::ratio(2, 1).times(t)))
}

/// The side of a cell.
pub open spec fn cell<S: Scalar>(fill: HalftoneFill<S>) -> S {
    fill.scale.spec_greater(S::spec_ratio(1, 100))
}

/// How far the cells of a row are shifted to the left: half a cell in every other row.
pub open spec fn stagger<S: Scalar>(scale: S, row: S) -> S {
    if clamp_int(row.spec_to_int(), i64::MIN as int, i64::MAX as int) % 2 == 1 {
        scale.spec_times(S::spec_ratio(1, 2))
    } else {
        S::spec_ratio(0, 1)
    }
}

/// The centre of the dot of the cell that a point is in.
pub open spec fn dot_center<S: Scalar>(scale: S, p: Pos2<S>) -> Pos2<S> {
    let half = S::spec_ratio(1, 2);
    let row = p.y.spec_over(scale).spec_floored();
    let shift = stagger(scale, row);
    let column = p.x.spec_plus(shift).spec_over(scale).spec_floored();
    Pos2 {
        x: column.spec_plus(half).spec_times(scale).spec_minus(shift),
        y: row.spec_plus(half).spec_times(scale),
    }
}

/// How much of the dot shows at a point: all inside, nothing outside, less and less at the edge.
pub open spec fn dot_weight<S: Scalar>(fill: HalftoneFill<S>, p: Pos2<S>) -> S {
    let half = S::spec_ratio(1, 2);
    let scale = cell(fill);
    let dist = p.spec_from(dot_center(scale, p)).spec_length();
    let radius = spec_clamped(
        fill.coverage,
        S::spec_ratio(0, 1),
        S::spec_ratio(1, 1),
    ).spec_times(scale).spec_times(half).spec_greater(S::spec_ratio(0, 1));
    let soft = S::spec_ratio(3, 4).spec_times(half);
    S::spec_ratio(1, 1).spec_minus(smooth(radius.spec_minus(soft), radius.spec_plus(soft), dist))
}

/// The colour of the fill at a point of the shape's own box.
pub open spec fn halftone<S: Scalar>(fill: HalftoneFill<S>, p: Pos2<S>, opacity: S) -> Color32 {
    let w = dot_weight(fill, p);
    let a = S::spec_ratio(fill.background.a as int, 1);
    let b = S::spec_ratio(fill.dot.a as int, 1);
    Color32::spec_unmultiplied(
        channel_between(fill.background.r, fill.dot.r, w),
        channel_between(fill.background.g, fill.dot.g, w),
        channel_between(fill.background.b, fill.dot.b, w),
        clamp_int(
            clamp_int(
                a.spec_plus(b.spec_minus(a).spec_times(w)).spec_times(
                    opacity,
                ).spec_rounded().spec_to_int(),
                i64::MIN as int,
                i64::MAX as int,
            ),
            0,
            255,
        ) as u8,
    )
}

/// Whether a whole number is odd.
fn is_odd(n: i64) -> (r: bool)
    ensures
        r == (n as int % 2 == 1),
{
    if n >= 0 {
        n as u64 % 2 == 1
    } else {
        let m: u64 = (-(n + 1)) as u64;
        m % 2 == 0
    }
}

/// The colour of the fill at a point of the shape's own box, with an opacity.
pub fn sample<S: Scalar>(fill: &HalftoneFill<S>, local_point: Pos2<S>, opacity: S) -> (r: Color32)
    ensures
        r == halftone(*fill, local_point, opacity),
{
    let half = S::ratio(1, 2);
    let zero = S::ratio(0, 1);
    let scale = fill.scale.greater(S::ratio(1, 100));
    let row = local_point.y.over(scale).floored();
    let n: i64 = row.to_i64();
    let shift = if is_odd(n) {
        scale.times(half)
    } else {
        zero
    };
    let column = local_point.x.plus(shift).over(scale).floored();
    let center = Pos2 {
        x: column.plus(half).times(scale).minus(shift),
        y: row.plus(half).times(scale),
    };
    let dist = local_point.from(center).length();
    let radius = clamped(fill.coverage, zero, S::ratio(1, 1)).times(scale).times(half).greater(
        zero,
    );
    let soft = S::ratio(3, 4).times(half);
    let w = S::ratio(1, 1).minus(smoothstep(radius.minus(soft), radius.plus(soft), dist));
    let a = S::of_int(fill.background.a as i64);
    let b = S::of_int(fill.dot.a as i64);
    let alpha = to_channel(a.plus(b.minus(a).times(w)).times(opacity).rounded().to_i64());
    Color32::from_rgba_unmultiplied(
        mix_channel(fill.background.r, fill.dot.r, w),
        mix_channel(fill.background.g, fill.dot.g, w),
        mix_channel(fill.background.b, fill.dot.b, w),
        alpha,
    )
}

} // verus!
