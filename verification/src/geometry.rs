//! Points, vectors and axis-aligned rectangles.
use vstd::prelude::*;

use crate::scalar::{Scalar};

verus! {

/// A point of the document plane.
#[derive(Debug, PartialEq)]
pub struct Pos2<S> {
    pub x: S,
    pub y: S,
}

/// A displacement.
#[derive(Debug, PartialEq)]
pub struct Vec2<S> {
    pub x: S,
    pub y: S,
}

/// An axis-aligned rectangle, `min` its top left and `max` its bottom right.
#[derive(Debug, PartialEq)]
pub struct Rect<S> {
    pub min: Pos2<S>,
    pub max: Pos2<S>,
}

impl<S: Scalar> Clone for Pos2<S> {
    fn clone(&self) -> (r: Self)
        ensures
            r == *self,
    {
        *self
    }
}

impl<S: Scalar> Copy for Pos2<S> {

}

impl<S: Scalar> Clone for Vec2<S> {
    fn clone(&self) -> (r: Self)
        ensures
            r == *self,
    {
        *self
    }
}

impl<S: Scalar> Copy for Vec2<S> {

}

impl<S: Scalar> Clone for Rect<S> {
    fn clone(&self) -> (r: Self)
        ensures
            r == *self,
    {
        *self
    }
}

impl<S: Scalar> Copy for Rect<S> {

}

impl<S: Scalar> Vec2<S> {
    pub open spec fn spec_zero() -> Self {
        Vec2 { x: S::spec_ratio(0, 1), y: S::spec_ratio(0, 1) }
    }

    pub open spec fn spec_plus(self, v: Vec2<S>) -> Self {
        Vec2 { x: self.x.spec_plus(v.x), y: self.y.spec_plus(v.y) }
    }

    pub open spec fn spec_scaled(self, k: S) -> Self {
        Vec2 { x: self.x.spec_times(k), y: self.y.spec_times(k) }
    }

    pub open spec fn spec_shrunk(self, k: S) -> Self {
        Vec2 { x: self.x.spec_over(k), y: self.y.spec_over(k) }
    }

    pub open spec fn spec_negated(self) -> Self {
        Vec2 { x: self.x.spec_negated(), y: self.y.spec_negated() }
    }

    pub open spec fn spec_length(self) -> S {
        self.x.spec_hypot(self.y)
    }

    pub open spec fn spec_angle(self) -> S {
        self.y.spec_atan2(self.x)
    }

    pub open spec fn spec_dot(self, v: Vec2<S>) -> S {
        self.x.spec_times(v.x).spec_plus(self.y.spec_times(v.y))
    }

    pub open spec fn spec_unit(self) -> Self {
        if self.spec_length().spec_le(S::spec_ratio(0, 1)) {
            self
        } else {
            self.spec_shrunk(self.spec_length())
        }
    }

    pub fn new(x: S, y: S) -> (r: Self)
        ensures
            r == (Vec2 { x, y }),
    {
        Vec2 { x, y }
    }

    /// The displacement that moves nothing.
    pub fn zero() -> (r: Self)
        ensures
            r == Self::spec_zero(),
    {
        Vec2 { x: S::ratio(0, 1), y: S::ratio(0, 1) }
    }

    pub fn plus(self, v: Vec2<S>) -> (r: Self)
        ensures
            r == self.spec_plus(v),
    {
        Vec2 { x: self.x.plus(v.x), y: self.y.plus(v.y) }
    }

    pub fn scaled(self, k: S) -> (r: Self)
        ensures
            r == self.spec_scaled(k),
    {
        Vec2 { x: self.x.times(k), y: self.y.times(k) }
    }

    /// Both components divided by `k`.
    pub fn shrunk(self, k: S) -> (r: Self)
        ensures
            r == self.spec_shrunk(k),
    {
        Vec2 { x: self.x.over(k), y: self.y.over(k) }
    }

    pub fn negated(self) -> (r: Self)
        ensures
            r == self.spec_negated(),
    {
        Vec2 { x: self.x.negated(), y: self.y.negated() }
    }

    pub fn length(self) -> (r: S)
        ensures
            r == self.spec_length(),
    {
        self.x.hypot(self.y)
    }

    /// The direction, as an angle in radians.
    pub fn angle(self) -> (r: S)
        ensures
            r == self.spec_angle(),
    {
        self.y.atan2(self.x)
    }

    pub fn dot(self, v: Vec2<S>) -> (r: S)
        ensures
            r == self.spec_dot(v),
    {
        self.x.times(v.x).plus(self.y.times(v.y))
    }

    /// The vector scaled to length one; a vector without length is kept.
    pub fn unit(self) -> (r: Self)
        ensures
            r == self.spec_unit(),
    {
        let len = self.length();
        if len.is_le(S::ratio(0, 1)) {
            self
        } else {
            self.shrunk(len)
        }
    }
}

impl<S: Scalar> Pos2<S> {
    pub open spec fn spec_zero() -> Self {
        Pos2 { x: S::spec_ratio(0, 1), y: S::spec_ratio(0, 1) }
    }

    pub open spec fn spec_plus(self, v: Vec2<S>) -> Self {
        Pos2 { x: self.x.spec_plus(v.x), y: self.y.spec_plus(v.y) }
    }

    pub open spec fn spec_minus(self, v: Vec2<S>) -> Self {
        Pos2 { x: self.x.spec_minus(v.x), y: self.y.spec_minus(v.y) }
    }

    pub open spec fn spec_from(self, p: Pos2<S>) -> Vec2<S> {
        Vec2 { x: self.x.spec_minus(p.x), y: self.y.spec_minus(p.y) }
    }

    pub open spec fn spec_to_vec2(self) -> Vec2<S> {
        Vec2 { x: self.x, y: self.y }
    }

    pub open spec fn spec_distance(self, p: Pos2<S>) -> S {
        self.spec_from(p).spec_length()
    }

    /// `self` turned by `degrees` about `center`.
    pub open spec fn spec_rotated(self, center: Pos2<S>, degrees: S) -> Self {
        let d = self.spec_from(center);
        let sin = degrees.spec_sin_deg();
        let cos = degrees.spec_cos_deg();
        Pos2 {
            x: center.x.spec_plus(d.x.spec_times(cos).spec_minus(d.y.spec_times(sin))),
            y: center.y.spec_plus(d.x.spec_times(sin).spec_plus(d.y.spec_times(cos))),
        }
    }

    pub fn new(x: S, y: S) -> (r: Self)
        ensures
            r == (Pos2 { x, y }),
    {
        Pos2 { x, y }
    }

    /// The origin.
    pub fn zero() -> (r: Self)
        ensures
            r == Self::spec_zero(),
    {
        Pos2 { x: S::ratio(0, 1), y: S::ratio(0, 1) }
    }

    pub fn plus(self, v: Vec2<S>) -> (r: Self)
        ensures
            r == self.spec_plus(v),
    {
        Pos2 { x: self.x.plus(v.x), y: self.y.plus(v.y) }
    }

    pub fn minus(self, v: Vec2<S>) -> (r: Self)
        ensures
            r == self.spec_minus(v),
    {
        Pos2 { x: self.x.minus(v.x), y: self.y.minus(v.y) }
    }

    /// The displacement from `p` to `self`.
    pub fn from(self, p: Pos2<S>) -> (r: Vec2<S>)
        ensures
            r == self.spec_from(p),
    {
        Vec2 { x: self.x.minus(p.x), y: self.y.minus(p.y) }
    }

    pub fn to_vec2(self) -> (r: Vec2<S>)
        ensures
            r == self.spec_to_vec2(),
    {
        Vec2 { x: self.x, y: self.y }
    }

    pub fn distance(self, p: Pos2<S>) -> (r: S)
        ensures
            r == self.spec_distance(p),
    {
        self.from(p).length()
    }

    /// The point turned by `degrees` about `center`.
    pub fn rotated(self, center: Pos2<S>, degrees: S) -> (r: Self)
        ensures
            r == self.spec_rotated(center, degrees),
    {
        let d = self.from(center);
        let sin = degrees.sin_deg();
        let cos = degrees.cos_deg();
        Pos2 {
            x: center.x.plus(d.x.times(cos).minus(d.y.times(sin))),
            y: center.y.plus(d.x.times(sin).plus(d.y.times(cos))),
        }
    }
}

impl<S: Scalar> Rect<S> {
    pub open spec fn spec_from_min_size(min: Pos2<S>, size: Vec2<S>) -> Self {
        Rect { min, max: min.spec_plus(size) }
    }

    pub open spec fn spec_from_center_size(center: Pos2<S>, size: Vec2<S>) -> Self {
        let h = size.spec_scaled(S::spec_ratio(1, 2));
        Rect { min: center.spec_minus(h), max: center.spec_plus(h) }
    }

    pub open spec fn spec_from_two_pos(a: Pos2<S>, b: Pos2<S>) -> Self {
        Rect {
            min: Pos2 { x: a.x.spec_lesser(b.x), y: a.y.spec_lesser(b.y) },
            max: Pos2 { x: a.x.spec_greater(b.x), y: a.y.spec_greater(b.y) },
        }
    }

    pub open spec fn spec_width(self) -> S {
        self.max.x.spec_minus(self.min.x)
    }

    pub open spec fn spec_height(self) -> S {
        self.max.y.spec_minus(self.min.y)
    }

    pub open spec fn spec_size(self) -> Vec2<S> {
        self.max.spec_from(self.min)
    }

    pub open spec fn spec_center(self) -> Pos2<S> {
        Pos2 {
            x: self.min.x.spec_plus(self.max.x).spec_over(S::spec_ratio(2, 1)),
            y: self.min.y.spec_plus(self.max.y).spec_over(S::spec_ratio(2, 1)),
        }
    }

    pub open spec fn spec_union(self, other: Rect<S>) -> Self {
        Rect {
            min: Pos2 {
                x: self.min.x.spec_lesser(other.min.x),
                y: self.min.y.spec_lesser(other.min.y),
            },
            max: Pos2 {
                x: self.max.x.spec_greater(other.max.x),
                y: self.max.y.spec_greater(other.max.y),
            },
        }
    }

    pub open spec fn spec_intersect(self, other: Rect<S>) -> Self {
        Rect {
            min: Pos2 {
                x: self.min.x.spec_greater(other.min.x),
                y: self.min.y.spec_greater(other.min.y),
            },
            max: Pos2 {
                x: self.max.x.spec_lesser(other.max.x),
                y: self.max.y.spec_lesser(other.max.y),
            },
        }
    }

    pub open spec fn spec_translate(self, v: Vec2<S>) -> Self {
        Self::spec_from_min_size(self.min.spec_plus(v), self.spec_size())
    }

    pub open spec fn spec_contains(self, p: Pos2<S>) -> bool {
        &&& self.min.x.spec_le(p.x)
        &&& p.x.spec_le(self.max.x)
        &&& self.min.y.spec_le(p.y)
        &&& p.y.spec_le(self.max.y)
    }

    pub open spec fn spec_contains_rect(self, other: Rect<S>) -> bool {
        self.spec_contains(other.min) && self.spec_contains(other.max)
    }

    pub open spec fn spec_intersects(self, other: Rect<S>) -> bool {
        &&& self.min.x.spec_le(other.max.x)
        &&& other.min.x.spec_le(self.max.x)
        &&& self.min.y.spec_le(other.max.y)
        &&& other.min.y.spec_le(self.max.y)
    }

    /// The corners, clockwise from the top left.
    pub open spec fn spec_corners(self) -> Seq<Pos2<S>> {
        seq![
            self.min,
            Pos2 { x: self.max.x, y: self.min.y },
            self.max,
            Pos2 { x: self.min.x, y: self.max.y },
        ]
    }

    /// The smallest rectangle around the corners turned by `degrees` about the center.
    #[verifier::opaque]
    pub open spec fn spec_rotated_box(self, degrees: S) -> Self {
        let c = self.spec_center();
        let a = self.spec_corners()[0].spec_rotated(c, degrees);
        let b = self.spec_corners()[1].spec_rotated(c, degrees);
        let d = self.spec_corners()[2].spec_rotated(c, degrees);
        let e = self.spec_corners()[3].spec_rotated(c, degrees);
        Rect { min: a, max: a }.spec_union(Rect { min: b, max: b }).spec_union(
            Rect { min: d, max: d },
        ).spec_union(Rect { min: e, max: e })
    }

    pub fn from_min_max(min: Pos2<S>, max: Pos2<S>) -> (r: Self)
        ensures
            r == (Rect { min, max }),
    {
        Rect { min, max }
    }

    pub fn from_min_size(min: Pos2<S>, size: Vec2<S>) -> (r: Self)
        ensures
            r == Self::spec_from_min_size(min, size),
    {
        Rect { min, max: min.plus(size) }
    }

    pub fn from_center_size(center: Pos2<S>, size: Vec2<S>) -> (r: Self)
        ensures
            r == Self::spec_from_center_size(center, size),
    {
        let h = size.scaled(S::ratio(1, 2));
        Rect { min: center.minus(h), max: center.plus(h) }
    }

    /// The rectangle with `a` and `b` as opposite corners.
    pub fn from_two_pos(a: Pos2<S>, b: Pos2<S>) -> (r: Self)
        ensures
            r == Self::spec_from_two_pos(a, b),
    {
        Rect {
            min: Pos2 { x: a.x.lesser(b.x), y: a.y.lesser(b.y) },
            max: Pos2 { x: a.x.greater(b.x), y: a.y.greater(b.y) },
        }
    }

    pub fn width(self) -> (r: S)
        ensures
            r == self.spec_width(),
    {
        self.max.x.minus(self.min.x)
    }

    pub fn height(self) -> (r: S)
        ensures
            r == self.spec_height(),
    {
        self.max.y.minus(self.min.y)
    }

    pub fn size(self) -> (r: Vec2<S>)
        ensures
            r == self.spec_size(),
    {
        self.max.from(self.min)
    }

    pub fn center(self) -> (r: Pos2<S>)
        ensures
            r == self.spec_center(),
    {
        let two = S::ratio(2, 1);
        Pos2 { x: self.min.x.plus(self.max.x).over(two), y: self.min.y.plus(self.max.y).over(two) }
    }

    /// The smallest rectangle around both.
    pub fn union(self, other: Rect<S>) -> (r: Self)
        ensures
            r == self.spec_union(other),
    {
        Rect {
            min: Pos2 { x: self.min.x.lesser(other.min.x), y: self.min.y.lesser(other.min.y) },
            max: Pos2 { x: self.max.x.greater(other.max.x), y: self.max.y.greater(other.max.y) },
        }
    }

    /// The part that both cover; inverted where they share nothing.
    pub fn intersect(self, other: Rect<S>) -> (r: Self)
        ensures
            r == self.spec_intersect(other),
    {
        Rect {
            min: Pos2 { x: self.min.x.greater(other.min.x), y: self.min.y.greater(other.min.y) },
            max: Pos2 { x: self.max.x.lesser(other.max.x), y: self.max.y.lesser(other.max.y) },
        }
    }

    pub fn translate(self, v: Vec2<S>) -> (r: Self)
        ensures
            r == self.spec_translate(v),
    {
        Self::from_min_size(self.min.plus(v), self.size())
    }

    pub fn contains(self, p: Pos2<S>) -> (r: bool)
        ensures
            r == self.spec_contains(p),
    {
        self.min.x.is_le(p.x) && p.x.is_le(self.max.x) && self.min.y.is_le(p.y) && p.y.is_le(
            self.max.y,
        )
    }

    pub fn contains_rect(self, other: Rect<S>) -> (r: bool)
        ensures
            r == self.spec_contains_rect(other),
    {
        self.contains(other.min) && self.contains(other.max)
    }

    pub fn intersects(self, other: Rect<S>) -> (r: bool)
        ensures
            r == self.spec_intersects(other),
    {
        self.min.x.is_le(other.max.x) && other.min.x.is_le(self.max.x) && self.min.y.is_le(
            other.max.y,
        ) && other.min.y.is_le(self.max.y)
    }

    /// The smallest rectangle around the corners turned by `degrees` about the center.
    pub fn rotated_box(self, degrees: S) -> (r: Self)
        ensures
            r == self.spec_rotated_box(degrees),
    {
        reveal(Rect::spec_rotated_box);
        let c = self.center();
        let a = self.min.rotated(c, degrees);
        let b = Pos2 { x: self.max.x, y: self.min.y }.rotated(c, degrees);
        let d = self.max.rotated(c, degrees);
        let e = Pos2 { x: self.min.x, y: self.max.y }.rotated(c, degrees);
        Rect { min: a, max: a }.union(Rect { min: b, max: b }).union(
            Rect { min: d, max: d },
        ).union(Rect { min: e, max: e })
    }
}

} // verus!
