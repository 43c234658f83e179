//! Editing the points of a path: flattening, inserting, retyping, rounding and cutting.
use vstd::prelude::*;

use crate::geometry::{Pos2, Rect, Vec2};
use crate::model::{Frame, KindView, Layer, LayerId, LayerKind, LayerView, PathPoint, PointType};
use crate::scalar::{clamped, first_least, spec_clamped, Least, Scalar};
use crate::style::{Style, StyleView};

verus! {

/// How far the canvas is moved and magnified.
#[derive(Debug, PartialEq)]
pub struct Viewport<S> {
    pub pan: Vec2<S>,
    pub zoom: S,
}

impl<S: Scalar> Clone for Viewport<S> {
    fn clone(&self) -> (r: Self)
        ensures
            r == *self,
    {
        *self
    }
}

impl<S: Scalar> Copy for Viewport<S> {

}

impl<S: Scalar> Viewport<S> {
    pub open spec fn spec_to_screen(self, origin: Pos2<S>, p: Pos2<S>) -> Pos2<S> {
        origin.spec_plus(self.pan).spec_plus(p.spec_to_vec2().spec_scaled(self.zoom))
    }

    pub open spec fn spec_to_doc(self, origin: Pos2<S>, p: Pos2<S>) -> Pos2<S> {
        let v = Vec2 {
            x: p.x.spec_minus(origin.x).spec_minus(self.pan.x),
            y: p.y.spec_minus(origin.y).spec_minus(self.pan.y),
        }.spec_shrunk(self.zoom);
        Pos2 { x: v.x, y: v.y }
    }

    /// Where a point of the page is on the screen, the canvas starting at `origin`.
    pub fn to_screen(self, origin: Pos2<S>, p: Pos2<S>) -> (r: Pos2<S>)
        ensures
            r == self.spec_to_screen(origin, p),
    {
        origin.plus(self.pan).plus(p.to_vec2().scaled(self.zoom))
    }

    /// Which point of the page is at a point of the screen.
    pub fn to_doc(self, origin: Pos2<S>, p: Pos2<S>) -> (r: Pos2<S>)
        ensures
            r == self.spec_to_doc(origin, p),
    {
        let v = Vec2 {
            x: p.x.minus(origin.x).minus(self.pan.x),
            y: p.y.minus(origin.y).minus(self.pan.y),
        }.shrunk(self.zoom);
        Pos2 { x: v.x, y: v.y }
    }
}

/// How many chords stand for a curved segment.
pub const BEZIER_SAMPLES_PER_SEGMENT: usize = 16;

/// How many chords stand for a rounded corner.
pub const CORNER_SAMPLES: usize = 8;

/// How close, on the screen, a click must be to an anchor.
pub open spec fn hit_radius<S: Scalar>() -> S {
    S::spec_ratio(8, 1)
}

pub open spec fn next_index(i: int, n: int) -> int {
    if i + 1 == n {
        0
    } else {
        i + 1
    }
}

pub open spec fn prev_index(i: int, n: int) -> int {
    if i == 0 {
        n - 1
    } else {
        i - 1
    }
}

/// How many segments a path of `n` points has.
pub open spec fn segment_count(n: int, closed: bool) -> int {
    if closed {
        n
    } else if n == 0 {
        0
    } else {
        n - 1
    }
}

pub open spec fn bezier_point<S: Scalar>(
    p0: Pos2<S>,
    p1: Pos2<S>,
    p2: Pos2<S>,
    p3: Pos2<S>,
    t: S,
) -> Pos2<S> {
    let mt = S::spec_ratio(1, 1).spec_minus(t);
    let three = S::spec_ratio(3, 1);
    let a = mt.spec_times(mt).spec_times(mt);
    let b = three.spec_times(mt).spec_times(mt).spec_times(t);
    let c = three.spec_times(mt).spec_times(t).spec_times(t);
    let d = t.spec_times(t).spec_times(t);
    Pos2 {
        x: a.spec_times(p0.x).spec_plus(b.spec_times(p1.x)).spec_plus(c.spec_times(p2.x)).spec_plus(
            d.spec_times(p3.x),
        ),
        y: a.spec_times(p0.y).spec_plus(b.spec_times(p1.y)).spec_plus(c.spec_times(p2.y)).spec_plus(
            d.spec_times(p3.y),
        ),
    }
}

/// The point of a cubic Bezier curve at `t`.
pub fn cubic_bezier_point<S: Scalar>(
    p0: Pos2<S>,
    p1: Pos2<S>,
    p2: Pos2<S>,
    p3: Pos2<S>,
    t: S,
) -> (r: Pos2<S>)
    ensures
        r == bezier_point(p0, p1, p2, p3, t),
{
    let mt = S::ratio(1, 1).minus(t);
    let three = S::ratio(3, 1);
    let a = mt.times(mt).times(mt);
    let b = three.times(mt).times(mt).times(t);
    let c = three.times(mt).times(t).times(t);
    let d = t.times(t).times(t);
    Pos2 {
        x: a.times(p0.x).plus(b.times(p1.x)).plus(c.times(p2.x)).plus(d.times(p3.x)),
        y: a.times(p0.y).plus(b.times(p1.y)).plus(c.times(p2.y)).plus(d.times(p3.y)),
    }
}

/// Whether the corner at `i` is drawn rounded: it has a radius and no handles, and both of the
/// segments that meet in it exist and are straight.
pub open spec fn roundable<S: Scalar>(points: Seq<PathPoint<S>>, closed: bool, i: int) -> bool {
    let n = points.len() as int;
    let p = points[i];
    &&& !p.corner_radius.spec_le(S::spec_ratio(0, 1))
    &&& p.handle_in is None
    &&& p.handle_out is None
    &&& closed || (i != 0 && i != n - 1)
    &&& points[prev_index(i, n)].handle_out is None
    &&& points[next_index(i, n)].handle_in is None
}

/// Whether the corner at `i` is drawn rounded.
pub fn is_roundable_corner<S: Scalar>(points: &[PathPoint<S>], closed: bool, i: usize) -> (r: bool)
    requires
        i < points.len(),
    ensures
        r == roundable(points@, closed, i as int),
{
    let n = points.len();
    if points[i].corner_radius.is_le(S::ratio(0, 1)) || points[i].handle_in.is_some()
        || points[i].handle_out.is_some() {
        return false;
    }
    let prev: usize = if i == 0 {
        if !closed {
            return false;
        }
        n - 1
    } else {
        i - 1
    };
    let next: usize = if i == n - 1 {
        if !closed {
            return false;
        }
        0
    } else {
        i + 1
    };
    points[prev].handle_out.is_none() && points[next].handle_in.is_none()
}

/// How far a rounded corner reaches along its legs: the radius, but at most half the shorter leg.
pub open spec fn corner_inset<S: Scalar>(
    prev: Pos2<S>,
    corner: Pos2<S>,
    next: Pos2<S>,
    radius: S,
) -> S {
    radius.spec_lesser(
        corner.spec_distance(prev).spec_lesser(corner.spec_distance(next)).spec_times(
            S::spec_ratio(1, 2),
        ),
    )
}

/// The curve that stands for a rounded corner, at the fraction `k` of [`CORNER_SAMPLES`].
pub open spec fn corner_point<S: Scalar>(
    prev: Pos2<S>,
    corner: Pos2<S>,
    next: Pos2<S>,
    radius: S,
    k: int,
) -> Pos2<S> {
    let inset = corner_inset(prev, corner, next, radius);
    let start = corner.spec_plus(prev.spec_from(corner).spec_unit().spec_scaled(inset));
    let end = corner.spec_plus(next.spec_from(corner).spec_unit().spec_scaled(inset));
    let t = S::spec_ratio(k, CORNER_SAMPLES as int);
    let mt = S::spec_ratio(1, 1).spec_minus(t);
    let a = mt.spec_times(mt);
    let b = S::spec_ratio(2, 1).spec_times(mt).spec_times(t);
    let c = t.spec_times(t);
    Pos2 {
        x: a.spec_times(start.x).spec_plus(b.spec_times(corner.x)).spec_plus(c.spec_times(end.x)),
        y: a.spec_times(start.y).spec_plus(b.spec_times(corner.y)).spec_plus(c.spec_times(end.y)),
    }
}

/// The points drawn for the rounded corner at `i`, from the leg before it to the leg after it.
pub open spec fn corner_arc<S: Scalar>(points: Seq<PathPoint<S>>, i: int) -> Seq<Pos2<S>> {
    let n = points.len() as int;
    Seq::new(
        (CORNER_SAMPLES + 1) as nat,
        |k: int|
            corner_point(
                points[prev_index(i, n)].anchor,
                points[i].anchor,
                points[next_index(i, n)].anchor,
                points[i].corner_radius,
                k,
            ),
    )
}

/// The points drawn for the rounded corner at `i`.
pub fn corner_arc_points<S: Scalar>(points: &[PathPoint<S>], i: usize) -> (r: Vec<Pos2<S>>)
    requires
        i < points.len(),
    ensures
        r@ == corner_arc(points@, i as int),
{
    let n = points.len();
    let prev = points[if i == 0 {
        n - 1
    } else {
        i - 1
    }].anchor;
    let next = points[if i == n - 1 {
        0
    } else {
        i + 1
    }].anchor;
    let corner = points[i].anchor;
    let radius = points[i].corner_radius;
    let inset = radius.lesser(
        corner.distance(prev).lesser(corner.distance(next)).times(S::ratio(1, 2)),
    );
    let start = corner.plus(prev.from(corner).unit().scaled(inset));
    let end = corner.plus(next.from(corner).unit().scaled(inset));
    let mut out: Vec<Pos2<S>> = Vec::new();
    let mut k: i32 = 0;
    while k <= 8
        invariant
            0 <= k <= 9,
            out.len() == k,
            inset == corner_inset(prev, corner, next, radius),
            start == corner.spec_plus(prev.spec_from(corner).spec_unit().spec_scaled(inset)),
            end == corner.spec_plus(next.spec_from(corner).spec_unit().spec_scaled(inset)),
            forall|j: int|
                0 <= j < k ==> #[trigger] out@[j] == corner_point(prev, corner, next, radius, j),
        decreases 9 - k,
    {
        let t = S::ratio(k, 8);
        let mt = S::ratio(1, 1).minus(t);
        let a = mt.times(mt);
        let b = S::ratio(2, 1).times(mt).times(t);
        let c = t.times(t);
        out.push(
            Pos2 {
                x: a.times(start.x).plus(b.times(corner.x)).plus(c.times(end.x)),
                y: a.times(start.y).plus(b.times(corner.y)).plus(c.times(end.y)),
            },
        );
        k += 1;
    }
    assert(out@ =~= corner_arc(points@, i as int));
    out
}

pub open spec fn or_zero<S: Scalar>(h: Option<Vec2<S>>) -> Vec2<S> {
    match h {
        Some(v) => v,
        None => Vec2::spec_zero(),
    }
}

/// The chords of the curve from `a` to `b`, without its start.
pub open spec fn curve_points<S: Scalar>(a: PathPoint<S>, b: PathPoint<S>) -> Seq<Pos2<S>> {
    Seq::new(
        BEZIER_SAMPLES_PER_SEGMENT as nat,
        |k: int|
            bezier_point(
                a.anchor,
                a.anchor.spec_plus(or_zero(a.handle_out)),
                b.anchor.spec_plus(or_zero(b.handle_in)),
                b.anchor,
                S::spec_ratio(k + 1, BEZIER_SAMPLES_PER_SEGMENT as int),
            ),
    )
}

/// What the segment that starts at point `i` adds to a flattened path.
pub open spec fn flat_segment<S: Scalar>(points: Seq<PathPoint<S>>, closed: bool, i: int) -> Seq<
    Pos2<S>,
> {
    let j = next_index(i, points.len() as int);
    if points[i].handle_out is None && points[j].handle_in is None {
        if j == 0 && closed {
            Seq::empty()
        } else if roundable(points, closed, j) {
            corner_arc(points, j)
        } else {
            seq![points[j].anchor]
        }
    } else {
        curve_points(points[i], points[j])
    }
}

/// A flattened path up to its segment `k`.
pub open spec fn flat_until<S: Scalar>(points: Seq<PathPoint<S>>, closed: bool, k: nat) -> Seq<
    Pos2<S>,
>
    decreases k,
{
    if k == 0 {
        if roundable(points, closed, 0) {
            corner_arc(points, 0)
        } else {
            seq![points[0].anchor]
        }
    } else {
        flat_until(points, closed, (k - 1) as nat) + flat_segment(points, closed, k - 1)
    }
}

/// The polyline that stands for a path: curves as chords, rounded corners as arcs.
pub open spec fn flattened<S: Scalar>(points: Seq<PathPoint<S>>, closed: bool) -> Seq<Pos2<S>> {
    if points.len() == 0 {
        Seq::empty()
    } else {
        flat_until(points, closed, segment_count(points.len() as int, closed) as nat)
    }
}

/// Appends `more` to `out`.
fn append_points<S: Scalar>(out: &mut Vec<Pos2<S>>, more: Vec<Pos2<S>>)
    ensures
        final(out)@ == old(out)@ + more@,
{
    let mut more = more;
    out.append(&mut more);
}

/// Appends the chords of the curve from `a` to `b`.
fn append_curve<S: Scalar>(out: &mut Vec<Pos2<S>>, a: PathPoint<S>, b: PathPoint<S>)
    ensures
        final(out)@ == old(out)@ + curve_points(a, b),
{
    let ghost start = out@;
    let c1 = a.anchor.plus(
        match a.handle_out {
            Some(v) => v,
            None => Vec2::zero(),
        },
    );
    let c2 = b.anchor.plus(
        match b.handle_in {
            Some(v) => v,
            None => Vec2::zero(),
        },
    );
    let mut k: i32 = 0;
    assert(out@ =~= start + curve_points(a, b).take(0));
    while k < 16
        invariant
            0 <= k <= 16,
            c1 == a.anchor.spec_plus(or_zero(a.handle_out)),
            c2 == b.anchor.spec_plus(or_zero(b.handle_in)),
            out@ == start + curve_points(a, b).take(k as int),
        decreases 16 - k,
    {
        out.push(cubic_bezier_point(a.anchor, c1, c2, b.anchor, S::ratio(k + 1, 16)));
        k += 1;
        assert(out@ =~= start + curve_points(a, b).take(k as int));
    }
    assert(curve_points(a, b).take(16) =~= curve_points(a, b));
}

/// The polyline that stands for a path, in the space of its anchors.
pub fn flatten_path<S: Scalar>(points: &[PathPoint<S>], closed: bool) -> (r: Vec<Pos2<S>>)
    ensures
        r@ == flattened(points@, closed),
{
    let n = points.len();
    if n == 0 {
        return Vec::new();
    }
    let mut out: Vec<Pos2<S>> = if is_roundable_corner(points, closed, 0) {
        corner_arc_points(points, 0)
    } else {
        let mut v: Vec<Pos2<S>> = Vec::new();
        v.push(points[0].anchor);
        v
    };
    assert(out@ =~= flat_until(points@, closed, 0));
    let last: usize = if closed {
        n
    } else {
        n - 1
    };
    let mut i: usize = 0;
    while i < last
        invariant
            i <= last <= n,
            n == points.len(),
            n > 0,
            last == segment_count(n as int, closed),
            out@ == flat_until(points@, closed, i as nat),
        decreases last - i,
    {
        let j: usize = if i + 1 == n {
            0
        } else {
            i + 1
        };
        if points[i].handle_out.is_none() && points[j].handle_in.is_none() {
            if j == 0 && closed {
                assert(out@ + flat_segment(points@, closed, i as int) =~= out@);
            } else if is_roundable_corner(points, closed, j) {
                append_points(&mut out, corner_arc_points(points, j));
            } else {
                out.push(points[j].anchor);
                assert(flat_until(points@, closed, i as nat) + seq![points@[j as int].anchor]
                    =~= out@);
            }
        } else {
            append_curve(&mut out, points[i], points[j]);
        }
        i += 1;
    }
    out
}

/// The distance from `p` to the segment from `a` to `b`.
pub open spec fn segment_distance<S: Scalar>(p: Pos2<S>, a: Pos2<S>, b: Pos2<S>) -> S {
    let ab = b.spec_from(a);
    let len2 = ab.spec_dot(ab);
    if len2.spec_lt(S::spec_ratio(1, 1000000)) {
        p.spec_distance(a)
    } else {
        let t = spec_clamped(
            p.spec_from(a).spec_dot(ab).spec_over(len2),
            S::spec_ratio(0, 1),
            S::spec_ratio(1, 1),
        );
        p.spec_distance(a.spec_plus(ab.spec_scaled(t)))
    }
}

/// The distance from `p` to the segment from `a` to `b`.
pub fn distance_to_segment<S: Scalar>(p: Pos2<S>, a: Pos2<S>, b: Pos2<S>) -> (r: S)
    ensures
        r == segment_distance(p, a, b),
{
    let ab = b.from(a);
    let len2 = ab.dot(ab);
    if len2.is_lt(S::ratio(1, 1000000)) {
        return p.distance(a);
    }
    let t = clamped(p.from(a).dot(ab).over(len2), S::ratio(0, 1), S::ratio(1, 1));
    p.distance(a.plus(ab.scaled(t)))
}

/// A path as a click sees it: its points, and how they reach the screen.
pub struct PathOnScreen<'a, S> {
    pub points: &'a Vec<PathPoint<S>>,
    pub closed: bool,
    /// From the points' own space to that of the layer's parent.
    pub base: Vec2<S>,
    /// From the space of the layer's parent to the page.
    pub outer: Vec2<S>,
    pub viewport: Viewport<S>,
    pub origin: Pos2<S>,
}

/// [`PathOnScreen`] over a sequence of points.
#[verifier::ext_equal]
pub struct ScreenPathView<S> {
    pub points: Seq<PathPoint<S>>,
    pub closed: bool,
    pub base: Vec2<S>,
    pub outer: Vec2<S>,
    pub viewport: Viewport<S>,
    pub origin: Pos2<S>,
}

impl<S: Scalar> ScreenPathView<S> {
    pub open spec fn anchor(self, i: int) -> Pos2<S> {
        self.viewport.spec_to_screen(
            self.origin,
            self.points[i].anchor.spec_plus(self.base).spec_plus(self.outer),
        )
    }

    /// The distances of the anchors from a point on the screen.
    pub open spec fn anchor_distances(self, click: Pos2<S>) -> Seq<S> {
        Seq::new(self.points.len(), |i: int| click.spec_distance(self.anchor(i)))
    }

    /// The distances of the segments' chords from a point on the screen.
    pub open spec fn segment_distances(self, click: Pos2<S>) -> Seq<S> {
        let n = self.points.len() as int;
        Seq::new(
            segment_count(n, self.closed) as nat,
            |i: int| segment_distance(click, self.anchor(i), self.anchor(next_index(i, n))),
        )
    }

    /// The index of the nearest anchor and its distance.
    pub open spec fn nearest_anchor(self, click: Pos2<S>) -> Option<(int, S)> {
        let d = self.anchor_distances(click);
        if d.len() > 0 {
            Some((first_least(d), d[first_least(d)]))
        } else {
            None
        }
    }

    /// The index of the first anchor, from `k` on, within reach.
    pub open spec fn first_anchor(self, click: Pos2<S>, k: int) -> Option<int>
        decreases self.points.len() - k,
    {
        if k >= self.points.len() {
            None
        } else if self.anchor(k).spec_distance(click).spec_le(hit_radius::<S>()) {
            Some(k)
        } else {
            self.first_anchor(click, k + 1)
        }
    }

    /// The index of the nearest segment, where one is within twice the reach.
    pub open spec fn nearest_segment(self, click: Pos2<S>) -> Option<int> {
        let d = self.segment_distances(click);
        let k = first_least(d);
        if d.len() > 0 && !hit_radius::<S>().spec_times(S::spec_ratio(2, 1)).spec_lt(d[k]) {
            Some(k)
        } else {
            None
        }
    }

    /// What a click with the scissors at `doc_pos` does.
    pub open spec fn scissored(self, doc_pos: Pos2<S>) -> PathCutView<S> {
        let click = self.viewport.spec_to_screen(self.origin, doc_pos);
        if self.points.len() < 2 {
            PathCutView::Miss
        } else {
            match self.first_anchor(click, 0) {
                Some(i) => cut_at_anchor(self.points, self.closed, i),
                None => match self.nearest_segment(click) {
                    Some(k) => cut_at_segment(
                        self.points,
                        self.closed,
                        k,
                        corner_at(doc_pos.spec_minus(self.base).spec_minus(self.outer)),
                    ),
                    None => PathCutView::Miss,
                },
            }
        }
    }
}

impl<'a, S: Scalar> PathOnScreen<'a, S> {
    pub open spec fn view(&self) -> ScreenPathView<S> {
        ScreenPathView {
            points: self.points@,
            closed: self.closed,
            base: self.base,
            outer: self.outer,
            viewport: self.viewport,
            origin: self.origin,
        }
    }

    fn anchor(&self, i: usize) -> (r: Pos2<S>)
        requires
            i < self.points@.len(),
        ensures
            r == self@.anchor(i as int),
    {
        self.viewport.to_screen(
            self.origin,
            self.points[i].anchor.plus(self.base).plus(self.outer),
        )
    }

    /// The index of the nearest anchor and its distance.
    pub fn nearest_anchor(&self, click: Pos2<S>) -> (r: Option<(usize, S)>)
        ensures
            match self@.nearest_anchor(click) {
                Some((k, d)) => r == Some((k as usize, d)) && 0 <= k < self.points@.len(),
                None => r is None,
            },
    {
        let ghost all = self@.anchor_distances(click);
        let mut least = Least::none();
        let mut i: usize = 0;
        assert(all.take(0) =~= Seq::empty());
        while i < self.points.len()
            invariant
                i <= self.points.len(),
                all == self@.anchor_distances(click),
                least.holds_for(all.take(i as int)),
            decreases self.points.len() - i,
        {
            let d = click.distance(self.anchor(i));
            assert(all.take(i + 1) =~= all.take(i as int).push(d));
            least.offer(i, d, Ghost(all.take(i as int)));
            i += 1;
        }
        assert(all.take(i as int) =~= all);
        least.best
    }

    /// The index of the first anchor within reach.
    pub fn first_anchor(&self, click: Pos2<S>) -> (r: Option<usize>)
        ensures
            match self@.first_anchor(click, 0) {
                Some(k) => r == Some(k as usize) && 0 <= k < self.points@.len(),
                None => r is None,
            },
    {
        let mut i: usize = 0;
        while i < self.points.len()
            invariant
                i <= self.points.len(),
                self@.first_anchor(click, 0) == self@.first_anchor(click, i as int),
            decreases self.points.len() - i,
        {
            if self.anchor(i).distance(click).is_le(S::ratio(8, 1)) {
                return Some(i);
            }
            i += 1;
        }
        None
    }

    /// The index of the nearest segment, where one is within twice the reach.
    pub fn nearest_segment(&self, click: Pos2<S>) -> (r: Option<usize>)
        ensures
            match self@.nearest_segment(click) {
                Some(k) => r == Some(k as usize) && 0 <= k < segment_count(
                    self.points@.len() as int,
                    self.closed,
                ),
                None => r is None,
            },
    {
        let ghost all = self@.segment_distances(click);
        let n = self.points.len();
        let last: usize = if self.closed {
            n
        } else if n == 0 {
            0
        } else {
            n - 1
        };
        let mut least = Least::none();
        let mut i: usize = 0;
        assert(all.take(0) =~= Seq::empty());
        while i < last
            invariant
                i <= last <= n,
                n == self.points@.len(),
                last == segment_count(n as int, self.closed),
                all == self@.segment_distances(click),
                least.holds_for(all.take(i as int)),
            decreases last - i,
        {
            let j: usize = if i + 1 == n {
                0
            } else {
                i + 1
            };
            let d = distance_to_segment(click, self.anchor(i), self.anchor(j));
            assert(all.take(i + 1) =~= all.take(i as int).push(d));
            least.offer(i, d, Ghost(all.take(i as int)));
            i += 1;
        }
        assert(all.take(i as int) =~= all);
        match least.best {
            Some((index, dist)) => if S::ratio(8, 1).times(S::ratio(2, 1)).is_lt(dist) {
                None
            } else {
                Some(index)
            },
            None => None,
        }
    }
}

/// The neighbour before `i`, if there is one.
pub open spec fn before<S>(points: Seq<PathPoint<S>>, closed: bool, i: int) -> Option<
    PathPoint<S>,
> {
    if i == 0 && !closed {
        None
    } else {
        Some(points[prev_index(i, points.len() as int)])
    }
}

/// The neighbour after `i`, if there is one.
pub open spec fn after<S>(points: Seq<PathPoint<S>>, closed: bool, i: int) -> Option<PathPoint<S>> {
    if i == points.len() - 1 && !closed {
        None
    } else {
        Some(points[next_index(i, points.len() as int)])
    }
}

/// The handle that turns the point at `i` into a curve: along the chord between its neighbours,
/// or along its only segment; 0.35 of the nearer neighbour's distance, between 4 and 40 long.
/// None where there is no neighbour or the direction has no length.
pub open spec fn default_handle<S: Scalar>(
    points: Seq<PathPoint<S>>,
    i: int,
    closed: bool,
) -> Option<Vec2<S>> {
    let here = points[i].anchor;
    let found = match (before(points, closed, i), after(points, closed, i)) {
        (Some(p), Some(q)) => Some(
            (
                q.anchor.spec_from(p.anchor),
                p.anchor.spec_from(here).spec_length().spec_lesser(
                    q.anchor.spec_from(here).spec_length(),
                ),
            ),
        ),
        (Some(p), None) => Some(
            (here.spec_from(p.anchor), p.anchor.spec_from(here).spec_length()),
        ),
        (None, Some(q)) => Some(
            (q.anchor.spec_from(here), q.anchor.spec_from(here).spec_length()),
        ),
        (None, None) => None,
    };
    match found {
        Some((direction, reach)) => if direction.spec_length().spec_lt(S::spec_ratio(1, 1000)) {
            None
        } else {
            Some(
                direction.spec_unit().spec_scaled(
                    spec_clamped(
                        reach.spec_times(S::spec_ratio(35, 100)),
                        S::spec_ratio(4, 1),
                        S::spec_ratio(40, 1),
                    ),
                ),
            )
        },
        None => None,
    }
}

/// The neighbours of the point at `i`.
fn neighbours<S: Scalar>(points: &Vec<PathPoint<S>>, closed: bool, i: usize) -> (r: (
    Option<PathPoint<S>>,
    Option<PathPoint<S>>,
))
    requires
        i < points.len(),
    ensures
        r.0 == before(points@, closed, i as int),
        r.1 == after(points@, closed, i as int),
{
    let n = points.len();
    let p = if i == 0 {
        if closed {
            Some(points[n - 1])
        } else {
            None
        }
    } else {
        Some(points[i - 1])
    };
    let q = if i == n - 1 {
        if closed {
            Some(points[0])
        } else {
            None
        }
    } else {
        Some(points[i + 1])
    };
    (p, q)
}

/// The handle that turns the point at `index` into a curve.
pub fn default_curve_handle_out<S: Scalar>(
    points: &Vec<PathPoint<S>>,
    index: usize,
    closed: bool,
) -> (r: Option<Vec2<S>>)
    requires
        index < points.len(),
    ensures
        r == default_handle(points@, index as int, closed),
{
    let here = points[index].anchor;
    let (direction, reach) = match neighbours(points, closed, index) {
        (Some(p), Some(q)) => (
            q.anchor.from(p.anchor),
            p.anchor.from(here).length().lesser(q.anchor.from(here).length()),
        ),
        (Some(p), None) => (here.from(p.anchor), p.anchor.from(here).length()),
        (None, Some(q)) => (q.anchor.from(here), q.anchor.from(here).length()),
        (None, None) => {
            return None;
        },
    };
    if direction.length().is_lt(S::ratio(1, 1000)) {
        return None;
    }
    let len = clamped(reach.times(S::ratio(35, 100)), S::ratio(4, 1), S::ratio(40, 1));
    Some(direction.unit().scaled(len))
}

/// A point with equal and opposite handles.
pub open spec fn mirrored<S: Scalar>(p: PathPoint<S>, handle: Vec2<S>) -> PathPoint<S> {
    PathPoint {
        point_type: PointType::Mirror,
        handle_out: Some(handle),
        handle_in: Some(handle.spec_negated()),
        ..p
    }
}

/// The path after the point at `i` took a type: a straight point loses its handles, a mirror point
/// gets a pair made from the handle it has, or from the default curve; the others keep theirs.
pub open spec fn retyped_one<S: Scalar>(
    points: Seq<PathPoint<S>>,
    closed: bool,
    i: int,
    t: PointType,
) -> Seq<PathPoint<S>> {
    if i >= points.len() {
        points
    } else {
        let p = PathPoint { point_type: t, ..points[i] };
        let handle = match (p.handle_out, p.handle_in) {
            (Some(h), _) => Some(h),
            (None, Some(h)) => Some(h.spec_negated()),
            (None, None) => default_handle(points, i, closed),
        };
        points.update(
            i,
            match t {
                PointType::Straight => PathPoint { handle_in: None, handle_out: None, ..p },
                PointType::Mirror => match handle {
                    Some(h) => mirrored(p, h),
                    None => p,
                },
                _ => p,
            },
        )
    }
}

/// The path after each of the points at `indices` in turn took a type.
pub open spec fn retyped<S: Scalar>(
    points: Seq<PathPoint<S>>,
    closed: bool,
    indices: Seq<usize>,
    t: PointType,
) -> Seq<PathPoint<S>>
    decreases indices.len(),
{
    if indices.len() == 0 {
        points
    } else {
        retyped_one(
            retyped(points, closed, indices.drop_last(), t),
            closed,
            indices.last() as int,
            t,
        )
    }
}

/// Gives each of the points at `indices` a type; indices past the end are skipped.
pub fn set_point_types<S: Scalar>(
    points: &mut Vec<PathPoint<S>>,
    closed: bool,
    indices: &Vec<usize>,
    t: PointType,
)
    ensures
        final(points)@ == retyped(old(points)@, closed, indices@, t),
{
    let ghost start = points@;
    let mut k: usize = 0;
    assert(indices@.take(0) =~= Seq::empty());
    while k < indices.len()
        invariant
            k <= indices.len(),
            points@ == retyped(start, closed, indices@.take(k as int), t),
        decreases indices.len() - k,
    {
        let i = indices[k];
        assert(indices@.take(k + 1).drop_last() =~= indices@.take(k as int));
        if i < points.len() {
            let mut p = points[i];
            p.point_type = t;
            match t {
                PointType::Straight => {
                    p.handle_in = None;
                    p.handle_out = None;
                },
                PointType::Mirror => {
                    let handle = match (p.handle_out, p.handle_in) {
                        (Some(h), _) => Some(h),
                        (None, Some(h)) => Some(h.negated()),
                        (None, None) => default_curve_handle_out(points, i, closed),
                    };
                    if let Some(h) = handle {
                        p.handle_out = Some(h);
                        p.handle_in = Some(h.negated());
                    }
                },
                _ => {},
            }
            points.set(i, p);
        }
        k += 1;
    }
    assert(indices@.take(k as int) =~= indices@);
}

/// The largest radius for the corner at `i`: half of its shorter segment.
pub open spec fn max_radius_one<S: Scalar>(points: Seq<PathPoint<S>>, closed: bool, i: int) -> Seq<
    PathPoint<S>,
> {
    if i >= points.len() {
        points
    } else {
        match (before(points, closed, i), after(points, closed, i)) {
            (Some(p), Some(q)) => points.update(
                i,
                PathPoint {
                    corner_radius: p.anchor.spec_from(points[i].anchor).spec_length().spec_lesser(
                        q.anchor.spec_from(points[i].anchor).spec_length(),
                    ).spec_times(S::spec_ratio(1, 2)),
                    ..points[i]
                },
            ),
            _ => points,
        }
    }
}

/// The path after each of the corners at `indices` was rounded as far as it goes.
pub open spec fn max_rounded<S: Scalar>(
    points: Seq<PathPoint<S>>,
    closed: bool,
    indices: Seq<usize>,
) -> Seq<PathPoint<S>>
    decreases indices.len(),
{
    if indices.len() == 0 {
        points
    } else {
        max_radius_one(
            max_rounded(points, closed, indices.drop_last()),
            closed,
            indices.last() as int,
        )
    }
}

/// Rounds each of the corners at `indices` as far as it goes.
pub fn round_to_max<S: Scalar>(points: &mut Vec<PathPoint<S>>, closed: bool, indices: &Vec<usize>)
    ensures
        final(points)@ == max_rounded(old(points)@, closed, indices@),
{
    let ghost start = points@;
    let mut k: usize = 0;
    assert(indices@.take(0) =~= Seq::empty());
    while k < indices.len()
        invariant
            k <= indices.len(),
            points@ == max_rounded(start, closed, indices@.take(k as int)),
        decreases indices.len() - k,
    {
        let i = indices[k];
        assert(indices@.take(k + 1).drop_last() =~= indices@.take(k as int));
        if i < points.len() {
            if let (Some(p), Some(q)) = neighbours(points, closed, i) {
                let mut here = points[i];
                here.corner_radius = p.anchor.from(here.anchor).length().lesser(
                    q.anchor.from(here.anchor).length(),
                ).times(S::ratio(1, 2));
                points.set(i, here);
            }
        }
        k += 1;
    }
    assert(indices@.take(k as int) =~= indices@);
}

/// The path after each of the corners at `indices` took a radius.
pub open spec fn with_radius<S>(points: Seq<PathPoint<S>>, indices: Seq<usize>, radius: S) -> Seq<
    PathPoint<S>,
> {
    Seq::new(
        points.len(),
        |i: int|
            if indices.contains(i as usize) {
                PathPoint { corner_radius: radius, ..points[i] }
            } else {
                points[i]
            },
    )
}

/// Gives each of the corners at `indices` a radius; indices past the end are skipped.
pub fn set_radius<S: Scalar>(points: &mut Vec<PathPoint<S>>, indices: &Vec<usize>, radius: S)
    ensures
        final(points)@ == with_radius(old(points)@, indices@, radius),
{
    let ghost start = points@;
    let mut i: usize = 0;
    while i < points.len()
        invariant
            i <= points.len(),
            points.len() == start.len(),
            forall|k: int|
                0 <= k < i ==> #[trigger] points@[k] == with_radius(start, indices@, radius)[k],
            forall|k: int| i <= k < start.len() ==> #[trigger] points@[k] == start[k],
        decreases points.len() - i,
    {
        if has_index(indices, i) {
            let mut p = points[i];
            p.corner_radius = radius;
            points.set(i, p);
        }
        i += 1;
    }
    assert(points@ =~= with_radius(start, indices@, radius));
}

/// Whether `indices` holds `i`.
pub fn has_index(indices: &Vec<usize>, i: usize) -> (r: bool)
    ensures
        r == indices@.contains(i),
{
    let mut k: usize = 0;
    while k < indices.len()
        invariant
            k <= indices.len(),
            forall|j: int| 0 <= j < k ==> indices@[j] != i,
        decreases indices.len() - k,
    {
        if indices[k] == i {
            return true;
        }
        k += 1;
    }
    false
}

/// The first `k` points without those at `indices`.
pub open spec fn unpicked<S>(points: Seq<PathPoint<S>>, indices: Seq<usize>, k: nat) -> Seq<
    PathPoint<S>,
>
    decreases k,
{
    if k == 0 {
        Seq::empty()
    } else if indices.contains((k - 1) as usize) {
        unpicked(points, indices, (k - 1) as nat)
    } else {
        unpicked(points, indices, (k - 1) as nat).push(points[k - 1])
    }
}

/// The points without those at `indices`.
pub fn points_without<S: Scalar>(points: &Vec<PathPoint<S>>, indices: &Vec<usize>) -> (r: Vec<
    PathPoint<S>,
>)
    ensures
        r@ == unpicked(points@, indices@, points@.len()),
{
    let mut r: Vec<PathPoint<S>> = Vec::new();
    let mut i: usize = 0;
    while i < points.len()
        invariant
            i <= points.len(),
            r@ == unpicked(points@, indices@, i as nat),
        decreases points.len() - i,
    {
        if !has_index(indices, i) {
            r.push(points[i]);
        }
        i += 1;
    }
    r
}

/// How many different indices there are.
pub fn count_distinct(indices: &Vec<usize>) -> (r: usize)
    ensures
        r == indices@.to_set().len(),
{
    let mut r: usize = 0;
    let mut k: usize = 0;
    assert(indices@.take(0).to_set() =~= Set::empty());
    while k < indices.len()
        invariant
            k <= indices.len(),
            r <= k,
            r == indices@.take(k as int).to_set().len(),
            indices@.take(k as int).to_set().finite(),
        decreases indices.len() - k,
    {
        let ghost so_far = indices@.take(k as int);
        let mut seen = false;
        let mut j: usize = 0;
        while j < k
            invariant
                j <= k < indices.len(),
                so_far == indices@.take(k as int),
                seen == exists|m: int| 0 <= m < j && indices@[m] == indices@[k as int],
            decreases k - j,
        {
            if indices[j] == indices[k] {
                seen = true;
            }
            j += 1;
        }
        proof {
            let x = indices@[k as int];
            assert(indices@.take(k + 1).to_set() =~= so_far.to_set().insert(x)) by {
                let next = indices@.take(k + 1);
                assert forall|y: usize| next.to_set().contains(y) <==> so_far.to_set().insert(
                    x,
                ).contains(y) by {
                    if next.contains(y) {
                        let m = choose|m: int| 0 <= m < next.len() && next[m] == y;
                        if m < k {
                            assert(so_far[m] == y);
                        }
                    }
                    if so_far.contains(y) {
                        let m = choose|m: int| 0 <= m < so_far.len() && so_far[m] == y;
                        assert(next[m] == y);
                    }
                    if y == x {
                        assert(next[k as int] == y);
                    }
                }
            }
            if seen {
                let m = choose|m: int| 0 <= m < k && indices@[m] == x;
                assert(so_far[m] == x);
                assert(so_far.to_set().contains(x));
                assert(so_far.to_set().insert(x) =~= so_far.to_set());
            } else {
                assert(!so_far.to_set().contains(x)) by {
                    if so_far.contains(x) {
                        let m = choose|m: int| 0 <= m < so_far.len() && so_far[m] == x;
                        assert(indices@[m] == x);
                    }
                }
            }
        }
        if !seen {
            r += 1;
        }
        k += 1;
    }
    assert(indices@.take(k as int) =~= indices@);
    r
}

/// What a cut makes of a path.
pub enum PathCut<S> {
    /// Nothing is cut.
    Miss,
    /// A closed path opened where it was cut.
    Opened { points: Vec<PathPoint<S>> },
    /// An open path in two pieces.
    Split { first: Vec<PathPoint<S>>, second: Vec<PathPoint<S>> },
}

#[verifier::ext_equal]
pub enum PathCutView<S> {
    Miss,
    Opened { points: Seq<PathPoint<S>> },
    Split { first: Seq<PathPoint<S>>, second: Seq<PathPoint<S>> },
}

impl<S: Scalar> PathCut<S> {
    pub open spec fn view(&self) -> PathCutView<S> {
        match *self {
            PathCut::Miss => PathCutView::Miss,
            PathCut::Opened { points } => PathCutView::Opened { points: points@ },
            PathCut::Split { first, second } => PathCutView::Split {
                first: first@,
                second: second@,
            },
        }
    }
}

/// The cut at the anchor `i`: a closed path starts and ends there, an open one is parted there
/// unless it is one of its ends.
pub open spec fn cut_at_anchor<S>(points: Seq<PathPoint<S>>, closed: bool, i: int) -> PathCutView<
    S,
> {
    if closed {
        PathCutView::Opened { points: points.skip(i) + points.take(i) + seq![points[i]] }
    } else if 0 < i < points.len() - 1 {
        PathCutView::Split { first: points.take(i + 1), second: points.skip(i) }
    } else {
        PathCutView::Miss
    }
}

/// The cut at `p` on the segment that starts at point `k`.
pub open spec fn cut_at_segment<S>(
    points: Seq<PathPoint<S>>,
    closed: bool,
    k: int,
    p: PathPoint<S>,
) -> PathCutView<S> {
    if closed {
        PathCutView::Opened {
            points: seq![p] + points.skip(k + 1) + points.take(k + 1) + seq![p],
        }
    } else {
        PathCutView::Split {
            first: points.take(k + 1).push(p),
            second: seq![p] + points.skip(k + 1),
        }
    }
}

/// A corner without handles and without rounding.
pub open spec fn corner_at<S: Scalar>(anchor: Pos2<S>) -> PathPoint<S> {
    PathPoint {
        anchor,
        handle_in: None,
        handle_out: None,
        point_type: PointType::Disconnected,
        corner_radius: S::spec_ratio(0, 1),
    }
}

/// A corner without handles and without rounding.
pub fn new_corner<S: Scalar>(anchor: Pos2<S>) -> (r: PathPoint<S>)
    ensures
        r == corner_at(anchor),
{
    PathPoint {
        anchor,
        handle_in: None,
        handle_out: None,
        point_type: PointType::Disconnected,
        corner_radius: S::ratio(0, 1),
    }
}

/// The points `from..to`.
fn slice_of<S: Scalar>(points: &Vec<PathPoint<S>>, from: usize, to: usize) -> (r: Vec<PathPoint<S>>)
    requires
        from <= to <= points.len(),
    ensures
        r@ == points@.subrange(from as int, to as int),
{
    let mut r: Vec<PathPoint<S>> = Vec::new();
    let mut i: usize = from;
    while i < to
        invariant
            from <= i <= to <= points.len(),
            r@ == points@.subrange(from as int, i as int),
        decreases to - i,
    {
        r.push(points[i]);
        i += 1;
        assert(r@ =~= points@.subrange(from as int, i as int));
    }
    r
}

impl<'a, S: Scalar> PathOnScreen<'a, S> {
    /// What a click with the scissors at `doc_pos` does.
    pub fn scissored(&self, doc_pos: Pos2<S>) -> (r: PathCut<S>)
        ensures
            r@ == self@.scissored(doc_pos),
    {
        let points = self.points;
        let n = points.len();
        if n < 2 {
            return PathCut::Miss;
        }
        let click = self.viewport.to_screen(self.origin, doc_pos);
        if let Some(i) = self.first_anchor(click) {
            if self.closed {
                let mut opened = slice_of(points, i, n);
                let mut front = slice_of(points, 0, i);
                opened.append(&mut front);
                opened.push(points[i]);
                assert(opened@ =~= points@.skip(i as int) + points@.take(i as int)
                    + seq![points@[i as int]]);
                return PathCut::Opened { points: opened };
            }
            if i > 0 && i < n - 1 {
                let first = slice_of(points, 0, i + 1);
                let second = slice_of(points, i, n);
                assert(first@ =~= points@.take(i + 1));
                assert(second@ =~= points@.skip(i as int));
                return PathCut::Split { first, second };
            }
            return PathCut::Miss;
        }
        match self.nearest_segment(click) {
            Some(k) => {
                let p = new_corner(doc_pos.minus(self.base).minus(self.outer));
                if self.closed {
                    let mut opened: Vec<PathPoint<S>> = Vec::new();
                    opened.push(p);
                    let mut tail = slice_of(points, k + 1, n);
                    let mut front = slice_of(points, 0, k + 1);
                    opened.append(&mut tail);
                    opened.append(&mut front);
                    opened.push(p);
                    assert(opened@ =~= seq![p] + points@.skip(k + 1) + points@.take(k + 1)
                        + seq![p]);
                    PathCut::Opened { points: opened }
                } else {
                    let mut first = slice_of(points, 0, k + 1);
                    first.push(p);
                    let mut second: Vec<PathPoint<S>> = Vec::new();
                    second.push(p);
                    let mut tail = slice_of(points, k + 1, n);
                    second.append(&mut tail);
                    assert(first@ =~= points@.take(k + 1).push(p));
                    assert(second@ =~= seq![p] + points@.skip(k + 1));
                    PathCut::Split { first, second }
                }
            },
            None => PathCut::Miss,
        }
    }
}

/// The smallest box around anchors that are relative to `base`.
pub open spec fn anchor_box<S: Scalar>(points: Seq<PathPoint<S>>, base: Pos2<S>) -> Rect<S>
    recommends
        points.len() > 0,
    decreases points.len(),
{
    let p = base.spec_plus(points.last().anchor.spec_to_vec2());
    if points.len() <= 1 {
        Rect { min: p, max: p }
    } else {
        anchor_box(points.drop_last(), base).spec_union(Rect { min: p, max: p })
    }
}

/// The smallest box around anchors that are relative to `base`.
pub fn anchor_bounds<S: Scalar>(points: &Vec<PathPoint<S>>, base: Pos2<S>) -> (r: Rect<S>)
    requires
        points.len() > 0,
    ensures
        r == anchor_box(points@, base),
{
    let p = base.plus(points[0].anchor.to_vec2());
    let mut r = Rect { min: p, max: p };
    let mut i: usize = 1;
    assert(points@.take(1).last() == points@[0]);
    while i < points.len()
        invariant
            1 <= i <= points.len(),
            r == anchor_box(points@.take(i as int), base),
        decreases points.len() - i,
    {
        assert(points@.take(i + 1).drop_last() =~= points@.take(i as int));
        let q = base.plus(points[i].anchor.to_vec2());
        r = r.union(Rect { min: q, max: q });
        i += 1;
    }
    assert(points@.take(i as int) =~= points@);
    r
}

/// The points, relative to `base` before and to `origin` after.
pub open spec fn rebased<S: Scalar>(
    points: Seq<PathPoint<S>>,
    base: Pos2<S>,
    origin: Pos2<S>,
) -> Seq<PathPoint<S>> {
    Seq::new(
        points.len(),
        |i: int|
            PathPoint {
                anchor: base.spec_plus(points[i].anchor.spec_to_vec2()).spec_minus(
                    origin.spec_to_vec2(),
                ),
                ..points[i]
            },
    )
}

/// The points, relative to `base` before and to `origin` after.
pub fn rebase<S: Scalar>(points: &Vec<PathPoint<S>>, base: Pos2<S>, origin: Pos2<S>) -> (r: Vec<
    PathPoint<S>,
>)
    ensures
        r@ == rebased(points@, base, origin),
{
    let mut r: Vec<PathPoint<S>> = Vec::new();
    let mut i: usize = 0;
    while i < points.len()
        invariant
            i <= points.len(),
            r.len() == i,
            forall|k: int| 0 <= k < i ==> #[trigger] r@[k] == rebased(points@, base, origin)[k],
        decreases points.len() - i,
    {
        let mut p = points[i];
        p.anchor = base.plus(p.anchor.to_vec2()).minus(origin.to_vec2());
        r.push(p);
        i += 1;
    }
    assert(r@ =~= rebased(points@, base, origin));
    r
}

/// A path whose frame is the box of its anchors, with every anchor where it was on the page.
pub open spec fn normalized<S: Scalar>(v: LayerView<S>) -> LayerView<S> {
    match v.kind {
        KindView::Path { points, closed } => if points.len() == 0 {
            v
        } else {
            let b = anchor_box(points, v.frame.pos);
            LayerView {
                frame: Frame { pos: b.min, size: b.spec_size(), rotation: v.frame.rotation },
                kind: KindView::Path { points: rebased(points, v.frame.pos, b.min), closed },
                ..v
            }
        },
        _ => v,
    }
}

/// Makes the frame of a path the box of its anchors.
pub fn normalize_layer<S: Scalar>(layer: &mut Layer<S>)
    ensures
        final(layer)@ == normalized(old(layer)@),
{
    let base = layer.frame.pos;
    let rotation = layer.frame.rotation;
    let mut frame = layer.frame;
    if let LayerKind::Path { points, .. } = &mut layer.kind {
        if points.len() > 0 {
            let b = anchor_bounds(points, base);
            *points = rebase(points, base, b.min);
            frame = Frame { pos: b.min, size: b.size(), rotation };
        }
    }
    layer.frame = frame;
}

/// Makes the frame of a path the box of its anchors, where the page has that path.
pub fn normalize_path_frame<S: Scalar>(page: &mut crate::document::Page<S>, layer_id: LayerId)
    ensures
        match crate::tree::find(old(page)@.layers, layer_id) {
            Some(v) => final(page)@ == old(page)@.with_layers(
                crate::tree::replace(old(page)@.layers, layer_id, normalized(v)),
            ),
            None => *final(page) == *old(page),
        },
{
    if let Some(layer) = page.find_mut(layer_id) {
        normalize_layer(layer);
    }
}

/// An open path through `points`, which are relative to `base`.
pub open spec fn path_layer<S: Scalar>(
    id: LayerId,
    name: Seq<char>,
    style: StyleView<S>,
    base: Pos2<S>,
    rotation: S,
    points: Seq<PathPoint<S>>,
) -> LayerView<S> {
    let b = anchor_box(points, base);
    LayerView {
        style,
        ..Layer::<S>::spec_new(
            id,
            name,
            Frame { pos: b.min, size: b.spec_size(), rotation },
            KindView::Path { points: rebased(points, base, b.min), closed: false },
            Seq::empty(),
        )
    }
}

/// An open path through `points`, which are relative to `base`, framed by the box of its anchors.
pub fn build_path_layer<S: Scalar>(
    id: LayerId,
    name: &str,
    style: &Style<S>,
    base: Pos2<S>,
    rotation: S,
    points: &Vec<PathPoint<S>>,
) -> (r: Layer<S>)
    requires
        points.len() > 0,
    ensures
        r@ == path_layer(id, name@, style@, base, rotation, points@),
{
    let b = anchor_bounds(points, base);
    let relative = rebase(points, base, b.min);
    let frame = Frame { pos: b.min, size: b.size(), rotation };
    let kind = LayerKind::Path { points: relative, closed: false };
    assert(crate::model::views(kind.inside()) =~= Seq::empty());
    let mut layer = Layer::new(id, name, frame, kind);
    layer.style = style.duplicate();
    layer
}

/// A cut keeps every point: a closed path comes back with one more point at an anchor and two more
/// on a segment, and starts and ends at the same place; the pieces of an open path share the cut.
pub proof fn law_a_cut_keeps_every_point<S>(
    points: Seq<PathPoint<S>>,
    closed: bool,
    i: int,
    p: PathPoint<S>,
)
    requires
        0 <= i < points.len(),
        points.len() >= 2,
    ensures
        closed ==> {
            &&& cut_at_anchor(points, closed, i) matches PathCutView::Opened { points: q }
            &&& q.len() == points.len() + 1
            &&& q.first() == points[i] && q.last() == points[i]
            &&& q.drop_last().to_multiset() == points.to_multiset()
        },
        closed ==> {
            &&& cut_at_segment(points, closed, i, p) matches PathCutView::Opened { points: q }
            &&& q.len() == points.len() + 2
            &&& q.first() == p && q.last() == p
            &&& q.drop_first().drop_last().to_multiset() == points.to_multiset()
        },
        !closed && 0 < i < points.len() - 1 ==> {
            &&& cut_at_anchor(points, closed, i) matches PathCutView::Split { first, second }
            &&& first.last() == points[i] && second.first() == points[i]
            &&& first + second.drop_first() == points
        },
        !closed && i < points.len() - 1 ==> {
            &&& cut_at_segment(points, closed, i, p) matches PathCutView::Split { first, second }
            &&& first.last() == p && second.first() == p
            &&& first.drop_last() + second.drop_first() == points
        },
{
    broadcast use vstd::seq_lib::group_to_multiset_ensures;

    if closed {
        let q = points.skip(i) + points.take(i) + seq![points[i]];
        assert(q.drop_last() =~= points.skip(i) + points.take(i));
        vstd::seq_lib::lemma_multiset_commutative(points.skip(i), points.take(i));
        vstd::seq_lib::lemma_multiset_commutative(points.take(i), points.skip(i));
        assert(points.take(i) + points.skip(i) =~= points);
        let r = seq![p] + points.skip(i + 1) + points.take(i + 1) + seq![p];
        assert(r.drop_first().drop_last() =~= points.skip(i + 1) + points.take(i + 1));
        vstd::seq_lib::lemma_multiset_commutative(points.skip(i + 1), points.take(i + 1));
        vstd::seq_lib::lemma_multiset_commutative(points.take(i + 1), points.skip(i + 1));
        assert(points.take(i + 1) + points.skip(i + 1) =~= points);
    } else {
        assert(points.take(i + 1) + points.skip(i).drop_first() =~= points);
        let first = points.take(i + 1).push(p);
        let second = seq![p] + points.skip(i + 1);
        assert(first.drop_last() + second.drop_first() =~= points);
    }
}

} // verus!
