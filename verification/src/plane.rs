//! What points, vectors and boxes do, told by their coordinates.
//!
//! The laws speak of numbers with sixteen binary places; a coordinate is near where nothing is cut
//! off when a few of them are added.
use vstd::prelude::*;

use crate::fixed::Fixed;
use crate::geometry::{Pos2, Rect, Vec2};
use crate::scalar::Scalar;

verus! {

/// Whether a number is at most eight thousand one hundred and ninety-two, up or down.
pub open spec fn near(n: Fixed) -> bool {
    -0x2000_0000 <= n.raw <= 0x2000_0000
}

pub open spec fn near_point(p: Pos2<Fixed>) -> bool {
    near(p.x) && near(p.y)
}

/// Whether a box is near and right side out.
pub open spec fn near_box(b: Rect<Fixed>) -> bool {
    near_point(b.min) && near_point(b.max) && b.min.x.raw <= b.max.x.raw && b.min.y.raw
        <= b.max.y.raw
}

/// Whether a point is in a box or on its edge.
pub open spec fn in_box(b: Rect<Fixed>, p: Pos2<Fixed>) -> bool {
    b.min.x.raw <= p.x.raw <= b.max.x.raw && b.min.y.raw <= p.y.raw <= b.max.y.raw
}

/// Moving adds and taking back subtracts, each coordinate for itself.
pub proof fn law_points_move_by_vectors(p: Pos2<Fixed>, q: Pos2<Fixed>, v: Vec2<Fixed>)
    requires
        near_point(p),
        near_point(q),
        near(v.x) && near(v.y),
    ensures
        p.spec_plus(v).x.raw == p.x.raw + v.x.raw,
        p.spec_plus(v).y.raw == p.y.raw + v.y.raw,
        p.spec_minus(v).x.raw == p.x.raw - v.x.raw,
        p.spec_minus(v).y.raw == p.y.raw - v.y.raw,
        q.spec_plus(p.spec_from(q)) == p,
        p.spec_to_vec2().x == p.x && p.spec_to_vec2().y == p.y,
        v.spec_negated().x.raw == -v.x.raw && v.spec_negated().y.raw == -v.y.raw,
        Pos2::<Fixed>::spec_zero().x.raw == 0 && Pos2::<Fixed>::spec_zero().y.raw == 0,
        Vec2::<Fixed>::spec_zero().x.raw == 0 && Vec2::<Fixed>::spec_zero().y.raw == 0,
{
}

/// Vectors add up coordinate by coordinate, and one scaled and shrunk by the same whole number is
/// what it was.
pub proof fn law_vectors_add_and_scale(v: Vec2<Fixed>, w: Vec2<Fixed>, k: int)
    requires
        near(v.x) && near(v.y) && near(w.x) && near(w.y),
        1 <= k <= 16384,
        -0x7fff_ffff <= v.x.raw * k <= 0x7fff_ffff,
        -0x7fff_ffff <= v.y.raw * k <= 0x7fff_ffff,
    ensures
        v.spec_plus(w).x.raw == v.x.raw + w.x.raw,
        v.spec_plus(w).y.raw == v.y.raw + w.y.raw,
        v.spec_scaled(Fixed::spec_ratio(k, 1)).x.raw == v.x.raw * k,
        v.spec_scaled(Fixed::spec_ratio(k, 1)).y.raw == v.y.raw * k,
        v.spec_scaled(Fixed::spec_ratio(k, 1)).spec_shrunk(Fixed::spec_ratio(k, 1)) == v,
{
    lemma_scaled_back(v.x, k);
    lemma_scaled_back(v.y, k);
}

proof fn lemma_scaled_back(a: Fixed, k: int)
    requires
        1 <= k <= 16384,
        -0x7fff_ffff <= a.raw * k <= 0x7fff_ffff,
    ensures
        a.spec_times(Fixed::spec_ratio(k, 1)).raw == a.raw * k,
        a.spec_times(Fixed::spec_ratio(k, 1)).spec_over(Fixed::spec_ratio(k, 1)) == a,
{
    let n = Fixed::spec_ratio(k, 1);
    assert(n.raw == k * 65536);
    assert(a.raw * (k * 65536) == (a.raw * k) * 65536) by (nonlinear_arith);
    let b = a.spec_times(n);
    assert(b.raw == a.raw * k);
    assert(b.raw * 65536 == a.raw * (k * 65536)) by (nonlinear_arith)
        requires
            b.raw == a.raw * k,
    ;
    assert((a.raw * (k * 65536)) / (k * 65536) == a.raw) by (nonlinear_arith)
        requires
            k >= 1,
    ;
}

/// Lengths do not depend on the sign or the order of the coordinates, and along an axis they are
/// the coordinate.
pub proof fn law_lengths(v: Vec2<Fixed>, p: Pos2<Fixed>, q: Pos2<Fixed>)
    requires
        near(v.x) && near(v.y),
        near_point(p),
        near_point(q),
    ensures
        v.spec_length() == v.spec_negated().spec_length(),
        v.spec_length() == (Vec2 { x: v.y, y: v.x }).spec_length(),
        v.y.raw == 0 ==> v.spec_length() == v.x.spec_magnitude(),
        p.spec_distance(q) == q.spec_distance(p),
        p.spec_distance(p).raw == 0,
{
    assert((-v.x.raw) * (-v.x.raw) == v.x.raw * v.x.raw) by (nonlinear_arith);
    assert((-v.y.raw) * (-v.y.raw) == v.y.raw * v.y.raw) by (nonlinear_arith);
    let dx = p.x.raw - q.x.raw;
    let dy = p.y.raw - q.y.raw;
    assert((-dx) * (-dx) == dx * dx) by (nonlinear_arith);
    assert((-dy) * (-dy) == dy * dy) by (nonlinear_arith);
    assert(p.spec_from(q).x.raw == dx && q.spec_from(p).x.raw == -dx);
    assert(p.spec_from(q).y.raw == dy && q.spec_from(p).y.raw == -dy);
    let m = v.x.spec_magnitude().raw as int;
    assert(m * m == v.x.raw * v.x.raw) by (nonlinear_arith)
        requires
            m == v.x.raw || m == -v.x.raw,
    ;
    if v.y.raw == 0 {
        crate::fixed::lemma_whole_root(v.x.raw * v.x.raw + v.y.raw * v.y.raw, m);
    }
    crate::fixed::lemma_whole_root(0, 0);
    assert(p.spec_from(p).x.raw == 0 && p.spec_from(p).y.raw == 0);
}

/// A box contains the points between its edges, and another box where it contains all its points.
pub proof fn law_boxes_contain(a: Rect<Fixed>, b: Rect<Fixed>, p: Pos2<Fixed>)
    requires
        near_box(a),
        near_box(b),
    ensures
        a.spec_contains(p) == in_box(a, p),
        a.spec_contains_rect(b) == (forall|q: Pos2<Fixed>| in_box(b, q) ==> #[trigger] in_box(a, q)),
{
    if forall|q: Pos2<Fixed>| in_box(b, q) ==> #[trigger] in_box(a, q) {
        assert(in_box(b, b.min) && in_box(b, b.max));
        assert(in_box(a, b.min) && in_box(a, b.max));
    }
}

/// Boxes meet where they have a point in common; what they have in common is their intersection,
/// and their union is the least box around both.
pub proof fn law_boxes_meet(a: Rect<Fixed>, b: Rect<Fixed>, around: Rect<Fixed>)
    requires
        near_box(a),
        near_box(b),
    ensures
        a.spec_intersects(b) == (exists|q: Pos2<Fixed>| in_box(a, q) && #[trigger] in_box(b, q)),
        forall|q: Pos2<Fixed>| #[trigger]
            in_box(a.spec_intersect(b), q) == (in_box(a, q) && in_box(b, q)),
        forall|q: Pos2<Fixed>|
            in_box(a, q) || in_box(b, q) ==> #[trigger] in_box(a.spec_union(b), q),
        near_box(around) && (forall|q: Pos2<Fixed>|
            in_box(a, q) || in_box(b, q) ==> #[trigger] in_box(around, q)) ==> forall|
            q: Pos2<Fixed>,
        |
            in_box(a.spec_union(b), q) ==> #[trigger] in_box(around, q),
{
    if a.spec_intersects(b) {
        let q = a.spec_intersect(b).min;
        assert(in_box(a, q) && in_box(b, q));
    }
    if forall|q: Pos2<Fixed>| in_box(a, q) || in_box(b, q) ==> #[trigger] in_box(around, q) {
        assert(in_box(a, a.min) && in_box(a, a.max) && in_box(b, b.min) && in_box(b, b.max));
        assert(in_box(around, a.min) && in_box(around, a.max));
        assert(in_box(around, b.min) && in_box(around, b.max));
    }
}

/// A box between two points has them at its corners, in whatever order they come.
pub proof fn law_boxes_between_points(a: Pos2<Fixed>, b: Pos2<Fixed>)
    ensures
        ({
            let r = Rect::spec_from_two_pos(a, b);
            &&& r == Rect::spec_from_two_pos(b, a)
            &&& in_box(r, a) && in_box(r, b)
            &&& r.min.x == a.x || r.min.x == b.x
            &&& r.max.x == a.x || r.max.x == b.x
            &&& r.min.y == a.y || r.min.y == b.y
            &&& r.max.y == a.y || r.max.y == b.y
        }),
{
}

/// A box that is moved keeps its size, and its center is halfway between its edges; one made of a
/// corner or a center and a size has them.
pub proof fn law_boxes_move(b: Rect<Fixed>, v: Vec2<Fixed>, size: Vec2<Fixed>)
    requires
        near_box(b),
        near(v.x) && near(v.y),
        0 <= size.x.raw <= 0x1000_0000,
        0 <= size.y.raw <= 0x1000_0000,
    ensures
        ({
            let m = b.spec_translate(v);
            &&& m.min.x.raw == b.min.x.raw + v.x.raw
            &&& m.min.y.raw == b.min.y.raw + v.y.raw
            &&& m.max.x.raw == b.max.x.raw + v.x.raw
            &&& m.max.y.raw == b.max.y.raw + v.y.raw
        }),
        ({
            let c = b.spec_center();
            &&& 0 <= (b.max.x.raw - c.x.raw) - (c.x.raw - b.min.x.raw) <= 1
            &&& 0 <= (b.max.y.raw - c.y.raw) - (c.y.raw - b.min.y.raw) <= 1
        }),
        b.spec_width().raw == b.max.x.raw - b.min.x.raw,
        b.spec_height().raw == b.max.y.raw - b.min.y.raw,
        b.spec_size().x == b.spec_width() && b.spec_size().y == b.spec_height(),
        Rect::spec_from_min_size(b.min, size).min == b.min,
        Rect::spec_from_min_size(b.min, size).spec_size() == size,
        ({
            let r = Rect::spec_from_center_size(b.min, size);
            &&& 0 <= size.x.raw - r.spec_width().raw <= 1
            &&& 0 <= size.y.raw - r.spec_height().raw <= 1
            &&& r.spec_center() == b.min
        }),
{
    lemma_halved(b.min.x, b.max.x);
    lemma_halved(b.min.y, b.max.y);
    let h = size.spec_scaled(Fixed::spec_ratio(1, 2));
    assert(Fixed::spec_ratio(1, 2).raw == 32768);
    assert(h.x.raw == size.x.raw / 2) by {
        assert((size.x.raw * 32768) / 65536 == size.x.raw / 2);
    }
    assert(h.y.raw == size.y.raw / 2) by {
        assert((size.y.raw * 32768) / 65536 == size.y.raw / 2);
    }
    let r = Rect::spec_from_center_size(b.min, size);
    lemma_halved(r.min.x, r.max.x);
    lemma_halved(r.min.y, r.max.y);
}

/// The middle between two numbers, rounded down.
pub proof fn lemma_halved(a: Fixed, b: Fixed)
    requires
        -0x8000_0000 <= a.raw + b.raw < 0x8000_0000,
    ensures
        a.spec_plus(b).spec_over(Fixed::spec_ratio(2, 1)).raw == (a.raw + b.raw) / 2,
{
    assert(Fixed::spec_ratio(2, 1).raw == 131072);
    let n = a.raw + b.raw;
    assert((n * 65536) / 131072 == n / 2);
}

/// Half of a number, rounded down.
pub proof fn lemma_half(a: Fixed)
    ensures
        a.spec_over(Fixed::spec_ratio(2, 1)).raw == a.raw as int / 2,
{
    assert(Fixed::spec_ratio(2, 1).raw == 131072);
    assert((a.raw * 65536) / 131072 == a.raw as int / 2);
}

/// The sines and cosines of quarter turns.
pub proof fn lemma_quarters()
    ensures
        crate::fixed::sine_units(0) == 0,
        crate::fixed::sine_units(5898240) == 65536,
        crate::fixed::sine_units(11796480) == 0,
        crate::fixed::sine_units(17694720) == -65536,
        crate::fixed::sine_units(23592960) == 0,
        crate::fixed::sine_units(-5898240) == -65536,
{
    assert((0int / 256) * ((11796480 - 0) / 256int) == 0) by (nonlinear_arith);
    assert((5898240int / 256) * ((11796480 - 5898240) / 256int) == 530841600) by (nonlinear_arith);
    assert(0int % 23592960 == 0);
    assert(5898240int % 23592960 == 5898240);
    assert(11796480int % 23592960 == 11796480);
    assert(17694720int % 23592960 == 17694720);
    assert(23592960int % 23592960 == 0);
    assert((-5898240int) % 23592960 == 17694720);
    assert(crate::fixed::quotient(4int * 530841600 * 65536, 2654208000int - 530841600) == 65536);
}

/// A quarter turn takes what is to the right of the center below it, what is below it to the left,
/// and so on, at the same distances; two of them put a point on the other side, four bring it back,
/// and one the other way is undone by one.
pub proof fn law_quarter_turns(p: Pos2<Fixed>, c: Pos2<Fixed>)
    requires
        near_point(p),
        near_point(c),
        -0x1000_0000 <= p.x.raw - c.x.raw <= 0x1000_0000,
        -0x1000_0000 <= p.y.raw - c.y.raw <= 0x1000_0000,
    ensures
        ({
            let dx = p.x.raw - c.x.raw;
            let dy = p.y.raw - c.y.raw;
            let turn = |degrees: int| p.spec_rotated(c, Fixed::spec_ratio(degrees, 1));
            &&& turn(0) == p
            &&& turn(90).x.raw == c.x.raw - dy && turn(90).y.raw == c.y.raw + dx
            &&& turn(180).x.raw == c.x.raw - dx && turn(180).y.raw == c.y.raw - dy
            &&& turn(270).x.raw == c.x.raw + dy && turn(270).y.raw == c.y.raw - dx
            &&& turn(-90) == turn(270)
            &&& turn(360) == p
        }),
{
    lemma_quarters();
    assert(crate::fixed::sine_units(29491200) == 65536) by {
        assert(29491200int % 23592960 == 5898240);
    }
    let d = p.spec_from(c);
    let dx = p.x.raw - c.x.raw;
    let dy = p.y.raw - c.y.raw;
    assert(d.x.raw == dx && d.y.raw == dy);
    lemma_times_one(d.x);
    lemma_times_one(d.y);
}

/// Times one, minus one and nothing.
pub proof fn lemma_times_one(a: Fixed)
    requires
        a.raw > i32::MIN,
    ensures
        a.spec_times(Fixed { raw: 65536 }) == a,
        (Fixed { raw: 65536 }).spec_times(a) == a,
        a.spec_times(crate::fixed::held(-65536)).raw == -a.raw,
        a.spec_times(Fixed { raw: 0 }).raw == 0,
{
    assert((a.raw * 65536) / 65536 == a.raw);
    assert((65536 * a.raw) / 65536 == a.raw);
    assert((a.raw * -65536) / 65536 == -a.raw) by {
        assert(a.raw * -65536 == (-a.raw) * 65536);
    }
}

/// Turning by nothing turns nothing.
pub proof fn lemma_unturned(p: Pos2<Fixed>, c: Pos2<Fixed>)
    requires
        -0x4000_0000 <= p.x.raw <= 0x4000_0000,
        -0x4000_0000 <= p.y.raw <= 0x4000_0000,
        -0x3fff_ffff <= c.x.raw <= 0x3fff_ffff,
        -0x3fff_ffff <= c.y.raw <= 0x3fff_ffff,
    ensures
        p.spec_rotated(c, (Fixed { raw: 0 })) == p,
{
    lemma_quarters();
    let d = p.spec_from(c);
    lemma_times_one(d.x);
    lemma_times_one(d.y);
}

/// The box around a box turned upright holds each of its corners, turned.
#[verifier::spinoff_prover]
#[verifier::rlimit(60)]
pub proof fn law_a_turned_box_holds_its_corners(b: Rect<Fixed>, degrees: Fixed, i: int)
    requires
        0 <= i < 4,
    ensures
        b.spec_corners().len() == 4,
        in_box(
            b.spec_rotated_box(degrees),
            b.spec_corners()[i].spec_rotated(b.spec_center(), degrees),
        ),
        b.spec_corners()[0] == b.min,
        b.spec_corners()[1] == (Pos2 { x: b.max.x, y: b.min.y }),
        b.spec_corners()[2] == b.max,
        b.spec_corners()[3] == (Pos2 { x: b.min.x, y: b.max.y }),
{
    reveal(Rect::spec_rotated_box);
}

} // verus!
