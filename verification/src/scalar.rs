//! The numbers that geometry is made of.
//!
//! Every coordinate, length, angle and opacity in the crate is a value of a
//! type that implements [`Scalar`]. The trait names each arithmetic operation
//! twice: once as an executable method and once as the spec function that the
//! method is held to, so a contract can say exactly which operations lead to a
//! result, and in which order, without fixing how the numbers are stored.
//! [`crate::fixed::Fixed`] is the implementation that lives in this crate.
use vstd::prelude::*;

verus! {

/// A number type for document geometry.
///
/// An implementation owes one thing: each executable method computes a function of its arguments
/// alone, the one that its spec function stands for. Nothing is assumed of the arithmetic itself;
/// where a result depends on how numbers compare, the function that needs it says so.
pub trait Scalar: Copy {
    /// The quotient `num / den` of two integers.
    closed spec fn spec_ratio(num: int, den: int) -> Self {
        arbitrary()
    }

    closed spec fn spec_plus(self, other: Self) -> Self {
        arbitrary()
    }

    closed spec fn spec_minus(self, other: Self) -> Self {
        arbitrary()
    }

    closed spec fn spec_times(self, other: Self) -> Self {
        arbitrary()
    }

    closed spec fn spec_over(self, other: Self) -> Self {
        arbitrary()
    }

    closed spec fn spec_negated(self) -> Self {
        arbitrary()
    }

    closed spec fn spec_magnitude(self) -> Self {
        arbitrary()
    }

    closed spec fn spec_lesser(self, other: Self) -> Self {
        arbitrary()
    }

    closed spec fn spec_greater(self, other: Self) -> Self {
        arbitrary()
    }

    closed spec fn spec_lt(self, other: Self) -> bool {
        arbitrary()
    }

    closed spec fn spec_le(self, other: Self) -> bool {
        arbitrary()
    }

    closed spec fn spec_same(self, other: Self) -> bool {
        arbitrary()
    }

    closed spec fn spec_rounded(self) -> Self {
        arbitrary()
    }

    closed spec fn spec_floored(self) -> Self {
        arbitrary()
    }

    closed spec fn spec_ceiled(self) -> Self {
        arbitrary()
    }

    closed spec fn spec_decade(self) -> Self {
        arbitrary()
    }

    closed spec fn spec_root(self) -> Self {
        arbitrary()
    }

    closed spec fn spec_hypot(self, other: Self) -> Self {
        arbitrary()
    }

    closed spec fn spec_sin_deg(self) -> Self {
        arbitrary()
    }

    closed spec fn spec_cos_deg(self) -> Self {
        arbitrary()
    }

    closed spec fn spec_atan2(self, x: Self) -> Self {
        arbitrary()
    }

    closed spec fn spec_to_degrees(self) -> Self {
        arbitrary()
    }

    closed spec fn spec_finite(self) -> bool {
        arbitrary()
    }

    closed spec fn spec_to_int(self) -> int {
        arbitrary()
    }

    /// `num / den`.
    fn ratio(num: i32, den: i32) -> (r: Self)
        requires
            den > 0,
        ensures
            r == Self::spec_ratio(num as int, den as int),
    ;

    /// A count as a number.
    fn of_count(n: u64) -> (r: Self)
        ensures
            r == Self::spec_ratio(n as int, 1),
    ;

    /// A whole number.
    fn of_int(n: i64) -> (r: Self)
        ensures
            r == Self::spec_ratio(n as int, 1),
    ;

    /// The sum.
    fn plus(self, other: Self) -> (r: Self)
        ensures
            r == self.spec_plus(other),
    ;

    /// The difference.
    fn minus(self, other: Self) -> (r: Self)
        ensures
            r == self.spec_minus(other),
    ;

    /// The product.
    fn times(self, other: Self) -> (r: Self)
        ensures
            r == self.spec_times(other),
    ;

    /// The quotient.
    fn over(self, other: Self) -> (r: Self)
        ensures
            r == self.spec_over(other),
    ;

    /// The value with its sign turned.
    fn negated(self) -> (r: Self)
        ensures
            r == self.spec_negated(),
    ;

    /// The value without its sign.
    fn magnitude(self) -> (r: Self)
        ensures
            r == self.spec_magnitude(),
    ;

    /// The smaller of two values.
    fn lesser(self, other: Self) -> (r: Self)
        ensures
            r == self.spec_lesser(other),
    ;

    /// The larger of two values.
    fn greater(self, other: Self) -> (r: Self)
        ensures
            r == self.spec_greater(other),
    ;

    /// `self < other`.
    fn is_lt(self, other: Self) -> (r: bool)
        ensures
            r == self.spec_lt(other),
    ;

    /// `self <= other`.
    fn is_le(self, other: Self) -> (r: bool)
        ensures
            r == self.spec_le(other),
    ;

    /// Whether the two compare equal.
    fn is_same(self, other: Self) -> (r: bool)
        ensures
            r == self.spec_same(other),
    ;

    /// The nearest whole number, halves away from zero.
    fn rounded(self) -> (r: Self)
        ensures
            r == self.spec_rounded(),
    ;

    /// The largest whole number that is not above the value.
    fn floored(self) -> (r: Self)
        ensures
            r == self.spec_floored(),
    ;

    /// The smallest whole number that is not below the value.
    fn ceiled(self) -> (r: Self)
        ensures
            r == self.spec_ceiled(),
    ;

    /// The largest power of ten that is not above a positive value.
    fn decade(self) -> (r: Self)
        ensures
            r == self.spec_decade(),
    ;

    /// The square root.
    fn root(self) -> (r: Self)
        ensures
            r == self.spec_root(),
    ;

    /// The length of the vector `(self, other)`.
    fn hypot(self, other: Self) -> (r: Self)
        ensures
            r == self.spec_hypot(other),
    ;

    /// The sine of an angle in degrees.
    fn sin_deg(self) -> (r: Self)
        ensures
            r == self.spec_sin_deg(),
    ;

    /// The cosine of an angle in degrees.
    fn cos_deg(self) -> (r: Self)
        ensures
            r == self.spec_cos_deg(),
    ;

    /// The angle, in radians, of the vector `(x, self)`.
    fn atan2(self, x: Self) -> (r: Self)
        ensures
            r == self.spec_atan2(x),
    ;

    /// An angle in radians, in degrees.
    fn to_degrees(self) -> (r: Self)
        ensures
            r == self.spec_to_degrees(),
    ;

    /// Whether the value is a number of finite size.
    fn is_finite(self) -> (r: bool)
        ensures
            r == self.spec_finite(),
    ;

    /// The whole part, clamped to the range of the result.
    fn to_i64(self) -> (r: i64)
        ensures
            r == clamp_int(self.spec_to_int(), i64::MIN as int, i64::MAX as int),
    ;
}

/// `v` moved into `lo..=hi`.
pub open spec fn clamp_int(v: int, lo: int, hi: int) -> int {
    if v < lo {
        lo
    } else if v > hi {
        hi
    } else {
        v
    }
}

/// Zero.
pub open spec fn zero<S: Scalar>() -> S {
    S::spec_ratio(0, 1)
}

/// One half.
pub open spec fn half<S: Scalar>() -> S {
    S::spec_ratio(1, 2)
}

/// The whole number `n`.
pub open spec fn whole<S: Scalar>(n: int) -> S {
    S::spec_ratio(n, 1)
}

/// `v` moved into the range from `lo` to `hi`.
pub open spec fn spec_clamped<S: Scalar>(v: S, lo: S, hi: S) -> S {
    if v.spec_lt(lo) {
        lo
    } else if hi.spec_lt(v) {
        hi
    } else {
        v
    }
}

/// `v` moved into the range from `lo` to `hi`.
pub fn clamped<S: Scalar>(v: S, lo: S, hi: S) -> (r: S)
    ensures
        r == spec_clamped(v, lo, hi),
{
    if v.is_lt(lo) {
        lo
    } else if hi.is_lt(v) {
        hi
    } else {
        v
    }
}

/// The index of the first smallest value: a later one is taken only where it is less.
pub open spec fn first_least<S: Scalar>(values: Seq<S>) -> int
    decreases values.len(),
{
    if values.len() <= 1 {
        0
    } else {
        let best = first_least(values.drop_last());
        if values.last().spec_lt(values[best]) {
            values.len() - 1
        } else {
            best
        }
    }
}

/// The first smallest of some values, found one value at a time.
pub(crate) struct Least<S> {
    pub best: Option<(usize, S)>,
}

impl<S: Scalar> Least<S> {
    /// Whether `best` is the first smallest of `values` and its index.
    pub(crate) open spec fn holds_for(&self, values: Seq<S>) -> bool {
        match self.best {
            Some((i, d)) => {
                &&& values.len() > 0
                &&& i == first_least(values)
                &&& 0 <= i < values.len()
                &&& d == values[i as int]
            },
            None => values.len() == 0,
        }
    }

    pub(crate) fn none() -> (r: Self)
        ensures
            r.holds_for(Seq::empty()),
    {
        Least { best: None }
    }

    /// Takes the value with index `i` into account.
    pub(crate) fn offer(&mut self, i: usize, d: S, Ghost(values): Ghost<Seq<S>>)
        requires
            old(self).holds_for(values),
            i == values.len(),
        ensures
            final(self).holds_for(values.push(d)),
    {
        assert(values.push(d).drop_last() =~= values);
        match self.best {
            Some((_, least)) => {
                if d.is_lt(least) {
                    self.best = Some((i, d));
                }
            },
            None => {
                self.best = Some((i, d));
            },
        }
    }
}

} // verus!
