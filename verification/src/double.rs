//! Double-precision numbers carried by their IEEE-754 bits, and the comparisons made of them.
use vstd::prelude::*;
use crate::duplicate::Duplicate;

verus! {

/// A double-precision number, as the 64 bits that encode it: the sign, then eleven bits of
/// exponent, then the fraction.
///
/// Scores and temperatures travel in this form. Nothing here adds or multiplies two of them; what
/// a search decides on is how they compare.
#[derive(Clone, Copy, Debug, PartialEq, Eq, Structural)]
pub struct Double {
    pub bits: u64,
}

/// The bits below the sign.
pub open spec fn magnitude(r: Double) -> int {
    if r.bits < 0x8000_0000_0000_0000 {
        r.bits as int
    } else {
        r.bits - 0x8000_0000_0000_0000
    }
}

/// Whether the bits encode no number: the largest exponent with a fraction that is not zero.
pub open spec fn is_nan(r: Double) -> bool {
    magnitude(r) > 0x7ff0_0000_0000_0000
}

/// Where a number stands among the others. The two zeros stand at the same place.
pub open spec fn rank(r: Double) -> int {
    if r.bits < 0x8000_0000_0000_0000 {
        magnitude(r)
    } else {
        -magnitude(r)
    }
}

/// Whether a number is zero, of either sign.
pub open spec fn is_zero(r: Double) -> bool {
    magnitude(r) == 0
}

/// `a > b`, which is false wherever either is not a number.
pub open spec fn exceeds(a: Double, b: Double) -> bool {
    !is_nan(a) && !is_nan(b) && rank(a) > rank(b)
}

/// `a >= b`, which is false wherever either is not a number.
pub open spec fn reaches(a: Double, b: Double) -> bool {
    !is_nan(a) && !is_nan(b) && rank(a) >= rank(b)
}

/// Where a value stands in the total order over all bit patterns, which puts the negative zero
/// below the positive one and what is no number at the two ends.
pub open spec fn total_rank(r: Double) -> int {
    if r.bits < 0x8000_0000_0000_0000 {
        magnitude(r)
    } else {
        -magnitude(r) - 1
    }
}

impl DeepView for Double {
    type V = Double;

    open spec fn deep_view(&self) -> Double {
        *self
    }
}

impl Duplicate for Double {
    fn duplicate(&self) -> (r: Self) {
        *self
    }
}

impl Double {
    /// The number these bits encode.
    pub fn from_bits(bits: u64) -> (r: Double)
        ensures
            r.bits == bits,
    {
        Double { bits }
    }

    /// Zero.
    pub fn zero() -> (r: Double)
        ensures
            r.bits == 0,
    {
        Double { bits: 0 }
    }

    /// One.
    pub fn one() -> (r: Double)
        ensures
            r.bits == 0x3ff0_0000_0000_0000,
    {
        Double { bits: 0x3ff0_0000_0000_0000 }
    }

    fn magnitude(self) -> (r: u64)
        ensures
            r == magnitude(self),
    {
        if self.bits < 0x8000_0000_0000_0000 {
            self.bits
        } else {
            self.bits - 0x8000_0000_0000_0000
        }
    }

    /// Whether this is no number at all.
    pub fn is_nan(self) -> (r: bool)
        ensures
            r == is_nan(self),
    {
        self.magnitude() > 0x7ff0_0000_0000_0000
    }

    /// Whether this is zero, of either sign.
    pub fn is_zero(self) -> (r: bool)
        ensures
            r == is_zero(self),
    {
        self.magnitude() == 0
    }

    /// `self > other`.
    pub fn exceeds(self, other: Double) -> (r: bool)
        ensures
            r == exceeds(self, other),
    {
        if self.is_nan() || other.is_nan() {
            return false;
        }
        let a: u64 = self.magnitude();
        let b: u64 = other.magnitude();
        match (self.bits < 0x8000_0000_0000_0000, other.bits < 0x8000_0000_0000_0000) {
            (true, true) => a > b,
            (false, false) => b > a,
            (true, false) => a > 0 || b > 0,
            (false, true) => false,
        }
    }

    /// `self >= other`.
    pub fn reaches(self, other: Double) -> (r: bool)
        ensures
            r == reaches(self, other),
    {
        !self.is_nan() && !other.is_nan() && !other.exceeds(self)
    }

    /// Whether this stands strictly above `other` in the total order over all bit patterns.
    pub fn above(self, other: Double) -> (r: bool)
        ensures
            r == (total_rank(self) > total_rank(other)),
    {
        let a: u64 = self.magnitude();
        let b: u64 = other.magnitude();
        match (self.bits < 0x8000_0000_0000_0000, other.bits < 0x8000_0000_0000_0000) {
            (true, true) => a > b,
            (false, false) => b > a,
            (true, false) => true,
            (false, true) => false,
        }
    }
}

/// `>` is a strict order: nothing exceeds itself, no two exceed each other, and it carries over.
pub proof fn law_exceeds_is_a_strict_order(a: Double, b: Double, c: Double)
    ensures
        !exceeds(a, a),
        exceeds(a, b) ==> !exceeds(b, a),
        exceeds(a, b) && exceeds(b, c) ==> exceeds(a, c),
{
}

/// The total order tells any two bit patterns apart, and agrees with `>` wherever that decides.
pub proof fn law_total_order_refines_exceeds(a: Double, b: Double)
    ensures
        total_rank(a) == total_rank(b) <==> a == b,
        exceeds(a, b) ==> total_rank(a) > total_rank(b),
{
}

/// Numbers compare as their bits do: of two that are not negative the one with the larger bits
/// exceeds the other, of two negative ones the one with the smaller, and one that is not negative
/// exceeds every negative one but where both are zero. `>=` is `>` or both standing at one place.
pub proof fn law_numbers_compare_by_their_bits(a: Double, b: Double)
    ensures
        is_nan(a) <==> 0x7ff0_0000_0000_0000 < a.bits < 0x8000_0000_0000_0000 || a.bits
            > 0xfff0_0000_0000_0000,
        is_zero(a) <==> a.bits == 0 || a.bits == 0x8000_0000_0000_0000,
        is_nan(a) || is_nan(b) ==> !exceeds(a, b) && !reaches(a, b),
        !is_nan(a) && !is_nan(b) ==> {
            let (low, high) = (
                a.bits < 0x8000_0000_0000_0000u64,
                b.bits < 0x8000_0000_0000_0000u64,
            );
            &&& low && high ==> (exceeds(a, b) <==> a.bits > b.bits)
            &&& !low && !high ==> (exceeds(a, b) <==> a.bits < b.bits)
            &&& low && !high ==> (exceeds(a, b) <==> !(is_zero(a) && is_zero(b)))
            &&& !low && high ==> !exceeds(a, b)
            &&& reaches(a, b) <==> !exceeds(b, a)
        },
        a.bits < 0x8000_0000_0000_0000 && b.bits >= 0x8000_0000_0000_0000 ==> total_rank(a)
            > total_rank(b),
        a.bits < b.bits < 0x8000_0000_0000_0000 ==> total_rank(a) < total_rank(b),
        0x8000_0000_0000_0000 <= a.bits < b.bits ==> total_rank(a) > total_rank(b),
{
}

} // verus!
