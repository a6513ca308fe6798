//! Whole numbers of any size: a sign and a magnitude of 32-bit limbs.
use crate::natural;
use vstd::arithmetic::div_mod::lemma_fundamental_div_mod;
use vstd::prelude::*;

verus! {

/// A whole number of any size. Its view is the mathematical integer.
#[derive(Debug)]
pub struct Integer {
    negative: bool,
    magnitude: Vec<u32>,
}

impl View for Integer {
    type V = int;

    closed spec fn view(&self) -> int {
        if self.negative {
            -(natural::value(self.magnitude@) as int)
        } else {
            natural::value(self.magnitude@) as int
        }
    }
}

impl Clone for Integer {
    fn clone(&self) -> (r: Self)
        ensures
            r@ == self@,
    {
        proof {
            use_type_invariant(self);
        }
        Integer { negative: self.negative, magnitude: natural::copy(&self.magnitude) }
    }
}

impl Integer {
    #[verifier::type_invariant]
    closed spec fn magnitude_is_trimmed(self) -> bool {
        natural::trimmed(self.magnitude@)
    }

    /// The absolute value, as a natural number.
    pub open spec fn spec_abs(v: int) -> nat {
        if v < 0 {
            (-v) as nat
        } else {
            v as nat
        }
    }

    /// The number `v`.
    pub fn from_i64(v: i64) -> (r: Integer)
        ensures
            r@ == v,
    {
        if v >= 0 {
            Integer { negative: false, magnitude: natural::from_u64(v as u64) }
        } else {
            let below: u64 = (-(v + 1)) as u64;
            Integer { negative: true, magnitude: natural::from_u64(below + 1) }
        }
    }

    /// Whether the number is zero.
    pub fn is_zero(&self) -> (r: bool)
        ensures
            r == (self@ == 0),
    {
        let nothing: Vec<u32> = Vec::new();
        natural::at_least(&nothing, &self.magnitude)
    }

    /// Whether the number is below zero.
    pub fn is_negative(&self) -> (r: bool)
        ensures
            r == (self@ < 0),
    {
        self.negative && !self.is_zero()
    }

    /// Whether the number is above zero.
    pub fn is_positive(&self) -> (r: bool)
        ensures
            r == (self@ > 0),
    {
        !self.negative && !self.is_zero()
    }

    /// The limbs of the absolute value, lowest first, without zero limbs at
    /// the top.
    pub fn magnitude(&self) -> (r: Vec<u32>)
        ensures
            natural::value(r@) == Self::spec_abs(self@),
            natural::trimmed(r@),
    {
        proof {
            use_type_invariant(self);
        }
        natural::copy(&self.magnitude)
    }

    /// The number with its sign turned.
    pub fn negated(&self) -> (r: Integer)
        ensures
            r@ == -self@,
    {
        proof {
            use_type_invariant(self);
        }
        Integer { negative: !self.negative, magnitude: natural::copy(&self.magnitude) }
    }

    /// The sum of two numbers.
    pub fn plus(&self, other: &Integer) -> (r: Integer)
        ensures
            r@ == self@ + other@,
    {
        if self.negative == other.negative {
            Integer {
                negative: self.negative,
                magnitude: natural::sum(&self.magnitude, &other.magnitude),
            }
        } else {
            match natural::difference(&self.magnitude, &other.magnitude) {
                Some(gap) => Integer { negative: self.negative, magnitude: gap },
                None => Integer {
                    negative: other.negative,
                    magnitude: natural::difference(&other.magnitude, &self.magnitude).unwrap(),
                },
            }
        }
    }

    /// The difference of two numbers.
    pub fn minus(&self, other: &Integer) -> (r: Integer)
        ensures
            r@ == self@ - other@,
    {
        let turned = other.negated();
        self.plus(&turned)
    }

    /// The product of two numbers.
    pub fn times(&self, other: &Integer) -> (r: Integer)
        ensures
            r@ == self@ * other@,
    {
        let magnitude = natural::product(&self.magnitude, &other.magnitude);
        proof {
            let a = natural::value(self.magnitude@) as int;
            let b = natural::value(other.magnitude@) as int;
            assert((-a) * b == -(a * b)) by (nonlinear_arith);
            assert(a * (-b) == -(a * b)) by (nonlinear_arith);
            assert((-a) * (-b) == a * b) by (nonlinear_arith);
        }
        Integer { negative: self.negative != other.negative, magnitude }
    }

    /// Whether this number is below the other.
    pub fn less_than(&self, other: &Integer) -> (r: bool)
        ensures
            r == (self@ < other@),
    {
        self.minus(other).is_negative()
    }

    /// Whether this number is the other.
    pub fn equals(&self, other: &Integer) -> (r: bool)
        ensures
            r == (self@ == other@),
    {
        self.minus(other).is_zero()
    }

    /// The greatest common divisor of two numbers that are not both zero.
    /// It is above zero.
    pub fn greatest_common_divisor(&self, other: &Integer) -> (g: Integer)
        requires
            self@ != 0 || other@ != 0,
        ensures
            g@ > 0,
            natural::is_greatest_common_divisor(
                g@ as nat,
                Self::spec_abs(self@),
                Self::spec_abs(other@),
            ),
    {
        Integer {
            negative: false,
            magnitude: natural::greatest_common_divisor(&self.magnitude, &other.magnitude),
        }
    }

    /// The quotient of this number by one of its divisors.
    pub fn divided_exactly_by(&self, divisor: &Integer) -> (r: Integer)
        requires
            divisor@ > 0,
            natural::divides(divisor@ as nat, Self::spec_abs(self@)),
        ensures
            r@ * divisor@ == self@,
    {
        let (quotient, _) = natural::divide(&self.magnitude, &divisor.magnitude);
        proof {
            let a = natural::value(self.magnitude@) as int;
            let d = natural::value(divisor.magnitude@) as int;
            let q = natural::value(quotient@) as int;
            lemma_fundamental_div_mod(a, d);
            assert(q * d == d * q) by (nonlinear_arith);
            assert((-q) * d == -(q * d)) by (nonlinear_arith);
        }
        Integer { negative: self.negative, magnitude: quotient }
    }
}

} // verus!
