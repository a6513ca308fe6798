//! Exact rational numbers: the coordinates, slopes and intercepts of the
//! geometry. No operation rounds.
use crate::integer::Integer;
use crate::natural::{is_greatest_common_divisor, lemma_lowest_terms};
use vstd::prelude::*;

verus! {

/// The real number `n / d`.
pub open spec fn quotient(n: int, d: int) -> real {
    n as real / d as real
}

/// The product of two whole numbers is the same taken as real numbers.
pub proof fn lemma_real_of_product(a: int, b: int)
    ensures
        (a * b) as real == a as real * b as real,
{
    assert((a * b) as real == a as real * b as real) by (nonlinear_arith);
}

/// Fractions are added over the product of their denominators.
pub proof fn lemma_quotient_sum(an: int, ad: int, bn: int, bd: int)
    requires
        ad != 0,
        bd != 0,
    ensures
        quotient(an * bd + bn * ad, ad * bd) == quotient(an, ad) + quotient(bn, bd),
{
    lemma_real_of_product(an, bd);
    lemma_real_of_product(bn, ad);
    lemma_real_of_product(ad, bd);
    let a = an as real;
    let b = ad as real;
    let c = bn as real;
    let d = bd as real;
    assert((a * d + c * b) / (b * d) == a / b + c / d) by (nonlinear_arith)
        requires
            b != 0real,
            d != 0real,
    ;
}

/// Fractions are multiplied part by part.
pub proof fn lemma_quotient_product(an: int, ad: int, bn: int, bd: int)
    requires
        ad != 0,
        bd != 0,
    ensures
        quotient(an * bn, ad * bd) == quotient(an, ad) * quotient(bn, bd),
{
    lemma_real_of_product(an, bn);
    lemma_real_of_product(ad, bd);
    let a = an as real;
    let b = ad as real;
    let c = bn as real;
    let d = bd as real;
    assert((a * c) / (b * d) == (a / b) * (c / d)) by (nonlinear_arith)
        requires
            b != 0real,
            d != 0real,
    ;
}

/// A fraction is divided by another by multiplying crosswise.
pub proof fn lemma_quotient_ratio(an: int, ad: int, bn: int, bd: int)
    requires
        ad != 0,
        bd != 0,
        bn != 0,
    ensures
        quotient(an * bd, ad * bn) == quotient(an, ad) / quotient(bn, bd),
{
    lemma_real_of_product(an, bd);
    lemma_real_of_product(ad, bn);
    let a = an as real;
    let b = ad as real;
    let c = bn as real;
    let d = bd as real;
    assert((a * d) / (b * c) == (a / b) / (c / d)) by (nonlinear_arith)
        requires
            b != 0real,
            c != 0real,
            d != 0real,
    ;
}

/// A sign moves from the numerator to the fraction, and two signs cancel.
pub proof fn lemma_quotient_negated(n: int, d: int)
    requires
        d != 0,
    ensures
        quotient(-n, d) == -quotient(n, d),
        quotient(-n, -d) == quotient(n, d),
{
    let a = n as real;
    let b = d as real;
    assert((-a) / b == -(a / b)) by (nonlinear_arith)
        requires
            b != 0real,
    ;
    assert((-a) / (-b) == a / b) by (nonlinear_arith)
        requires
            b != 0real,
    ;
}

/// Fractions with denominators above zero compare as their cross products.
pub proof fn lemma_quotient_order(an: int, ad: int, bn: int, bd: int)
    requires
        ad > 0,
        bd > 0,
    ensures
        quotient(an, ad) < quotient(bn, bd) <==> an * bd < bn * ad,
        quotient(an, ad) == quotient(bn, bd) <==> an * bd == bn * ad,
{
    lemma_real_of_product(an, bd);
    lemma_real_of_product(bn, ad);
    let a = an as real;
    let b = ad as real;
    let c = bn as real;
    let d = bd as real;
    assert(a / b < c / d <==> a * d < c * b) by (nonlinear_arith)
        requires
            b > 0real,
            d > 0real,
    ;
    assert(a / b == c / d <==> a * d == c * b) by (nonlinear_arith)
        requires
            b > 0real,
            d > 0real,
    ;
}

/// A common factor of numerator and denominator cancels.
pub proof fn lemma_quotient_scaled(n: int, d: int, g: int)
    requires
        d != 0,
        g != 0,
    ensures
        quotient(n * g, d * g) == quotient(n, d),
{
    lemma_real_of_product(n, g);
    lemma_real_of_product(d, g);
    let a = n as real;
    let b = d as real;
    let c = g as real;
    assert((a * c) / (b * c) == a / b) by (nonlinear_arith)
        requires
            b != 0real,
            c != 0real,
    ;
}

/// An exact rational number, kept as a fraction in lowest terms. Its view is
/// the real number it stands for.
#[derive(Debug)]
pub struct Scalar {
    num: Integer,
    den: Integer,
}

impl View for Scalar {
    type V = real;

    closed spec fn view(&self) -> real {
        quotient(self.num@, self.den@)
    }
}

impl Clone for Scalar {
    fn clone(&self) -> (r: Self)
        ensures
            r@ == self@,
    {
        proof {
            use_type_invariant(self);
        }
        Scalar { num: self.num.clone(), den: self.den.clone() }
    }
}

impl PartialEq for Scalar {
    fn eq(&self, other: &Scalar) -> (r: bool) {
        self.equals(other)
    }
}

impl vstd::std_specs::cmp::PartialEqSpecImpl for Scalar {
    open spec fn obeys_eq_spec() -> bool {
        true
    }

    open spec fn eq_spec(&self, other: &Scalar) -> bool {
        self@ == other@
    }
}

impl Scalar {
    #[verifier::type_invariant]
    closed spec fn in_lowest_terms(self) -> bool {
        self.den@ > 0 && is_greatest_common_divisor(
            1,
            Integer::spec_abs(self.num@),
            self.den@ as nat,
        )
    }

    /// The fraction `num / den` in lowest terms.
    fn lowest_terms(num: Integer, den: Integer) -> (r: Scalar)
        requires
            den@ > 0,
        ensures
            r@ == quotient(num@, den@),
    {
        let divisor = num.greatest_common_divisor(&den);
        let n = num.divided_exactly_by(&divisor);
        let d = den.divided_exactly_by(&divisor);
        proof {
            let g = divisor@;
            assert(d@ > 0) by (nonlinear_arith)
                requires
                    d@ * g == den@,
                    den@ > 0,
                    g > 0,
            ;
            lemma_quotient_scaled(n@, d@, g);
            assert(Integer::spec_abs(num@) == Integer::spec_abs(n@) * (g as nat))
                by (nonlinear_arith)
                requires
                    n@ * g == num@,
                    g > 0,
            ;
            lemma_lowest_terms(
                Integer::spec_abs(num@),
                den@ as nat,
                g as nat,
                Integer::spec_abs(n@),
                d@ as nat,
            );
        }
        Scalar { num: n, den: d }
    }

    /// The number `num / den`.
    pub fn from_parts(num: i64, den: i64) -> (r: Scalar)
        requires
            den != 0,
        ensures
            r@ == quotient(num as int, den as int),
    {
        let n = Integer::from_i64(num);
        let d = Integer::from_i64(den);
        if den < 0 {
            proof {
                lemma_quotient_negated(num as int, den as int);
            }
            Self::lowest_terms(n.negated(), d.negated())
        } else {
            Self::lowest_terms(n, d)
        }
    }

    /// The whole number `v`.
    pub fn from_whole(v: i64) -> (r: Scalar)
        ensures
            r@ == v as real,
    {
        assert(quotient(v as int, 1) == v as real) by (nonlinear_arith);
        Scalar { num: Integer::from_i64(v), den: Integer::from_i64(1) }
    }

    /// The numerator of the number written as a fraction in lowest terms.
    pub closed spec fn spec_numerator(&self) -> int {
        self.num@
    }

    /// The denominator of the number written as a fraction in lowest terms.
    pub closed spec fn spec_denominator(&self) -> int {
        self.den@
    }

    /// The numerator of the number written as a fraction in lowest terms,
    /// with a denominator above zero.
    pub fn numerator(&self) -> (r: Integer)
        ensures
            r@ == self.spec_numerator(),
            self@ == quotient(self.spec_numerator(), self.spec_denominator()),
            self.spec_denominator() > 0,
            is_greatest_common_divisor(
                1,
                Integer::spec_abs(self.spec_numerator()),
                self.spec_denominator() as nat,
            ),
    {
        proof {
            use_type_invariant(self);
        }
        self.num.clone()
    }

    /// The denominator that goes with [`Scalar::numerator`].
    pub fn denominator(&self) -> (r: Integer)
        ensures
            r@ == self.spec_denominator(),
            self@ == quotient(self.spec_numerator(), self.spec_denominator()),
            self.spec_denominator() > 0,
            is_greatest_common_divisor(
                1,
                Integer::spec_abs(self.spec_numerator()),
                self.spec_denominator() as nat,
            ),
    {
        proof {
            use_type_invariant(self);
        }
        self.den.clone()
    }

    /// The sum of two numbers.
    pub fn plus(&self, other: &Scalar) -> (r: Scalar)
        ensures
            r@ == self@ + other@,
    {
        proof {
            use_type_invariant(self);
            use_type_invariant(other);
            lemma_quotient_sum(self.num@, self.den@, other.num@, other.den@);
            let b = self.den@;
            let d = other.den@;
            assert(b * d > 0) by (nonlinear_arith)
                requires
                    b > 0,
                    d > 0,
            ;
        }
        let left = self.num.times(&other.den);
        let right = other.num.times(&self.den);
        Self::lowest_terms(left.plus(&right), self.den.times(&other.den))
    }

    /// The number with its sign turned.
    pub fn negated(&self) -> (r: Scalar)
        ensures
            r@ == -self@,
    {
        proof {
            use_type_invariant(self);
            lemma_quotient_negated(self.num@, self.den@);
        }
        Scalar { num: self.num.negated(), den: self.den.clone() }
    }

    /// The difference of two numbers.
    pub fn minus(&self, other: &Scalar) -> (r: Scalar)
        ensures
            r@ == self@ - other@,
    {
        let turned = other.negated();
        self.plus(&turned)
    }

    /// The product of two numbers.
    pub fn times(&self, other: &Scalar) -> (r: Scalar)
        ensures
            r@ == self@ * other@,
    {
        proof {
            use_type_invariant(self);
            use_type_invariant(other);
            lemma_quotient_product(self.num@, self.den@, other.num@, other.den@);
            let b = self.den@;
            let d = other.den@;
            assert(b * d > 0) by (nonlinear_arith)
                requires
                    b > 0,
                    d > 0,
            ;
        }
        Self::lowest_terms(self.num.times(&other.num), self.den.times(&other.den))
    }

    /// Whether the number is zero.
    pub fn is_zero(&self) -> (r: bool)
        ensures
            r == (self@ == 0real),
    {
        proof {
            use_type_invariant(self);
            lemma_quotient_order(self.num@, self.den@, 0, 1);
            assert(quotient(0, 1) == 0real) by (nonlinear_arith);
        }
        self.num.is_zero()
    }

    /// The quotient of two numbers.
    pub fn divided_by(&self, other: &Scalar) -> (r: Scalar)
        requires
            other@ != 0real,
        ensures
            r@ == self@ / other@,
    {
        proof {
            use_type_invariant(self);
            use_type_invariant(other);
            lemma_quotient_order(other.num@, other.den@, 0, 1);
            assert(quotient(0, 1) == 0real) by (nonlinear_arith);
            lemma_quotient_ratio(self.num@, self.den@, other.num@, other.den@);
            let b = self.den@;
            let c = other.num@;
            assert(c > 0 ==> b * c > 0) by (nonlinear_arith)
                requires
                    b > 0,
            ;
            assert(c < 0 ==> b * c < 0) by (nonlinear_arith)
                requires
                    b > 0,
            ;
            lemma_quotient_negated(self.num@ * other.den@, b * c);
        }
        let num = self.num.times(&other.den);
        let den = self.den.times(&other.num);
        if other.num.is_negative() {
            Self::lowest_terms(num.negated(), den.negated())
        } else {
            Self::lowest_terms(num, den)
        }
    }

    /// Whether this number is below the other.
    pub fn less_than(&self, other: &Scalar) -> (r: bool)
        ensures
            r == (self@ < other@),
    {
        proof {
            use_type_invariant(self);
            use_type_invariant(other);
            lemma_quotient_order(self.num@, self.den@, other.num@, other.den@);
        }
        let left = self.num.times(&other.den);
        let right = other.num.times(&self.den);
        left.less_than(&right)
    }

    /// Whether this number is at most the other.
    pub fn at_most(&self, other: &Scalar) -> (r: bool)
        ensures
            r == (self@ <= other@),
    {
        !other.less_than(self)
    }

    /// Whether the two numbers are the same.
    pub fn equals(&self, other: &Scalar) -> (r: bool)
        ensures
            r == (self@ == other@),
    {
        proof {
            use_type_invariant(self);
            use_type_invariant(other);
            lemma_quotient_order(self.num@, self.den@, other.num@, other.den@);
        }
        let left = self.num.times(&other.den);
        let right = other.num.times(&self.den);
        left.equals(&right)
    }

    /// Whether this number lies between `low` and `high`, both included.
    pub fn is_between(&self, low: &Scalar, high: &Scalar) -> (r: bool)
        ensures
            r == (low@ <= self@ <= high@),
    {
        low.at_most(self) && self.at_most(high)
    }
}

} // verus!
