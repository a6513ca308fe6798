//! Arbitrary-size natural numbers, stored as little-endian limbs of 32 bits.
//!
//! A number is a `Vec<u32>`; trailing zero limbs are allowed and change
//! nothing. Every operation is stated over [`value`], the number a limb
//! sequence stands for.
use vstd::arithmetic::div_mod::{
    lemma_fundamental_div_mod, lemma_fundamental_div_mod_converse, lemma_mod_is_zero,
    lemma_mod_multiples_basic, lemma_mod_multiples_vanish, lemma_mod_self_0, lemma_small_mod,
};
use vstd::prelude::*;

verus! {

/// The weight of the limb at position `i`: 2^32 to the power `i`.
pub open spec fn weight(i: nat) -> nat
    decreases i,
{
    if i == 0 {
        1
    } else {
        0x1_0000_0000 * weight((i - 1) as nat)
    }
}

/// The limb at position `i`, zero past the end.
pub open spec fn limb_at(s: Seq<u32>, i: int) -> nat {
    if 0 <= i < s.len() {
        s[i] as nat
    } else {
        0
    }
}

/// The number made of the lowest `n` limbs of `s`.
pub open spec fn low_value(s: Seq<u32>, n: nat) -> nat
    decreases n,
{
    if n == 0 {
        0
    } else {
        low_value(s, (n - 1) as nat) + limb_at(s, n - 1) * weight((n - 1) as nat)
    }
}

/// The number that the limbs `s` stand for.
pub open spec fn value(s: Seq<u32>) -> nat {
    low_value(s, s.len())
}

/// Whether the limbs have no zero limb at the top.
pub open spec fn trimmed(s: Seq<u32>) -> bool {
    s.len() == 0 || s.last() != 0
}

/// The weight of a position is the product of the weights of two positions
/// that add up to it.
pub proof fn lemma_weight_sum(i: nat, j: nat)
    ensures
        weight(i + j) == weight(i) * weight(j),
    decreases j,
{
    if j == 0 {
        assert(weight(i) * 1 == weight(i)) by (nonlinear_arith);
    } else {
        lemma_weight_sum(i, (j - 1) as nat);
        let a = weight(i);
        let b = weight((j - 1) as nat);
        assert(weight(i + j) == 0x1_0000_0000 * weight((i + j - 1) as nat));
        assert(0x1_0000_0000 * (a * b) == a * (0x1_0000_0000 * b)) by (nonlinear_arith);
    }
}

/// The lowest `n` limbs stand for a number below `weight(n)`.
pub proof fn lemma_low_value_bound(s: Seq<u32>, n: nat)
    ensures
        low_value(s, n) < weight(n),
    decreases n,
{
    if n > 0 {
        lemma_low_value_bound(s, (n - 1) as nat);
        let w = weight((n - 1) as nat);
        let d = limb_at(s, n - 1);
        assert(d * w <= 0xffff_ffff * w) by (nonlinear_arith)
            requires
                d <= 0xffff_ffff,
        ;
    }
}

/// Limbs past the end add nothing.
pub proof fn lemma_low_value_past_end(s: Seq<u32>, n: nat)
    requires
        n >= s.len(),
    ensures
        low_value(s, n) == value(s),
    decreases n,
{
    if n > s.len() {
        lemma_low_value_past_end(s, (n - 1) as nat);
        let w = weight((n - 1) as nat);
        assert(0 * w == 0) by (nonlinear_arith);
    }
}

/// The low limbs of a sequence do not see what is pushed after them.
pub proof fn lemma_low_value_push(s: Seq<u32>, x: u32, n: nat)
    requires
        n <= s.len(),
    ensures
        low_value(s.push(x), n) == low_value(s, n),
    decreases n,
{
    if n > 0 {
        lemma_low_value_push(s, x, (n - 1) as nat);
    }
}

/// Pushing a limb adds it at the weight of its position.
pub proof fn lemma_value_push(s: Seq<u32>, x: u32)
    ensures
        value(s.push(x)) == value(s) + x * weight(s.len()),
{
    lemma_low_value_push(s, x, s.len());
}

/// The limb at position `i`, zero past the end.
fn limb(v: &Vec<u32>, i: usize) -> (r: u32)
    ensures
        r == limb_at(v@, i as int),
{
    if i < v.len() {
        v[i]
    } else {
        0
    }
}

/// A sequence that ends in a zero limb stands for the same number without it.
pub proof fn lemma_value_drop_zero(s: Seq<u32>)
    requires
        s.len() > 0,
        s.last() == 0,
    ensures
        value(s.drop_last()) == value(s),
{
    let w = weight(s.drop_last().len());
    lemma_value_push(s.drop_last(), 0);
    assert(s.drop_last().push(0) =~= s);
    assert(0 * w == 0) by (nonlinear_arith);
}

/// Removes the zero limbs at the top.
pub fn trim(v: &mut Vec<u32>)
    ensures
        value(final(v)@) == value(old(v)@),
        final(v)@.len() <= old(v)@.len(),
        trimmed(final(v)@),
{
    while v.len() > 0 && v[v.len() - 1] == 0
        invariant
            value(v@) == value(old(v)@),
            v@.len() <= old(v)@.len(),
        decreases v@.len(),
    {
        proof {
            lemma_value_drop_zero(v@);
            assert(v@.subrange(0, v@.len() - 1) =~= v@.drop_last());
        }
        v.pop();
    }
}

/// A copy of the limbs.
pub fn copy(v: &Vec<u32>) -> (r: Vec<u32>)
    ensures
        r@ == v@,
{
    let mut r: Vec<u32> = Vec::new();
    let mut i: usize = 0;
    while i < v.len()
        invariant
            i <= v.len(),
            r@ == v@.subrange(0, i as int),
        decreases v.len() - i,
    {
        r.push(v[i]);
        proof {
            assert(r@ =~= v@.subrange(0, i + 1));
        }
        i += 1;
    }
    proof {
        assert(v@.subrange(0, v@.len() as int) =~= v@);
    }
    r
}

/// The number `v` as limbs.
pub fn from_u64(v: u64) -> (r: Vec<u32>)
    ensures
        value(r@) == v,
        trimmed(r@),
{
    let low: u32 = (v % 0x1_0000_0000) as u32;
    let high: u32 = (v / 0x1_0000_0000) as u32;
    let mut r: Vec<u32> = Vec::new();
    proof {
        lemma_value_push(r@, low);
        lemma_value_push(r@.push(low), high);
        assert(value(r@) == 0);
        assert(weight(0) == 1);
        assert(weight(1) == 0x1_0000_0000 * weight(0));
        assert(low * 1 + high * 0x1_0000_0000 == v) by (nonlinear_arith)
            requires
                low == v % 0x1_0000_0000,
                high == v / 0x1_0000_0000,
        ;
    }
    r.push(low);
    r.push(high);
    trim(&mut r);
    r
}

/// The sum of two numbers.
pub fn sum(a: &Vec<u32>, b: &Vec<u32>) -> (r: Vec<u32>)
    ensures
        value(r@) == value(a@) + value(b@),
        trimmed(r@),
{
    let n: usize = if a.len() >= b.len() {
        a.len()
    } else {
        b.len()
    };
    let mut r: Vec<u32> = Vec::new();
    let mut carry: u64 = 0;
    let mut i: usize = 0;
    while i < n
        invariant
            i <= n,
            r@.len() == i,
            carry <= 1,
            value(r@) + carry * weight(i as nat) == low_value(a@, i as nat) + low_value(
                b@,
                i as nat,
            ),
        decreases n - i,
    {
        let x: u32 = limb(a, i);
        let y: u32 = limb(b, i);
        let t: u64 = x as u64 + y as u64 + carry;
        let digit: u32 = (t % 0x1_0000_0000) as u32;
        let next: u64 = t / 0x1_0000_0000;
        proof {
            let w = weight(i as nat);
            lemma_value_push(r@, digit);
            assert(digit * w + next * (0x1_0000_0000 * w) == x * w + y * w + carry * w)
                by (nonlinear_arith)
                requires
                    digit + next * 0x1_0000_0000 == x + y + carry,
            ;
        }
        r.push(digit);
        carry = next;
        i += 1;
    }
    proof {
        lemma_value_push(r@, carry as u32);
        lemma_low_value_past_end(a@, n as nat);
        lemma_low_value_past_end(b@, n as nat);
    }
    r.push(carry as u32);
    trim(&mut r);
    r
}

/// The difference `a - b`, or nothing where `a` is the smaller number.
pub fn difference(a: &Vec<u32>, b: &Vec<u32>) -> (r: Option<Vec<u32>>)
    ensures
        r is Some == (value(a@) >= value(b@)),
        r is Some ==> value(r->Some_0@) == value(a@) - value(b@) && trimmed(r->Some_0@),
{
    let n: usize = if a.len() >= b.len() {
        a.len()
    } else {
        b.len()
    };
    let mut r: Vec<u32> = Vec::new();
    let mut borrow: u64 = 0;
    let mut i: usize = 0;
    while i < n
        invariant
            i <= n,
            r@.len() == i,
            borrow <= 1,
            value(r@) + low_value(b@, i as nat) == low_value(a@, i as nat) + borrow * weight(
                i as nat,
            ),
        decreases n - i,
    {
        let x: u64 = limb(a, i) as u64;
        let y: u64 = limb(b, i) as u64 + borrow;
        let digit: u32;
        let next: u64;
        if x >= y {
            digit = (x - y) as u32;
            next = 0;
        } else {
            digit = (x + 0x1_0000_0000 - y) as u32;
            next = 1;
        }
        proof {
            let w = weight(i as nat);
            let lb = limb_at(b@, i as int);
            lemma_value_push(r@, digit);
            assert(digit * w + lb * w + borrow * w == x * w + next * (0x1_0000_0000 * w))
                by (nonlinear_arith)
                requires
                    digit + lb + borrow == x + next * 0x1_0000_0000,
            ;
        }
        r.push(digit);
        borrow = next;
        i += 1;
    }
    proof {
        lemma_low_value_past_end(a@, n as nat);
        lemma_low_value_past_end(b@, n as nat);
        lemma_low_value_bound(r@, n as nat);
        let w = weight(n as nat);
        assert(borrow * w == if borrow == 0 { 0 } else { w }) by (nonlinear_arith)
            requires
                borrow <= 1,
        ;
    }
    // A borrow past the top limb is left exactly when `a` is the smaller.
    if borrow == 1 {
        None
    } else {
        trim(&mut r);
        Some(r)
    }
}

/// Whether `a` is at least `b`.
pub fn at_least(a: &Vec<u32>, b: &Vec<u32>) -> (r: bool)
    ensures
        r == (value(a@) >= value(b@)),
{
    difference(a, b).is_some()
}

/// The limbs of `b` times the limb `m`, moved up by `shift` positions.
fn scaled(b: &Vec<u32>, m: u32, shift: usize) -> (r: Vec<u32>)
    ensures
        value(r@) == value(b@) * m * weight(shift as nat),
{
    let mut r: Vec<u32> = Vec::new();
    let mut k: usize = 0;
    while k < shift
        invariant
            k <= shift,
            r@.len() == k,
            value(r@) == 0,
        decreases shift - k,
    {
        proof {
            lemma_value_push(r@, 0);
            let w = weight(k as nat);
            assert(0 * w == 0) by (nonlinear_arith);
        }
        r.push(0);
        k += 1;
    }
    let mut carry: u64 = 0;
    let mut j: usize = 0;
    proof {
        let w = weight(shift as nat);
        assert(0 * w == 0) by (nonlinear_arith);
        assert(0 * m * w == 0) by (nonlinear_arith);
    }
    while j < b.len()
        invariant
            j <= b.len(),
            r@.len() == shift + j,
            carry <= 0xffff_ffff,
            value(r@) + carry * weight((shift + j) as nat) == low_value(b@, j as nat) * m * weight(
                shift as nat,
            ),
        decreases b.len() - j,
    {
        let x: u32 = b[j];
        assert(x * m + carry <= 0xffff_ffff * 0x1_0000_0000) by (nonlinear_arith)
            requires
                x <= 0xffff_ffff,
                m <= 0xffff_ffff,
                carry <= 0xffff_ffff,
        ;
        let t: u64 = (x as u64) * (m as u64) + carry;
        let digit: u32 = (t % 0x1_0000_0000) as u32;
        let next: u64 = t / 0x1_0000_0000;
        proof {
            let ws = weight(shift as nat);
            let wj = weight(j as nat);
            let w = weight((shift + j) as nat);
            let low = low_value(b@, j as nat);
            lemma_weight_sum(shift as nat, j as nat);
            lemma_value_push(r@, digit);
            assert(weight((shift + j + 1) as nat) == 0x1_0000_0000 * w);
            assert(digit * w + next * (0x1_0000_0000 * w) == carry * w + x * m * w)
                by (nonlinear_arith)
                requires
                    digit + next * 0x1_0000_0000 == x * m + carry,
            ;
            assert(low * m * ws + x * m * w == (low + x * wj) * m * ws) by (nonlinear_arith)
                requires
                    w == ws * wj,
            ;
        }
        r.push(digit);
        carry = next;
        j += 1;
    }
    proof {
        lemma_value_push(r@, carry as u32);
    }
    r.push(carry as u32);
    r
}

/// The product of two numbers.
pub fn product(a: &Vec<u32>, b: &Vec<u32>) -> (r: Vec<u32>)
    ensures
        value(r@) == value(a@) * value(b@),
        trimmed(r@),
{
    let mut r: Vec<u32> = Vec::new();
    let mut i: usize = 0;
    proof {
        let vb = value(b@);
        assert(0 * vb == 0) by (nonlinear_arith);
    }
    while i < a.len()
        invariant
            i <= a.len(),
            value(r@) == low_value(a@, i as nat) * value(b@),
            trimmed(r@),
        decreases a.len() - i,
    {
        let part = scaled(b, a[i], i);
        proof {
            let vb = value(b@);
            let w = weight(i as nat);
            let low = low_value(a@, i as nat);
            let x = a@[i as int];
            assert(low * vb + vb * x * w == (low + x * w) * vb) by (nonlinear_arith);
        }
        r = sum(&r, &part);
        i += 1;
    }
    r
}

/// The lowest limbs of a sequence with a limb put in front.
pub proof fn lemma_low_value_prepend(x: u32, s: Seq<u32>, n: nat)
    ensures
        low_value(seq![x] + s, n + 1) == x + 0x1_0000_0000 * low_value(s, n),
    decreases n,
{
    let t = seq![x] + s;
    if n == 0 {
        assert(low_value(t, 1) == low_value(t, 0) + limb_at(t, 0) * weight(0));
        assert(x * 1 == x) by (nonlinear_arith);
    } else {
        lemma_low_value_prepend(x, s, (n - 1) as nat);
        let w = weight((n - 1) as nat);
        let d = limb_at(s, n - 1);
        let low = low_value(s, (n - 1) as nat);
        assert(limb_at(t, n as int) == d);
        assert(weight(n) == 0x1_0000_0000 * w);
        assert(0x1_0000_0000 * low + d * (0x1_0000_0000 * w) == 0x1_0000_0000 * (low + d * w))
            by (nonlinear_arith);
    }
}

/// A limb put in front moves every other limb up by one position.
pub proof fn lemma_value_prepend(x: u32, s: Seq<u32>)
    ensures
        value(seq![x] + s) == x + 0x1_0000_0000 * value(s),
{
    lemma_low_value_prepend(x, s, s.len());
}

/// The limbs of `v` with the limb `x` in front of them.
pub fn prepend(x: u32, v: &Vec<u32>) -> (r: Vec<u32>)
    ensures
        r@ == seq![x] + v@,
{
    let mut r: Vec<u32> = Vec::new();
    r.push(x);
    let mut i: usize = 0;
    while i < v.len()
        invariant
            i <= v.len(),
            r@ == seq![x] + v@.subrange(0, i as int),
        decreases v.len() - i,
    {
        r.push(v[i]);
        proof {
            assert(r@ =~= seq![x] + v@.subrange(0, i + 1));
        }
        i += 1;
    }
    proof {
        assert(v@.subrange(0, v@.len() as int) =~= v@);
    }
    r
}

/// Whether the number is zero.
pub fn is_zero(v: &Vec<u32>) -> (r: bool)
    ensures
        r == (value(v@) == 0),
{
    let nothing: Vec<u32> = Vec::new();
    at_least(&nothing, v)
}

/// The quotient and the remainder of `a` divided by `b`.
pub fn divide(a: &Vec<u32>, b: &Vec<u32>) -> (r: (Vec<u32>, Vec<u32>))
    requires
        value(b@) > 0,
    ensures
        value(r.0@) == value(a@) / value(b@),
        value(r.1@) == value(a@) % value(b@),
        trimmed(r.0@),
        trimmed(r.1@),
{
    let mut quotient: Vec<u32> = Vec::new();
    let mut rest: Vec<u32> = Vec::new();
    let mut j: usize = a.len();
    proof {
        let vb = value(b@);
        assert(a@.skip(j as int) =~= Seq::empty());
        assert(0 * vb == 0) by (nonlinear_arith);
    }
    while j > 0
        invariant
            j <= a.len(),
            value(b@) > 0,
            value(a@.skip(j as int)) == value(quotient@) * value(b@) + value(rest@),
            value(rest@) < value(b@),
            trimmed(rest@),
        decreases j,
    {
        j -= 1;
        let current = prepend(a[j], &rest);
        let ghost vb = value(b@);
        let ghost vc = value(current@);
        proof {
            lemma_value_prepend(a@[j as int], rest@);
            lemma_value_prepend(a@[j as int], a@.skip(j + 1));
            assert(a@.skip(j as int) =~= seq![a@[j as int]] + a@.skip(j + 1));
            assert(0 * vb == 0) by (nonlinear_arith);
        }
        // The digit is the largest `low` with `low * b <= current`.
        let mut low: u64 = 0;
        let mut high: u64 = 0x1_0000_0000;
        while high - low > 1
            invariant
                low < high <= 0x1_0000_0000,
                vb == value(b@),
                vc == value(current@),
                low * vb <= vc < high * vb,
            decreases high - low,
        {
            let middle: u64 = low + (high - low) / 2;
            let multiple = scaled(b, middle as u32, 0);
            proof {
                assert(vb * middle * 1 == middle * vb) by (nonlinear_arith);
            }
            if at_least(&current, &multiple) {
                low = middle;
            } else {
                high = middle;
            }
        }
        let multiple = scaled(b, low as u32, 0);
        proof {
            assert(vb * low * 1 == low * vb) by (nonlinear_arith);
            assert((low + 1) * vb == low * vb + vb) by (nonlinear_arith);
        }
        let left = difference(&current, &multiple).unwrap();
        proof {
            let vq = value(quotient@);
            lemma_value_prepend(low as u32, quotient@);
            assert((low + 0x1_0000_0000 * vq) * vb == low * vb + 0x1_0000_0000 * (vq * vb))
                by (nonlinear_arith);
        }
        rest = left;
        quotient = prepend(low as u32, &quotient);
    }
    proof {
        assert(a@.skip(0) =~= a@);
        lemma_fundamental_div_mod_converse(
            value(a@) as int,
            value(b@) as int,
            value(quotient@) as int,
            value(rest@) as int,
        );
    }
    trim(&mut quotient);
    (quotient, rest)
}

/// Whether `d` divides `n`.
pub open spec fn divides(d: nat, n: nat) -> bool {
    d > 0 && n % d == 0
}

/// Whether `g` is the greatest common divisor of `a` and `b`: it divides
/// both, and whatever divides both divides it.
pub open spec fn is_greatest_common_divisor(g: nat, a: nat, b: nat) -> bool {
    &&& divides(g, a)
    &&& divides(g, b)
    &&& forall|c: nat| divides(c, a) && divides(c, b) ==> #[trigger] divides(c, g)
}

/// What divides a number and a divisor of it is what divides the divisor
/// and the remainder.
pub proof fn lemma_divisors_of_remainder(c: nat, x: nat, y: nat)
    requires
        y > 0,
    ensures
        (divides(c, x) && divides(c, y)) <==> (divides(c, y) && divides(c, x % y)),
{
    if divides(c, y) {
        let q = (x / y) as int;
        let k = (y / c) as int;
        let r = (x % y) as int;
        lemma_fundamental_div_mod(x as int, y as int);
        lemma_fundamental_div_mod(y as int, c as int);
        assert(y == c * k);
        assert(x == c * (k * q) + r) by (nonlinear_arith)
            requires
                x == y * q + r,
                y == c * k,
        ;
        lemma_mod_multiples_vanish(k * q, r, c as int);
    }
}

/// The greatest common divisor of two numbers that are not both zero.
pub fn greatest_common_divisor(a: &Vec<u32>, b: &Vec<u32>) -> (g: Vec<u32>)
    requires
        value(a@) > 0 || value(b@) > 0,
    ensures
        is_greatest_common_divisor(value(g@), value(a@), value(b@)),
        trimmed(g@),
{
    let mut x = copy(a);
    let mut y = copy(b);
    trim(&mut x);
    trim(&mut y);
    while !is_zero(&y)
        invariant
            value(x@) > 0 || value(y@) > 0,
            trimmed(x@),
            trimmed(y@),
            forall|c: nat|
                (#[trigger] divides(c, value(x@)) && divides(c, value(y@))) <==> (divides(
                    c,
                    value(a@),
                ) && divides(c, value(b@))),
        decreases value(y@),
    {
        let (_, rest) = divide(&x, &y);
        proof {
            let vx = value(x@);
            let vy = value(y@);
            assert forall|c: nat|
                (#[trigger] divides(c, vy) && divides(c, vx % vy)) <==> (divides(c, value(a@))
                    && divides(c, value(b@))) by {
                lemma_divisors_of_remainder(c, vx, vy);
                assert((divides(c, vx) && divides(c, vy)) <==> (divides(c, value(a@)) && divides(
                    c,
                    value(b@),
                )));
            }
        }
        x = y;
        y = rest;
    }
    proof {
        let vx = value(x@);
        lemma_mod_self_0(vx as int);
        assert(divides(vx, vx));
        assert(divides(vx, 0)) by {
            lemma_small_mod(0, vx);
        }
        assert forall|c: nat| divides(c, value(a@)) && divides(c, value(b@)) implies #[trigger] divides(
            c,
            vx,
        ) by {
            assert(divides(c, value(x@)) && divides(c, value(y@)));
        }
    }
    x
}

/// Two numbers divided by their greatest common divisor have no common
/// divisor but one.
pub proof fn lemma_lowest_terms(n: nat, d: nat, g: nat, n1: nat, d1: nat)
    requires
        is_greatest_common_divisor(g, n, d),
        n == n1 * g,
        d == d1 * g,
    ensures
        is_greatest_common_divisor(1, n1, d1),
{
    assert forall|c: nat| divides(c, n1) && divides(c, d1) implies #[trigger] divides(c, 1) by {
        let k1 = n1 / c;
        let k2 = d1 / c;
        lemma_fundamental_div_mod(n1 as int, c as int);
        lemma_fundamental_div_mod(d1 as int, c as int);
        assert(c * g > 0) by (nonlinear_arith)
            requires
                c > 0,
                g > 0,
        ;
        assert(n == k1 * (c * g)) by (nonlinear_arith)
            requires
                n == n1 * g,
                n1 == c * k1,
        ;
        assert(d == k2 * (c * g)) by (nonlinear_arith)
            requires
                d == d1 * g,
                d1 == c * k2,
        ;
        lemma_mod_multiples_basic(k1 as int, (c * g) as int);
        lemma_mod_multiples_basic(k2 as int, (c * g) as int);
        assert(divides(c * g, n) && divides(c * g, d));
        assert(divides(c * g, g));
        lemma_mod_is_zero(g, c * g);
        assert(c == 1) by (nonlinear_arith)
            requires
                g >= c * g,
                g > 0,
                c > 0,
        ;
    }
}

} // verus!
