use sightline::integer::Integer;
use sightline::natural;
use sightline::scalar::Scalar;

#[test]
fn natural_from_u64_splits_into_limbs() {
    assert_eq!(natural::from_u64(0), Vec::<u32>::new());
    assert_eq!(natural::from_u64(7), vec![7]);
    assert_eq!(natural::from_u64(0x1_0000_0002), vec![2, 1]);
    assert_eq!(natural::from_u64(u64::MAX), vec![0xffff_ffff, 0xffff_ffff]);
}

#[test]
fn natural_sum_carries_into_a_new_limb() {
    let a = natural::from_u64(u64::MAX);
    let b = natural::from_u64(1);
    assert_eq!(natural::sum(&a, &b), vec![0, 0, 1]);
    assert_eq!(natural::sum(&b, &a), vec![0, 0, 1]);
}

#[test]
fn natural_sum_with_nothing_is_the_number() {
    let a = natural::from_u64(0x5_0000_0001);
    let nothing: Vec<u32> = Vec::new();
    assert_eq!(natural::sum(&a, &nothing), vec![1, 5]);
}

#[test]
fn natural_difference_borrows_from_the_top() {
    let a = vec![0, 0, 1];
    let b = natural::from_u64(1);
    assert_eq!(natural::difference(&a, &b), Some(vec![0xffff_ffff, 0xffff_ffff]));
}

#[test]
fn natural_difference_is_nothing_when_the_first_is_smaller() {
    let a = natural::from_u64(5);
    let b = vec![0, 1];
    assert_eq!(natural::difference(&a, &b), None);
    assert_eq!(natural::difference(&b, &a), Some(vec![0xffff_fffb]));
    assert_eq!(natural::difference(&a, &a), Some(Vec::new()));
}

#[test]
fn natural_at_least_ignores_zero_limbs_at_the_top() {
    let a = vec![5, 0, 0];
    let b = vec![5];
    assert!(natural::at_least(&a, &b));
    assert!(natural::at_least(&b, &a));
    assert!(!natural::at_least(&b, &vec![6]));
}

#[test]
fn natural_product_of_two_limbs() {
    let a = natural::from_u64(0xffff_ffff);
    assert_eq!(natural::product(&a, &a), vec![1, 0xffff_fffe]);
}

#[test]
fn natural_product_beyond_128_bits() {
    // 12345678901234567890 * 10000000000 + 1234567890 = 123456789012345678901234567890
    let a = natural::from_u64(12345678901234567890);
    let b = natural::from_u64(10000000000);
    let c = natural::from_u64(1234567890);
    let r = natural::sum(&natural::product(&a, &b), &c);
    assert_eq!(r, vec![1312754386, 3279151342, 2397638646, 1]);
}

#[test]
fn natural_product_with_zero_is_zero() {
    let a = natural::from_u64(12345);
    let nothing: Vec<u32> = Vec::new();
    assert_eq!(natural::product(&a, &nothing), Vec::<u32>::new());
    assert_eq!(natural::product(&nothing, &a), Vec::<u32>::new());
}

#[test]
fn natural_trim_drops_only_top_zeros() {
    let mut v = vec![0, 3, 0, 0];
    natural::trim(&mut v);
    assert_eq!(v, vec![0, 3]);
}

#[test]
fn integer_from_i64_keeps_sign_and_size() {
    assert!(Integer::from_i64(0).is_zero());
    assert!(!Integer::from_i64(0).is_negative());
    assert!(!Integer::from_i64(0).is_positive());
    assert!(Integer::from_i64(-1).is_negative());
    assert!(Integer::from_i64(1).is_positive());
    assert_eq!(Integer::from_i64(i64::MIN).magnitude(), vec![0, 0x8000_0000]);
    assert_eq!(Integer::from_i64(i64::MAX).magnitude(), vec![0xffff_ffff, 0x7fff_ffff]);
}

#[test]
fn integer_plus_mixes_signs() {
    let five = Integer::from_i64(5);
    let minus_eight = Integer::from_i64(-8);
    assert!(five.plus(&minus_eight).equals(&Integer::from_i64(-3)));
    assert!(minus_eight.plus(&five).equals(&Integer::from_i64(-3)));
    assert!(five.plus(&five.negated()).is_zero());
    assert!(minus_eight.plus(&minus_eight).equals(&Integer::from_i64(-16)));
}

#[test]
fn integer_minus_and_order() {
    let a = Integer::from_i64(-7);
    let b = Integer::from_i64(3);
    assert!(a.minus(&b).equals(&Integer::from_i64(-10)));
    assert!(b.minus(&a).equals(&Integer::from_i64(10)));
    assert!(a.less_than(&b));
    assert!(!b.less_than(&a));
    assert!(!a.less_than(&a));
}

#[test]
fn integer_times_follows_the_rule_of_signs() {
    let a = Integer::from_i64(-6);
    let b = Integer::from_i64(7);
    assert!(a.times(&b).equals(&Integer::from_i64(-42)));
    assert!(a.times(&a).equals(&Integer::from_i64(36)));
    assert!(b.times(&b).equals(&Integer::from_i64(49)));
    assert!(a.times(&Integer::from_i64(0)).is_zero());
    assert!(!a.times(&Integer::from_i64(0)).is_negative());
}

#[test]
fn integer_square_of_the_largest_i64() {
    let m = Integer::from_i64(i64::MAX);
    let square = m.times(&m);
    assert_eq!(square.magnitude(), vec![1, 0, 4294967295, 1073741823]);
    assert!(square.is_positive());
    let low = Integer::from_i64(i64::MIN);
    assert_eq!(low.times(&low).magnitude(), vec![0, 0, 0, 1073741824]);
    assert!(low.times(&m).is_negative());
}

#[test]
fn integer_clone_is_the_same_number() {
    let a = Integer::from_i64(-123456789);
    assert!(a.clone().equals(&a));
}

#[test]
fn halves_add_up_to_one() {
    let half = Scalar::from_parts(1, 2);
    let other_half = Scalar::from_parts(-2, -4);
    assert_eq!(half.plus(&other_half), Scalar::from_whole(1));
}

#[test]
fn scalar_from_parts_moves_the_sign_to_the_numerator() {
    let a = Scalar::from_parts(3, -6);
    assert_eq!(a, Scalar::from_parts(-1, 2));
    assert!(a.denominator().is_positive());
    assert!(a.numerator().is_negative());
    assert!(a.less_than(&Scalar::from_whole(0)));
}

#[test]
fn scalar_arithmetic_is_exact() {
    let third = Scalar::from_parts(1, 3);
    let sixth = Scalar::from_parts(1, 6);
    assert_eq!(third.minus(&sixth), sixth);
    assert_eq!(third.times(&sixth), Scalar::from_parts(1, 18));
    assert_eq!(third.divided_by(&sixth), Scalar::from_whole(2));
    assert_eq!(third.plus(&third).plus(&third), Scalar::from_whole(1));
    assert_eq!(third.negated(), Scalar::from_parts(-1, 3));
}

#[test]
fn scalar_division_by_a_negative_number() {
    let a = Scalar::from_parts(1, 2);
    let b = Scalar::from_parts(-1, 4);
    let q = a.divided_by(&b);
    assert_eq!(q, Scalar::from_whole(-2));
    assert!(q.denominator().is_positive());
}

#[test]
fn scalar_order() {
    let a = Scalar::from_parts(1, 3);
    let b = Scalar::from_parts(1, 2);
    assert!(a.less_than(&b));
    assert!(!b.less_than(&a));
    assert!(a.at_most(&a));
    assert!(a.at_most(&b));
    assert!(!b.at_most(&a));
    assert!(a.equals(&Scalar::from_parts(2, 6)));
    assert!(!a.equals(&b));
    assert!(Scalar::from_parts(-1, 2).less_than(&Scalar::from_parts(-1, 3)));
}

#[test]
fn scalar_is_between_includes_both_ends() {
    let low = Scalar::from_whole(0);
    let high = Scalar::from_whole(1);
    assert!(low.is_between(&low, &high));
    assert!(high.is_between(&low, &high));
    assert!(Scalar::from_parts(1, 2).is_between(&low, &high));
    assert!(!Scalar::from_parts(3, 2).is_between(&low, &high));
    assert!(!Scalar::from_parts(-1, 2).is_between(&low, &high));
}

#[test]
fn scalar_is_zero() {
    assert!(Scalar::from_parts(0, -5).is_zero());
    assert!(!Scalar::from_parts(1, 1_000_000).is_zero());
}

#[test]
fn scalar_keeps_values_beyond_64_bits() {
    let big = Scalar::from_whole(i64::MAX);
    let square = big.times(&big);
    let back = square.divided_by(&big);
    assert_eq!(back, big);
    assert!(big.less_than(&square));
    assert_eq!(square.minus(&square), Scalar::from_whole(0));
}

#[test]
fn natural_prepend_moves_limbs_up() {
    assert_eq!(natural::prepend(7, &vec![1, 2]), vec![7, 1, 2]);
    assert_eq!(natural::prepend(0, &Vec::new()), vec![0]);
}

#[test]
fn natural_is_zero_ignores_zero_limbs() {
    assert!(natural::is_zero(&Vec::new()));
    assert!(natural::is_zero(&vec![0, 0]));
    assert!(!natural::is_zero(&vec![0, 1]));
}

#[test]
fn natural_divide_gives_quotient_and_remainder() {
    let a = natural::from_u64(1_000_000_007);
    let b = natural::from_u64(12_345);
    let (q, r) = natural::divide(&a, &b);
    assert_eq!(q, natural::from_u64(81_004));
    assert_eq!(r, natural::from_u64(5_627));
    let (q, r) = natural::divide(&b, &a);
    assert_eq!(q, Vec::<u32>::new());
    assert_eq!(r, natural::from_u64(12_345));
}

#[test]
fn natural_divide_undoes_a_product_beyond_128_bits() {
    // 123456789012345678901234567890 = 12345678901234567890 * 10000000000 + 1234567890
    let a = vec![1312754386, 3279151342, 2397638646, 1];
    let b = natural::from_u64(10000000000);
    let (q, r) = natural::divide(&a, &b);
    assert_eq!(q, natural::from_u64(12345678901234567890));
    assert_eq!(r, natural::from_u64(1234567890));
    let (q, r) = natural::divide(&a, &natural::from_u64(12345678901234567890));
    assert_eq!(q, natural::from_u64(10000000000));
    assert_eq!(r, natural::from_u64(1234567890));
}

#[test]
fn natural_divide_by_one_and_by_itself() {
    let a = vec![5, 6, 7];
    let (q, r) = natural::divide(&a, &vec![1]);
    assert_eq!(q, a);
    assert!(natural::is_zero(&r));
    let (q, r) = natural::divide(&a, &a);
    assert_eq!(q, vec![1]);
    assert!(natural::is_zero(&r));
}

#[test]
fn natural_greatest_common_divisor() {
    let g = natural::greatest_common_divisor(&natural::from_u64(84), &natural::from_u64(36));
    assert_eq!(g, vec![12]);
    let g = natural::greatest_common_divisor(&natural::from_u64(17), &natural::from_u64(5));
    assert_eq!(g, vec![1]);
    let g = natural::greatest_common_divisor(&Vec::new(), &natural::from_u64(9));
    assert_eq!(g, vec![9]);
    let g = natural::greatest_common_divisor(&natural::from_u64(9), &Vec::new());
    assert_eq!(g, vec![9]);
    // 2^64 and 6 * 2^32 share 2^33.
    let g = natural::greatest_common_divisor(&vec![0, 0, 1], &vec![0, 6]);
    assert_eq!(g, vec![0, 2]);
}

#[test]
fn integer_greatest_common_divisor_is_positive() {
    let a = Integer::from_i64(-84);
    let b = Integer::from_i64(36);
    assert!(a.greatest_common_divisor(&b).equals(&Integer::from_i64(12)));
    assert!(b.greatest_common_divisor(&a).equals(&Integer::from_i64(12)));
    assert!(a.greatest_common_divisor(&Integer::from_i64(0)).equals(&Integer::from_i64(84)));
}

#[test]
fn integer_divided_exactly_by_keeps_the_sign() {
    let a = Integer::from_i64(-84);
    assert!(a.divided_exactly_by(&Integer::from_i64(12)).equals(&Integer::from_i64(-7)));
    assert!(a.negated().divided_exactly_by(&Integer::from_i64(84)).equals(&Integer::from_i64(1)));
    assert!(Integer::from_i64(0).divided_exactly_by(&Integer::from_i64(5)).is_zero());
}

#[test]
fn scalar_is_kept_in_lowest_terms() {
    let a = Scalar::from_parts(6, -4);
    assert!(a.numerator().equals(&Integer::from_i64(-3)));
    assert!(a.denominator().equals(&Integer::from_i64(2)));
    let sum = Scalar::from_parts(1, 6).plus(&Scalar::from_parts(1, 3));
    assert!(sum.numerator().equals(&Integer::from_i64(1)));
    assert!(sum.denominator().equals(&Integer::from_i64(2)));
    let product = Scalar::from_parts(2, 3).times(&Scalar::from_parts(3, 4));
    assert_eq!(product.denominator().magnitude(), vec![2]);
    let ratio = Scalar::from_parts(2, 3).divided_by(&Scalar::from_parts(-4, 9));
    assert!(ratio.numerator().equals(&Integer::from_i64(-3)));
    assert!(ratio.denominator().equals(&Integer::from_i64(2)));
    let zero = Scalar::from_parts(0, 17);
    assert!(zero.numerator().is_zero());
    assert_eq!(zero.denominator().magnitude(), vec![1]);
}

fn as_u128(limbs: &[u32]) -> u128 {
    limbs.iter().rev().fold(0, |sum, &limb| (sum << 32) | u128::from(limb))
}

#[test]
fn natural_operations_agree_with_machine_arithmetic() {
    let mut seed: u64 = 0x9e37_79b9_7f4a_7c15;
    let mut next = move || {
        seed = seed.wrapping_mul(6364136223846793005).wrapping_add(1442695040888963407);
        // Some short numbers among the long ones.
        seed >> (seed % 5 * 12)
    };
    for _ in 0..300 {
        let (x, y) = (next(), next());
        let (a, b) = (natural::from_u64(x), natural::from_u64(y));
        assert_eq!(as_u128(&a), u128::from(x));
        assert_eq!(as_u128(&natural::sum(&a, &b)), u128::from(x) + u128::from(y));
        assert_eq!(as_u128(&natural::product(&a, &b)), u128::from(x) * u128::from(y));
        assert_eq!(natural::at_least(&a, &b), x >= y);
        assert_eq!(
            natural::difference(&a, &b).map(|d| as_u128(&d)),
            x.checked_sub(y).map(u128::from)
        );
        if y != 0 {
            let wide = natural::sum(&natural::product(&a, &a), &b);
            let value = u128::from(x) * u128::from(x) + u128::from(y);
            let (q, r) = natural::divide(&wide, &b);
            assert_eq!(as_u128(&q), value / u128::from(y));
            assert_eq!(as_u128(&r), value % u128::from(y));
            let g = as_u128(&natural::greatest_common_divisor(&wide, &b));
            assert_eq!(value % g, 0);
            assert_eq!(u128::from(y) % g, 0);
            let (mut m, mut n) = (value, u128::from(y));
            while n != 0 {
                (m, n) = (n, m % n);
            }
            assert_eq!(g, m);
        }
    }
}
