use opendp::error::Error;
use opendp::fixed::Fixed;

fn fx(x: f64) -> Fixed {
    Fixed::from_bits((x * 4294967296.0).round() as i64)
}

#[test]
fn sums_and_differences_are_exact() {
    assert_eq!(fx(1.5).inf_add(&fx(2.25)), Ok(fx(3.75)));
    assert_eq!(fx(1.5).neg_inf_add(&fx(2.25)), Ok(fx(3.75)));
    assert_eq!(fx(1.5).inf_sub(&fx(2.25)), Ok(fx(-0.75)));
    assert_eq!(fx(1.5).neg_inf_sub(&fx(2.25)), Ok(fx(-0.75)));
    assert_eq!(Fixed::from_bits(7).inf_add(&Fixed::from_bits(-9)), Ok(Fixed::from_bits(-2)));
}

#[test]
fn excess_is_never_below_and_deficiency_never_above() {
    let samples = [
        -3_000_000_007i64,
        -4294967296,
        -4294967295,
        -5,
        -1,
        0,
        1,
        3,
        4294967295,
        4294967297,
        12_884_901_889,
        98_765_432_123,
    ];
    for a in samples {
        for b in samples {
            let (x, y) = (Fixed::from_bits(a), Fixed::from_bits(b));
            let exact_sum = a as i128 + b as i128;
            assert!(x.inf_add(&y).unwrap().to_bits() as i128 >= exact_sum);
            assert!(x.neg_inf_add(&y).unwrap().to_bits() as i128 <= exact_sum);
            let exact_difference = a as i128 - b as i128;
            assert!(x.inf_sub(&y).unwrap().to_bits() as i128 >= exact_difference);
            assert!(x.neg_inf_sub(&y).unwrap().to_bits() as i128 <= exact_difference);

            // the product in raw units, times 2^32
            let product = a as i128 * b as i128;
            let up = x.inf_mul(&y).unwrap().to_bits() as i128;
            let down = x.neg_inf_mul(&y).unwrap().to_bits() as i128;
            assert!(up * 4294967296 >= product);
            assert!((up - 1) * 4294967296 < product);
            assert!(down * 4294967296 <= product);
            assert!((down + 1) * 4294967296 > product);

            if b != 0 {
                // the quotient q satisfies q * |b| ~ a * 2^32 * sign(b)
                let n = if b > 0 { a as i128 * 4294967296 } else { -(a as i128) * 4294967296 };
                let d = (b as i128).abs();
                match x.inf_div(&y) {
                    Ok(up) => {
                        let up = up.to_bits() as i128;
                        assert!(up * d >= n && (up - 1) * d < n);
                    }
                    // the quotient is out of range
                    Err(e) => {
                        assert_eq!(e, Error::ArithmeticFailure);
                        assert!(n > i64::MAX as i128 * d || n <= (i64::MIN as i128 - 1) * d);
                    }
                }
                match x.neg_inf_div(&y) {
                    Ok(down) => {
                        let down = down.to_bits() as i128;
                        assert!(down * d <= n && (down + 1) * d > n);
                    }
                    Err(e) => {
                        assert_eq!(e, Error::ArithmeticFailure);
                        assert!(n >= (i64::MAX as i128 + 1) * d || n < i64::MIN as i128 * d);
                    }
                }
            }
        }
    }
}

#[test]
fn products_and_quotients_round_as_named() {
    let third_up = fx(1.).inf_div(&fx(3.)).unwrap();
    let third_down = fx(1.).neg_inf_div(&fx(3.)).unwrap();
    assert_eq!(third_up.to_bits(), 1431655766);
    assert_eq!(third_down.to_bits(), 1431655765);
    assert_eq!(fx(-1.).inf_div(&fx(3.)).unwrap().to_bits(), -1431655765);
    assert_eq!(fx(-1.).neg_inf_div(&fx(3.)).unwrap().to_bits(), -1431655766);
    assert_eq!(fx(1.).inf_div(&fx(-3.)).unwrap().to_bits(), -1431655765);
    assert_eq!(fx(-1.).inf_div(&fx(-3.)).unwrap().to_bits(), 1431655766);

    assert_eq!(third_up.inf_mul(&fx(3.)), Ok(Fixed::from_bits(4294967298)));
    assert_eq!(third_down.neg_inf_mul(&fx(3.)), Ok(Fixed::from_bits(4294967295)));
    assert_eq!(Fixed::from_bits(1).inf_mul(&Fixed::from_bits(1)), Ok(Fixed::from_bits(1)));
    assert_eq!(Fixed::from_bits(1).neg_inf_mul(&Fixed::from_bits(1)), Ok(Fixed::from_bits(0)));
    assert_eq!(Fixed::from_bits(-1).inf_mul(&Fixed::from_bits(1)), Ok(Fixed::from_bits(0)));
    assert_eq!(Fixed::from_bits(-1).neg_inf_mul(&Fixed::from_bits(1)), Ok(Fixed::from_bits(-1)));
    assert_eq!(fx(2.5).inf_mul(&fx(4.)), Ok(fx(10.)));
    assert_eq!(fx(10.).neg_inf_div(&fx(4.)), Ok(fx(2.5)));
}

#[test]
fn what_leaves_the_range_fails() {
    let max = Fixed::from_bits(i64::MAX);
    let min = Fixed::from_bits(i64::MIN);
    assert_eq!(max.inf_add(&Fixed::from_bits(1)), Err(Error::ArithmeticFailure));
    assert_eq!(min.inf_sub(&Fixed::from_bits(1)), Err(Error::ArithmeticFailure));
    assert_eq!(max.inf_mul(&fx(2.)), Err(Error::ArithmeticFailure));
    assert_eq!(max.neg_inf_mul(&fx(2.)), Err(Error::ArithmeticFailure));
    assert_eq!(min.inf_mul(&min), Err(Error::ArithmeticFailure));
    assert_eq!(max.inf_div(&fx(0.5)), Err(Error::ArithmeticFailure));
    assert_eq!(min.inf_div(&fx(-1.)), Err(Error::ArithmeticFailure));
    assert_eq!(max.inf_mul(&fx(1.)), Ok(max));
    assert_eq!(min.neg_inf_div(&fx(1.)), Ok(min));
}

#[test]
fn division_by_zero_fails() {
    assert_eq!(fx(1.).inf_div(&fx(0.)), Err(Error::ArithmeticFailure));
    assert_eq!(fx(1.).neg_inf_div(&fx(0.)), Err(Error::ArithmeticFailure));
    assert_eq!(fx(0.).inf_div(&fx(0.)), Err(Error::ArithmeticFailure));
}

#[test]
fn integers_are_cast_exactly_or_not_at_all() {
    assert_eq!(Fixed::exact_int_cast(5), Ok(fx(5.)));
    assert_eq!(Fixed::exact_int_cast(-5), Ok(fx(-5.)));
    assert_eq!(Fixed::exact_int_cast(2147483647), Ok(Fixed::from_bits(2147483647 << 32)));
    assert_eq!(Fixed::exact_int_cast(2147483648), Err(Error::ArithmeticFailure));
    assert_eq!(Fixed::exact_int_cast(-2147483648), Ok(Fixed::from_bits(i64::MIN)));
    assert_eq!(Fixed::exact_int_cast(-2147483649), Err(Error::ArithmeticFailure));
    assert_eq!(Fixed::exact_size_cast(10), Ok(fx(10.)));
    assert_eq!(Fixed::exact_size_cast(usize::MAX), Err(Error::ArithmeticFailure));
    assert_eq!(Fixed::exact_size_cast(2147483648), Err(Error::ArithmeticFailure));
}

#[test]
fn rounding_goes_to_the_nearest_integer() {
    assert_eq!(fx(2.4).round(), 2);
    assert_eq!(fx(2.5).round(), 3);
    assert_eq!(fx(2.6).round(), 3);
    assert_eq!(fx(-2.4).round(), -2);
    assert_eq!(fx(-2.5).round(), -2);
    assert_eq!(fx(-2.6).round(), -3);
    assert_eq!(Fixed::from_bits(i64::MAX).round(), 2147483648);
    assert_eq!(Fixed::from_bits(i64::MIN).round(), -2147483648);
}

#[test]
fn constants_and_comparisons() {
    assert_eq!(Fixed::zero(), fx(0.));
    assert_eq!(Fixed::one(), fx(1.));
    assert_eq!(Fixed::one().to_bits(), 4294967296);
    assert_eq!(Fixed::step().to_bits(), 1);
    assert!(fx(0.).is_zero() && !Fixed::step().is_zero());
    assert!(fx(-0.1).is_sign_negative() && !fx(0.).is_sign_negative());
    assert!(fx(1.).le(&fx(1.)) && fx(1.).le(&fx(2.)) && !fx(2.).le(&fx(1.)));
    assert!(fx(1.).lt(&fx(2.)) && !fx(1.).lt(&fx(1.)));
}
