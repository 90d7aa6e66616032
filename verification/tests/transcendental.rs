use opendp::error::Error;
use opendp::fixed::Fixed;

fn fx(x: f64) -> Fixed {
    Fixed::from_bits((x * 4294967296.0).round() as i64)
}

fn value(x: Fixed) -> f64 {
    x.to_bits() as f64 / 4294967296.0
}

#[test]
fn exp_m1_is_an_upper_bound_and_a_close_one() {
    for x in [0.0f64, 1e-9, 0.001, 0.5, 1.0, 2.0, 5.0, 10.0, 20.0, 21.0] {
        let arg = fx(x);
        let got = value(arg.inf_exp_m1().unwrap());
        let exact = value(arg).exp_m1();
        assert!(got >= exact, "exp_m1({}) = {} is below {}", x, got, exact);
        assert!(got - exact <= 1e-7 + exact * 1e-12, "exp_m1({}) = {} is far above {}", x, got, exact);
    }
    assert_eq!(fx(0.).inf_exp_m1(), Ok(fx(0.)));
}

#[test]
fn exp_m1_of_one() {
    // e - 1 = 1.718281828459045
    let got = fx(1.).inf_exp_m1().unwrap();
    assert!(value(got) >= 1.718281828459045);
    assert!(value(got) < 1.7182819);
}

#[test]
fn exp_m1_fails_outside_its_domain() {
    assert_eq!(fx(-0.5).inf_exp_m1(), Err(Error::ArithmeticFailure));
    assert_eq!(fx(22.).inf_exp_m1(), Err(Error::ArithmeticFailure));
    assert_eq!(fx(32.5).inf_exp_m1(), Err(Error::ArithmeticFailure));
    assert_eq!(fx(33.).inf_exp_m1(), Err(Error::ArithmeticFailure));
    assert_eq!(Fixed::from_bits(i64::MAX).inf_exp_m1(), Err(Error::ArithmeticFailure));
}

#[test]
fn ln_1p_is_an_upper_bound_and_a_close_one() {
    for y in [0.0f64, 1e-9, 0.001, 0.5, 1.0, 1.718281828459045, 10.0, 1e6, 2e9] {
        let arg = fx(y);
        let got = value(arg.inf_ln_1p().unwrap());
        let exact = value(arg).ln_1p();
        assert!(got >= exact, "ln_1p({}) = {} is below {}", y, got, exact);
        assert!(got - exact <= 1e-7, "ln_1p({}) = {} is far above {}", y, got, exact);
    }
    assert_eq!(fx(0.).inf_ln_1p(), Ok(fx(0.)));
    assert_eq!(fx(-0.5).inf_ln_1p(), Err(Error::ArithmeticFailure));
}

#[test]
fn ln_is_an_upper_bound() {
    for z in [1.0f64, 1.5, 2.0, 2.718281828459045, 100.0, 5e5] {
        let arg = fx(z);
        let got = value(arg.inf_ln().unwrap());
        let exact = value(arg).ln();
        assert!(got >= exact && got - exact <= 1e-7);
    }
    assert_eq!(fx(1.).inf_ln(), Ok(fx(0.)));
    assert_eq!(fx(0.).inf_ln(), Err(Error::ArithmeticFailure));
    assert_eq!(fx(-1.).inf_ln(), Err(Error::ArithmeticFailure));
}

#[test]
fn ln_of_two() {
    // ln 2 = 0.6931471805599453
    let got = fx(2.).inf_ln().unwrap();
    assert!(value(got) >= 0.6931471805599453);
    assert!(value(got) < 0.69314719);
    assert_eq!(fx(1.).inf_ln_1p(), Ok(got));
}

#[test]
fn bounds_grow_with_their_argument() {
    let mut last_exp = fx(0.);
    let mut last_ln = fx(0.);
    for i in 0..400 {
        let x = fx(i as f64 * 0.05);
        let e = x.inf_exp_m1().unwrap();
        let l = x.inf_ln_1p().unwrap();
        assert!(last_exp.le(&e));
        assert!(last_ln.le(&l));
        last_exp = e;
        last_ln = l;
    }
}

#[test]
fn ln_undoes_exp_from_above() {
    for x in [0.1f64, 1.0, 3.0, 7.5] {
        let arg = fx(x);
        let back = arg.inf_exp_m1().unwrap().inf_ln_1p().unwrap();
        assert!(arg.le(&back));
        assert!(value(back) - value(arg) < 1e-7);
    }
}

#[test]
fn deficiencies_are_lower_bounds_and_close_ones() {
    for x in [0.0f64, 1e-9, 0.001, 0.5, 1.0, 2.0, 5.0, 10.0, 20.0, 21.0] {
        let arg = fx(x);
        let got = value(arg.neg_inf_exp_m1().unwrap());
        let exact = value(arg).exp_m1();
        assert!(got <= exact, "exp_m1({}) = {} is above {}", x, got, exact);
        assert!(exact - got <= 1e-7 + exact * 1e-12);
        assert!(arg.neg_inf_exp_m1().unwrap().le(&arg.inf_exp_m1().unwrap()));
    }
    for y in [0.0f64, 1e-9, 0.001, 0.5, 1.0, 1.718281828459045, 10.0, 1e6, 2e9] {
        let arg = fx(y);
        let got = value(arg.neg_inf_ln_1p().unwrap());
        let exact = value(arg).ln_1p();
        assert!(got <= exact, "ln_1p({}) = {} is above {}", y, got, exact);
        assert!(exact - got <= 1e-7);
        assert!(arg.neg_inf_ln_1p().unwrap().le(&arg.inf_ln_1p().unwrap()));
    }
    assert_eq!(fx(0.).neg_inf_exp_m1(), Ok(fx(0.)));
    assert_eq!(fx(0.).neg_inf_ln_1p(), Ok(fx(0.)));
    assert_eq!(fx(-1.).neg_inf_exp_m1(), Err(Error::ArithmeticFailure));
    assert_eq!(fx(-1.).neg_inf_ln_1p(), Err(Error::ArithmeticFailure));
    assert_eq!(fx(22.).neg_inf_exp_m1(), Err(Error::ArithmeticFailure));
    assert_eq!(Fixed::from_bits(i64::MAX).neg_inf_exp_m1(), Err(Error::ArithmeticFailure));
    let most = value(Fixed::from_bits(i64::MAX).neg_inf_ln_1p().unwrap());
    assert!(most <= (2147483648.0f64).ln_1p() && most > 21.48);
}

#[test]
fn ln_below_one_is_a_negative_upper_bound() {
    for z in [0.9999f64, 0.9, 0.5555555, 0.5, 0.1, 1e-3, 1e-6, 1e-9] {
        let arg = fx(z);
        let got = value(arg.inf_ln().unwrap());
        let exact = value(arg).ln();
        assert!(got >= exact, "ln({}) = {} is below {}", z, got, exact);
        assert!(got - exact <= 1e-6, "ln({}) = {} is far above {}", z, got, exact);
        assert!(got <= 0.);
    }
    // ln(1/2) = -0.6931471805599453
    let half = value(fx(0.5).inf_ln().unwrap());
    assert!(half >= -0.6931471805599453 && half < -0.69314717);
    // the least positive number: 1 / z is past the range and is cut to it
    let least = value(Fixed::from_bits(1).inf_ln().unwrap());
    assert!(least >= -(4294967296.0f64).ln() && least <= -(2147483648.0f64).ln() + 1e-7);
    let mut last = Fixed::from_bits(i64::MIN);
    for i in 1..300 {
        let next = fx(i as f64 * 0.01).inf_ln().unwrap();
        assert!(last.le(&next));
        last = next;
    }
}

#[test]
fn the_lower_bound_of_ln_is_one_on_every_side_of_one() {
    for z in [1e-9f64, 1e-6, 1e-3, 0.1, 0.5, 0.9, 0.9999, 1.0, 1.5, 2.0, 100.0, 5e5, 2e9] {
        let arg = fx(z);
        let got = value(arg.neg_inf_ln().unwrap());
        let exact = value(arg).ln();
        assert!(got <= exact, "ln({}) = {} is above {}", z, got, exact);
        assert!(exact - got <= 1e-6, "ln({}) = {} is far below {}", z, got, exact);
        assert!(arg.neg_inf_ln().unwrap().le(&arg.inf_ln().unwrap()));
    }
    assert_eq!(fx(1.).neg_inf_ln(), Ok(fx(0.)));
    assert_eq!(fx(0.).neg_inf_ln(), Err(Error::ArithmeticFailure));
    assert_eq!(fx(-2.).neg_inf_ln(), Err(Error::ArithmeticFailure));
    // 1 / z is beyond the numbers: the bound is one on -ln(2^32)
    for bits in [1i64, 2] {
        let got = value(Fixed::from_bits(bits).neg_inf_ln().unwrap());
        assert!(got <= -(4294967296.0f64).ln() && got > -(4294967296.0f64).ln() - 1e-6);
    }
    let mut last = Fixed::from_bits(i64::MIN);
    for i in 1..300 {
        let next = fx(i as f64 * 0.01).neg_inf_ln().unwrap();
        assert!(last.le(&next));
        last = next;
    }
}
