use opendp::error::Error;
use opendp::fixed::Fixed;
use opendp::transformations::mean::make_sized_bounded_mean;
use opendp::transformations::sum_of_squared_deviations::make_sized_bounded_sum_of_squared_deviations;

fn fx(x: f64) -> Fixed {
    Fixed::from_bits((x * 4294967296.0).round() as i64)
}

#[test]
fn test_make_bounded_deviations() {
    let arg = vec![fx(1.), fx(2.), fx(3.), fx(4.), fx(5.)];

    let transformation_sample =
        make_sized_bounded_sum_of_squared_deviations(5, (fx(0.), fx(10.))).unwrap();
    let ret = transformation_sample.invoke(&arg).unwrap();
    let expected = fx(10.);
    assert_eq!(ret, expected);
    assert!(transformation_sample.check(&1, &fx(100. / 5.)).unwrap());

    let transformation_pop =
        make_sized_bounded_sum_of_squared_deviations(5, (fx(0.), fx(10.))).unwrap();
    let ret = transformation_pop.invoke(&arg).unwrap();
    let expected = fx(10.0);
    assert_eq!(ret, expected);
    assert!(transformation_pop.check(&1, &fx(100. * 4. / 25.)).unwrap());
}

#[test]
fn deviations_map_follows_the_formula() {
    let transformation = make_sized_bounded_sum_of_squared_deviations(5, (fx(0.), fx(10.))).unwrap();
    // range = 10 + 2 steps; sensitivity = range^2 * 4 / 5 rounded up; relaxation = 6 steps
    let relaxation = 6;
    assert_eq!(transformation.map(&0), Ok(Fixed::from_bits(relaxation)));
    assert_eq!(transformation.map(&1), Ok(Fixed::from_bits(relaxation)));
    let sensitivity = transformation.stability_map.sensitivity;
    let exact = 80.0f64;
    let got = sensitivity.to_bits() as f64 / 4294967296.0;
    assert!(got >= exact && got - exact < 1e-7);
    assert_eq!(
        transformation.map(&2),
        Ok(Fixed::from_bits(sensitivity.to_bits() + relaxation))
    );
    assert_eq!(
        transformation.map(&5),
        Ok(Fixed::from_bits(2 * sensitivity.to_bits() + relaxation))
    );
    assert!(transformation.check(&2, &fx(80.1)).unwrap());
    assert!(!transformation.check(&2, &fx(80.)).unwrap());
}

#[test]
fn deviations_reject_bad_parameters() {
    assert_eq!(
        make_sized_bounded_sum_of_squared_deviations(0, (fx(0.), fx(10.))).err(),
        Some(Error::InvalidParameter)
    );
    assert_eq!(
        make_sized_bounded_sum_of_squared_deviations(5, (fx(10.), fx(0.))).err(),
        Some(Error::InvalidParameter)
    );
    assert_eq!(
        make_sized_bounded_sum_of_squared_deviations(5, (fx(0.), fx(100000.))).err(),
        Some(Error::ArithmeticFailure)
    );
    assert_eq!(
        make_sized_bounded_sum_of_squared_deviations(usize::MAX, (fx(0.), fx(1.))).err(),
        Some(Error::ArithmeticFailure)
    );
}

#[test]
fn deviations_are_taken_from_the_mean_over_the_stated_size() {
    let transformation = make_sized_bounded_sum_of_squared_deviations(4, (fx(0.), fx(10.))).unwrap();
    // mean 2.5: 2.25 + 0.25 + 0.25 + 2.25
    assert_eq!(transformation.invoke(&vec![fx(1.), fx(2.), fx(3.), fx(4.)]), Ok(fx(5.)));
    assert_eq!(transformation.invoke(&vec![fx(7.); 4]), Ok(fx(0.)));
}

#[test]
fn mean_map_follows_the_formula() {
    let mean = make_sized_bounded_mean(10, (fx(0.), fx(10.))).unwrap();
    assert_eq!(mean.invoke(&vec![fx(1.); 10]), Ok(fx(1.)));
    assert_eq!(mean.map(&2), Ok(Fixed::from_bits(fx(1.).to_bits() + 1)));
    assert_eq!(mean.map(&3), Ok(Fixed::from_bits(fx(1.).to_bits() + 1)));
    assert_eq!(mean.map(&4), Ok(Fixed::from_bits(fx(2.).to_bits() + 1)));
    assert_eq!(mean.map(&1), Ok(Fixed::from_bits(1)));
    assert_eq!(make_sized_bounded_mean(0, (fx(0.), fx(10.))).err(), Some(Error::InvalidParameter));
    assert_eq!(make_sized_bounded_mean(3, (fx(1.), fx(0.))).err(), Some(Error::InvalidParameter));
}

#[test]
fn mean_is_rounded_down() {
    let mean = make_sized_bounded_mean(3, (fx(0.), fx(10.))).unwrap();
    assert_eq!(
        mean.invoke(&vec![fx(1.), fx(0.), fx(0.)]),
        Ok(Fixed::from_bits(1431655765))
    );
}
