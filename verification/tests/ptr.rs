use opendp::combinators::chain::make_chain_mt;
use opendp::error::Error;
use opendp::fixed::Fixed;
use opendp::measurements::ptr::make_base_ptr;
use opendp::measurements::{get_discretization_consts, grid_step};
use opendp::measures::{log_ratio, min_threshold, Loss, SmdCurve};
use opendp::traits::TotalDistance;
use opendp::transformations::count_by::make_count_by;

fn fx(x: f64) -> Fixed {
    Fixed::from_bits((x * 4294967296.0).round() as i64)
}

/// ln(distance / (2 delta)) * scale + distance, in the arithmetic of the library
fn threshold_for(distance: Fixed, delta: Fixed, scale: Fixed) -> Fixed {
    min_threshold(&distance, &delta, &scale).unwrap().unwrap()
}

#[test]
fn test_count_by_ptr() {
    let max_influence = 1;
    let sensitivity = max_influence as f64;
    let epsilon = 2.;
    let delta = 1e-6;
    let scale = sensitivity / epsilon;
    let threshold = (max_influence as f64 / (2. * delta)).ln() * scale + max_influence as f64;
    println!("{:?}", threshold);

    let measurement = make_chain_mt(
        make_base_ptr::<char>(fx(scale), fx(threshold), None).unwrap(),
        make_count_by().unwrap(),
    )
    .unwrap();
    let ret = measurement
        .invoke(&vec!['a', 'b', 'a', 'a', 'a', 'a', 'b', 'a', 'a', 'a', 'a'], &vec![0, 0])
        .unwrap();
    println!("stability eval: {:?}", ret);
    assert_eq!(ret, vec![('a', fx(9.))]);

    let epsilon_p = measurement.map(&max_influence).unwrap().epsilon(&fx(delta)).unwrap();
    assert_eq!(epsilon_p, Loss::Finite(fx(epsilon)));
}

#[test]
fn a_tolerance_above_half_the_distance_asks_for_less_than_the_distance() {
    // ln(1 / 1.8) * 1 + 1 = 0.4122
    let delta = Fixed::from_bits(3865470566);
    let measurement = make_base_ptr::<char>(fx(1.), fx(0.5), None).unwrap();
    assert_eq!(measurement.map(&fx(1.)).unwrap().epsilon(&delta), Ok(Loss::Finite(fx(1.))));

    let least = min_threshold(&fx(1.), &delta, &fx(1.)).unwrap().unwrap();
    let exact = (1.0f64 / (2. * (3865470566.0 / 4294967296.0))).ln() + 1.;
    let got = least.to_bits() as f64 / 4294967296.0;
    assert!(got >= exact && got - exact < 1e-7, "{} against {}", got, exact);

    let low = make_base_ptr::<char>(fx(1.), fx(0.4), None).unwrap();
    assert_eq!(
        low.map(&fx(1.)).unwrap().epsilon(&delta),
        Err(Error::RelationDebug { min_threshold: least })
    );
    let just = make_base_ptr::<char>(fx(1.), least, None).unwrap();
    assert_eq!(just.map(&fx(1.)).unwrap().epsilon(&delta), Ok(Loss::Finite(fx(1.))));
}

#[test]
fn a_least_threshold_below_every_number_asks_nothing() {
    // ln(2^-32) * 2^30 lies below the least number that can be held
    let lowest = Fixed::from_bits(i64::MIN);
    let scale = fx(1073741824.);
    let delta = Fixed::from_bits(3865470566);
    let tiny = Fixed::from_bits(1);
    assert_eq!(min_threshold(&tiny, &delta, &scale), Ok(None));
    let measurement = make_base_ptr::<char>(scale, lowest, None).unwrap();
    assert_eq!(
        measurement.map(&tiny).unwrap().epsilon(&delta),
        Ok(Loss::Finite(Fixed::from_bits(1)))
    );
    // and one above every number cannot be met
    let wide = fx(2e9);
    assert_eq!(min_threshold(&wide, &Fixed::from_bits(1 << 31), &wide), Err(Error::ArithmeticFailure));
}

#[test]
fn threshold_is_near_the_exact_value_and_not_below() {
    // ln(1 / 2e-6) * 0.5 + 1 with delta at its grid value 4295 / 2^32
    let delta = fx(1e-6);
    let threshold = threshold_for(fx(1.), delta, fx(0.5));
    let exact = (1. / (2. * (4295. / 4294967296.0f64))).ln() * 0.5 + 1.;
    let got = threshold.to_bits() as f64 / 4294967296.0;
    assert!(got >= exact);
    assert!(got - exact < 1e-6);
    assert_eq!(min_threshold(&fx(0.), &delta, &fx(0.5)), Ok(None));
    // ln(distance) - ln(delta) - ln(2), the first rounded up and the others down
    let log = fx(1.)
        .inf_ln()
        .unwrap()
        .inf_sub(&delta.neg_inf_ln().unwrap())
        .unwrap()
        .inf_sub(&fx(1.).neg_inf_ln_1p().unwrap())
        .unwrap();
    assert_eq!(log_ratio(&fx(1.), &delta), Ok(log));
    assert_eq!(threshold, log.inf_mul(&fx(0.5)).unwrap().inf_add(&fx(1.)).unwrap());
}

#[test]
fn a_threshold_too_low_is_reported_with_the_least_threshold() {
    let delta = fx(1e-6);
    let scale = fx(0.5);
    let least = threshold_for(fx(1.), delta, scale);
    let low = Fixed::from_bits(least.to_bits() - 1);
    let measurement = make_base_ptr::<char>(scale, low, None).unwrap();
    let curve = measurement.map(&fx(1.)).unwrap();
    assert_eq!(curve.epsilon(&delta), Err(Error::RelationDebug { min_threshold: least }));
    // the unit is still usable
    assert_eq!(measurement.invoke(&vec![('x', fx(8.))], &vec![0]), Ok(vec![('x', fx(8.))]));
    // a larger tolerance asks for less
    assert_eq!(curve.epsilon(&fx(1e-5)), Ok(Loss::Finite(fx(2.))));
}

#[test]
fn a_tolerance_must_be_positive() {
    let measurement = make_base_ptr::<char>(fx(0.5), fx(10.), None).unwrap();
    let curve = measurement.map(&fx(1.)).unwrap();
    assert_eq!(curve.epsilon(&fx(0.)), Err(Error::FailedRelation));
    assert_eq!(curve.epsilon(&fx(-0.5)), Err(Error::FailedRelation));
}

#[test]
fn ptr_map_rejects_a_negative_distance() {
    let measurement = make_base_ptr::<char>(fx(0.5), fx(10.), None).unwrap();
    assert_eq!(measurement.map(&fx(-1.)).err(), Some(Error::InvalidDistance));
}

#[test]
fn ptr_rejects_a_negative_scale() {
    assert_eq!(make_base_ptr::<char>(fx(-0.5), fx(10.), None).err(), Some(Error::InvalidParameter));
    assert_eq!(
        make_base_ptr::<char>(fx(0.5), fx(10.), Some(31)).err(),
        Some(Error::ArithmeticFailure)
    );
}

#[test]
fn discretization_defaults_to_the_finest_grid() {
    assert_eq!(get_discretization_consts(None), Ok((-32, fx(0.))));
    assert_eq!(get_discretization_consts(Some(-100)), Ok((-32, fx(0.))));
    assert_eq!(
        get_discretization_consts(Some(-2)),
        Ok((-2, Fixed::from_bits(fx(0.25).to_bits() - 1)))
    );
    assert_eq!(
        get_discretization_consts(Some(0)),
        Ok((0, Fixed::from_bits(fx(1.).to_bits() - 1)))
    );
    assert_eq!(
        get_discretization_consts(Some(30)),
        Ok((30, Fixed::from_bits((1 << 62) - 1)))
    );
    assert_eq!(get_discretization_consts(Some(31)), Err(Error::ArithmeticFailure));
    assert_eq!(grid_step(fx(0.)), Fixed::from_bits(1));
    let measurement = make_base_ptr::<char>(fx(0.5), fx(10.), Some(-2)).unwrap();
    assert_eq!(measurement.function.step, fx(0.25));
    assert_eq!(measurement.function.k, -2);
}

#[test]
fn a_coarser_grid_relaxes_the_distance() {
    let measurement = make_base_ptr::<char>(fx(0.5), fx(100.), Some(-1)).unwrap();
    let curve = measurement.map(&fx(1.)).unwrap();
    // (1 + (0.5 - 2^-32)) / 0.5
    assert_eq!(
        curve.epsilon(&fx(0.01)),
        Ok(Loss::Finite(Fixed::from_bits(fx(3.).to_bits() - 2)))
    );
    assert_eq!(
        curve,
        SmdCurve {
            d_in: fx(1.),
            relaxation: Fixed::from_bits(fx(0.5).to_bits() - 1),
            scale: fx(0.5),
            threshold: fx(100.),
        }
    );
}

#[test]
fn counts_are_rounded_to_the_grid_before_the_noise() {
    let measurement = make_base_ptr::<i64>(fx(1.), fx(1.), Some(-1)).unwrap();
    let data = vec![(1i64, fx(2.2)), (2, fx(2.25)), (3, fx(0.3)), (4, fx(0.7))];
    let ret = measurement.invoke(&data, &vec![0, 1, 2, -1]).unwrap();
    // 2.2 -> 2.0; 2.25 -> 2.5 + 0.5; 0.3 -> 0.5 + 1.0; 0.7 -> 0.5 - 0.5 is dropped
    assert_eq!(ret, vec![(1, fx(2.)), (2, fx(3.)), (3, fx(1.5))]);
}

#[test]
fn a_release_with_a_count_out_of_range_fails_as_a_whole() {
    let measurement = make_base_ptr::<i64>(fx(1.), fx(1.), None).unwrap();
    let data = vec![(1i64, fx(2.)), (2, Fixed::from_bits(i64::MAX))];
    assert_eq!(measurement.invoke(&data, &vec![0, 1]), Err(Error::ArithmeticFailure));
    assert_eq!(measurement.invoke(&data, &vec![0]), Err(Error::FailedFunction));
}

#[test]
fn ptr_epsilon_is_monotone_in_the_distance() {
    let measurement = make_base_ptr::<char>(fx(0.5), fx(1000.), None).unwrap();
    let delta = fx(1e-6);
    let mut last = Loss::zero();
    for d in 0..50 {
        let epsilon = measurement.map(&fx(d as f64 * 0.5)).unwrap().epsilon(&delta).unwrap();
        assert!(last.le(&epsilon));
        last = epsilon;
    }
}

#[test]
fn without_noise_nothing_is_bounded() {
    let measurement = make_base_ptr::<char>(fx(0.), fx(5.), None).unwrap();
    let delta = fx(1e-6);
    assert_eq!(measurement.map(&fx(0.)).unwrap().epsilon(&delta), Ok(Loss::zero()));
    assert_eq!(measurement.map(&fx(1.)).unwrap().epsilon(&delta), Ok(Loss::Infinite));
    // the threshold must still cover the distance
    assert_eq!(
        measurement.map(&fx(6.)).unwrap().epsilon(&delta),
        Err(Error::RelationDebug { min_threshold: fx(6.) })
    );
}

#[test]
fn a_small_tolerance_does_not_lead_out_of_range() {
    // 100 / (2 * 1e-8) is beyond the numbers, its logarithm is not
    let delta = fx(1e-8);
    let exact = (100.0f64 / (2. * (delta.to_bits() as f64 / 4294967296.0))).ln() + 100.;
    let least = min_threshold(&fx(100.), &delta, &fx(1.)).unwrap().unwrap();
    let got = least.to_bits() as f64 / 4294967296.0;
    assert!(got >= exact && got - exact < 1e-7, "{} against {}", got, exact);

    let low = make_base_ptr::<char>(fx(1.), fx(30.), None).unwrap();
    assert_eq!(
        low.map(&fx(100.)).unwrap().epsilon(&delta),
        Err(Error::RelationDebug { min_threshold: least })
    );
    let high = make_base_ptr::<char>(fx(1.), fx(200.), None).unwrap();
    assert_eq!(high.map(&fx(100.)).unwrap().epsilon(&delta), Ok(Loss::Finite(fx(100.))));
    // the least tolerance that there is
    let least_delta = Fixed::from_bits(1);
    let widest = min_threshold(&fx(1.), &least_delta, &fx(1.)).unwrap().unwrap();
    let got = widest.to_bits() as f64 / 4294967296.0;
    let exact = (4294967296.0f64 / 2.).ln() + 1.;
    assert!(got >= exact && got < exact + 1., "{} against {}", got, exact);
}
