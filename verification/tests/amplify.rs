use opendp::combinators::amplify::{
    amplify_epsilon, make_population_amplification, sampling_rate, AmplifiableMeasure,
    IsSizedDomain,
};
use opendp::combinators::chain::make_chain_mt;
use opendp::domains::{AllDomain, SizedDomain, VectorDomain};
use opendp::error::Error;
use opendp::fixed::Fixed;
use opendp::measurements::laplace::make_base_laplace;
use opendp::measures::{FixedSmoothedMaxDivergence, Loss, MaxDivergence};
use opendp::transformations::mean::make_sized_bounded_mean;

fn fx(x: f64) -> Fixed {
    Fixed::from_bits((x * 4294967296.0).round() as i64)
}

#[test]
fn test_amplifier() {
    let mean = make_sized_bounded_mean(10, (fx(0.), fx(10.))).unwrap();
    let meas = make_chain_mt(make_base_laplace(fx(0.5), None).unwrap(), mean).unwrap();
    assert!(meas.check(&2, &Loss::Finite(fx(2. + 1e-6))).unwrap());
    assert!(!meas.check(&2, &Loss::Finite(fx(2.))).unwrap());

    let amp = make_population_amplification(meas, 100).unwrap();
    amp.invoke(&vec![fx(1.); 10], &0).unwrap();
    assert!(amp.check(&2, &Loss::Finite(fx(0.4941))).unwrap());
    assert!(!amp.check(&2, &Loss::Finite(fx(0.494))).unwrap());
}

#[test]
fn amplification_needs_a_population_no_smaller_than_the_sample() {
    let mean = make_sized_bounded_mean(10, (fx(0.), fx(10.))).unwrap();
    let meas = make_chain_mt(make_base_laplace(fx(0.5), None).unwrap(), mean).unwrap();
    assert_eq!(make_population_amplification(meas, 9).err(), Some(Error::InvalidParameter));

    let mean = make_sized_bounded_mean(10, (fx(0.), fx(10.))).unwrap();
    let meas = make_chain_mt(make_base_laplace(fx(0.5), None).unwrap(), mean).unwrap();
    assert!(make_population_amplification(meas, 10).is_ok());
}

#[test]
fn amplification_keeps_the_function() {
    let mean = make_sized_bounded_mean(4, (fx(0.), fx(8.))).unwrap();
    let meas = make_chain_mt(make_base_laplace(fx(1.), None).unwrap(), mean).unwrap();
    let data = vec![fx(1.), fx(2.), fx(3.), fx(6.)];
    let plain = meas.invoke(&data, &5).unwrap();
    let amp = make_population_amplification(meas, 40).unwrap();
    assert_eq!(amp.invoke(&data, &5).unwrap(), plain);
    assert_eq!(plain, Fixed::from_bits(fx(3.).to_bits() + 5));
}

#[test]
fn sized_domain_reports_its_size() {
    let domain = SizedDomain::new(VectorDomain::new(AllDomain::<i64>::new()), 7);
    assert_eq!(domain.get_size(), Ok(7));
}

#[test]
fn sampling_rate_is_rounded_up() {
    assert_eq!(sampling_rate(2, 1), Ok(fx(0.5)));
    // 1 / 3 is not on the grid: the rate is the next grid point above it
    let third = sampling_rate(3, 1).unwrap();
    assert_eq!(third.to_bits(), 1431655766);
    assert!(3 * (third.to_bits() as i128) >= 4294967296);
    assert!(3 * (third.to_bits() as i128 - 1) < 4294967296);
    assert_eq!(sampling_rate(0, 1), Err(Error::ArithmeticFailure));
}

#[test]
fn amplified_epsilon_matches_the_formula() {
    // ln(1 + (e^1 - 1) / 2) = 0.6201145069582775
    let amplified = amplify_epsilon(&Loss::Finite(fx(1.)), &fx(0.5)).unwrap();
    match amplified {
        Loss::Finite(v) => {
            let exact = 0.6201145069582775f64;
            let got = v.to_bits() as f64 / 4294967296.0;
            assert!(got >= exact);
            assert!(got - exact < 1e-7);
        }
        Loss::Infinite => panic!("a finite loss has a finite amplified loss"),
    }
    assert_eq!(amplify_epsilon(&Loss::Infinite, &fx(0.5)), Err(Error::ArithmeticFailure));
}

#[test]
fn amplification_never_raises_a_loss_in_order() {
    let measure = MaxDivergence::default();
    let mut last = Loss::zero();
    for step in 0..40 {
        let epsilon = Loss::Finite(fx(0.25 * step as f64));
        let amplified = measure.amplify(&epsilon, 100, 10).unwrap();
        match (last, amplified) {
            (Loss::Finite(a), Loss::Finite(b)) => assert!(a.le(&b)),
            _ => panic!("finite losses expected"),
        }
        last = amplified;
    }
}

#[test]
fn approximate_measure_amplifies_delta_by_the_rate() {
    let measure = FixedSmoothedMaxDivergence::default();
    let (epsilon, delta) = measure.amplify(&(Loss::Finite(fx(1.)), fx(0.5)), 4, 1).unwrap();
    assert_eq!(delta, fx(0.125));
    assert_eq!(Ok(epsilon), amplify_epsilon(&Loss::Finite(fx(1.)), &fx(0.25)));
}
