use opendp::combinators::amplify::make_population_amplification;
use opendp::combinators::chain::{make_chain_mt, make_chain_tt};
use opendp::domains::{AllDomain, BoundedDomain};
use opendp::error::Error;
use opendp::fixed::Fixed;
use opendp::measurements::laplace::make_base_laplace;
use opendp::measures::Loss;
use opendp::metrics::{InsertDeleteDistance, SymmetricDistance};
use opendp::transformations::mean::make_sized_bounded_mean;
use opendp::transformations::resize::make_resize;

fn fx(x: f64) -> Fixed {
    Fixed::from_bits((x * 4294967296.0).round() as i64)
}

#[test]
fn test_make_resize() {
    let transformation =
        make_resize::<AllDomain<i64>, SymmetricDistance, SymmetricDistance>(4, AllDomain::new(), 0)
            .unwrap();
    let arg = vec![1, 2, 3];
    let res = transformation.invoke(&arg).unwrap();
    assert_eq!(res, vec![1, 2, 3, 0]);
}

#[test]
fn test_make_bounded_resize() {
    let atom_domain = BoundedDomain::new_closed((0i64, 10)).unwrap();
    let transformation =
        make_resize::<BoundedDomain<i64>, SymmetricDistance, SymmetricDistance>(4, atom_domain, 0)
            .unwrap();
    let arg = vec![1, 2, 3];
    let res = transformation.invoke(&arg).unwrap();
    assert_eq!(res, vec![1, 2, 3, 0]);
}

#[test]
fn resize_cuts_off_what_is_too_long() {
    let transformation = make_resize::<AllDomain<i64>, InsertDeleteDistance, InsertDeleteDistance>(
        2,
        AllDomain::new(),
        7,
    )
    .unwrap();
    assert_eq!(transformation.invoke(&vec![1, 2, 3]), Ok(vec![1, 2]));
    assert_eq!(transformation.invoke(&vec![1, 2]), Ok(vec![1, 2]));
    assert_eq!(transformation.invoke(&vec![]), Ok(vec![7, 7]));
    assert_eq!(transformation.map(&3), Ok(6));
    assert_eq!(transformation.map(&u32::MAX), Err(Error::ArithmeticFailure));
}

#[test]
fn resize_rejects_bad_parameters() {
    let atom_domain = BoundedDomain::new_closed((0i64, 10)).unwrap();
    assert_eq!(
        make_resize::<BoundedDomain<i64>, SymmetricDistance, SymmetricDistance>(4, atom_domain, 11)
            .err(),
        Some(Error::InvalidParameter)
    );
    assert_eq!(
        make_resize::<BoundedDomain<i64>, SymmetricDistance, SymmetricDistance>(0, atom_domain, 1)
            .err(),
        Some(Error::InvalidParameter)
    );
}

#[test]
fn a_pipeline_from_raw_data_to_an_amplified_release() {
    let bounds = (fx(0.), fx(10.));
    let atom_domain = BoundedDomain::new_closed(bounds).unwrap();
    let resize =
        make_resize::<BoundedDomain<Fixed>, SymmetricDistance, SymmetricDistance>(10, atom_domain, fx(5.))
            .unwrap();
    let mean = make_sized_bounded_mean(10, bounds).unwrap();
    let sized_mean = make_chain_tt(mean, resize).unwrap();
    let release = make_chain_mt(make_base_laplace(fx(0.5), None).unwrap(), sized_mean).unwrap();
    // eight records and two fills: (8 * 2 + 2 * 5) / 10 = 2.6, rounded down
    assert_eq!(release.invoke(&vec![fx(2.); 8], &0), Ok(Fixed::from_bits(11166914969)));
    // a distance of 1 becomes 2 after resizing, and 2 costs one substitution
    assert_eq!(release.map(&1), Ok(Loss::Finite(Fixed::from_bits(fx(2.).to_bits() + 2))));
}

#[test]
fn a_mean_of_another_size_does_not_follow_a_resize() {
    let bounds = (fx(0.), fx(10.));
    let atom_domain = BoundedDomain::new_closed(bounds).unwrap();
    let resize =
        make_resize::<BoundedDomain<Fixed>, SymmetricDistance, SymmetricDistance>(10, atom_domain, fx(5.))
            .unwrap();
    let mean = make_sized_bounded_mean(9, bounds).unwrap();
    assert_eq!(make_chain_tt(mean, resize).err(), Some(Error::DomainMismatch));

    let resize =
        make_resize::<BoundedDomain<Fixed>, SymmetricDistance, SymmetricDistance>(10, atom_domain, fx(5.))
            .unwrap();
    let mean = make_sized_bounded_mean(10, (fx(0.), fx(11.))).unwrap();
    assert_eq!(make_chain_tt(mean, resize).err(), Some(Error::DomainMismatch));
}

#[test]
fn amplification_needs_the_size_of_the_first_domain() {
    let bounds = (fx(0.), fx(10.));
    let mean = make_sized_bounded_mean(10, bounds).unwrap();
    let release = make_chain_mt(make_base_laplace(fx(0.5), None).unwrap(), mean).unwrap();
    let amplified = make_population_amplification(release, 1000).unwrap();
    assert_eq!(amplified.privacy_map.sample_size, 10);
    assert_eq!(amplified.privacy_map.population_size, 1000);
    assert!(amplified.check(&2, &Loss::Finite(fx(0.07))).unwrap());
    assert!(!amplified.check(&2, &Loss::Finite(fx(0.06))).unwrap());
}
