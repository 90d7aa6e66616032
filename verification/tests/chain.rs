use opendp::combinators::chain::{make_chain_mt, make_chain_tt};
use opendp::domains::BoundedDomain;
use opendp::error::Error;
use opendp::fixed::Fixed;
use opendp::measurements::laplace::make_base_laplace;
use opendp::measures::Loss;
use opendp::metrics::AbsoluteDistance;
use opendp::transformations::dataframe::{make_split_lines, make_split_records};
use opendp::transformations::make_identity;
use opendp::transformations::mean::make_sized_bounded_mean;

fn fx(x: f64) -> Fixed {
    Fixed::from_bits((x * 4294967296.0).round() as i64)
}

#[test]
fn a_chain_applies_both_functions() {
    let chain = make_chain_tt(make_split_records(None).unwrap(), make_split_lines().unwrap()).unwrap();
    let ret = chain.invoke(&"ant, foo\nbat, bar".to_owned()).unwrap();
    assert_eq!(
        ret,
        vec![vec!["ant".to_owned(), "foo".to_owned()], vec!["bat".to_owned(), "bar".to_owned()]]
    );
    assert_eq!(chain.map(&7), Ok(7));
}

#[test]
fn the_map_of_a_chain_is_the_composition_of_the_maps() {
    for d_in in 0..40u32 {
        let mean = make_sized_bounded_mean(10, (fx(0.), fx(7.))).unwrap();
        let laplace = make_base_laplace(fx(0.3), Some(-4)).unwrap();
        let through = laplace.map(&mean.map(&d_in).unwrap());
        let chain = make_chain_mt(laplace, mean).unwrap();
        assert_eq!(chain.map(&d_in), through);
    }
}

#[test]
fn the_map_of_a_chain_fails_where_a_map_fails() {
    let mean = make_sized_bounded_mean(1, (fx(0.), fx(2e9))).unwrap();
    let direct = mean.map(&4);
    assert_eq!(direct, Err(Error::ArithmeticFailure));
    let chain = make_chain_mt(make_base_laplace(fx(1.), None).unwrap(), mean).unwrap();
    assert_eq!(chain.map(&4), Err(Error::ArithmeticFailure));
    assert_eq!(chain.check(&4, &Loss::Infinite), Err(Error::ArithmeticFailure));
}

#[test]
fn units_that_differ_at_the_joint_do_not_chain() {
    let narrow = BoundedDomain::new_closed((fx(0.), fx(5.))).unwrap();
    let wide = BoundedDomain::new_closed((fx(0.), fx(10.))).unwrap();
    let metric = AbsoluteDistance::default();
    let first = make_identity(narrow, metric).unwrap();
    let second = make_identity(wide, metric).unwrap();
    assert_eq!(make_chain_tt(second, first).err(), Some(Error::DomainMismatch));

    let first = make_identity(wide, metric).unwrap();
    let second = make_identity(wide, metric).unwrap();
    let chain = make_chain_tt(second, first).unwrap();
    assert_eq!(chain.invoke(&fx(3.)), Ok(fx(3.)));
    assert_eq!(chain.map(&fx(2.)), Ok(fx(2.)));
    assert_eq!(chain.map(&fx(-2.)), Err(Error::InvalidDistance));
    assert_eq!(chain.check(&fx(2.), &fx(2.)), Ok(true));
    assert_eq!(chain.check(&fx(2.), &fx(1.)), Ok(false));
}
