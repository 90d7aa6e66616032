use opendp::domains::{AllDomain, BoundedDomain, Domain, MapDomain, SizedDomain, VectorDomain};
use opendp::error::Error;
use opendp::fixed::Fixed;
use opendp::measurements::discrete_gaussian::make_base_discrete_gaussian;
use opendp::measurements::laplace::make_base_laplace;
use opendp::measures::Loss;
use opendp::traits::TotalDistance;
use opendp::transformations::count_by::make_count_by;

fn fx(x: f64) -> Fixed {
    Fixed::from_bits((x * 4294967296.0).round() as i64)
}

#[test]
fn test_make_base_discrete_gaussian() {
    let measurement = make_base_discrete_gaussian::<AllDomain<i64>>(fx(0.0)).unwrap();
    let res = measurement.invoke(&99, &0).unwrap();
    assert_eq!(res, 99);
}

#[test]
fn gaussian_map_is_half_the_squared_ratio() {
    let measurement = make_base_discrete_gaussian::<AllDomain<i64>>(fx(2.0)).unwrap();
    assert_eq!(measurement.map(&fx(0.)), Ok(Loss::zero()));
    assert_eq!(measurement.map(&fx(1.)), Ok(Loss::Finite(fx(0.125))));
    assert_eq!(measurement.map(&fx(4.)), Ok(Loss::Finite(fx(2.))));
    assert_eq!(measurement.map(&fx(-1.)), Err(Error::InvalidDistance));
    assert!(measurement.check(&fx(4.), &Loss::Finite(fx(2.))).unwrap());
    assert!(!measurement.check(&fx(4.), &Loss::Finite(fx(1.99))).unwrap());
    let free = make_base_discrete_gaussian::<AllDomain<i64>>(fx(0.0)).unwrap();
    assert_eq!(free.map(&fx(1.)), Ok(Loss::Infinite));
    assert_eq!(
        make_base_discrete_gaussian::<AllDomain<i64>>(fx(-1.0)).err(),
        Some(Error::InvalidParameter)
    );
}

#[test]
fn gaussian_loss_grows_with_the_distance_and_falls_with_the_scale() {
    let mut last = Loss::zero();
    let measurement = make_base_discrete_gaussian::<VectorDomain<AllDomain<i64>>>(fx(3.0)).unwrap();
    for d in 0..100 {
        let next = measurement.map(&fx(d as f64 * 0.37)).unwrap();
        assert!(last.le(&next));
        last = next;
    }
    let mut last = Loss::Infinite;
    for s in 1..100 {
        let measurement =
            make_base_discrete_gaussian::<AllDomain<i64>>(fx(s as f64 * 0.37)).unwrap();
        let next = measurement.map(&fx(5.)).unwrap();
        assert!(next.le(&last));
        last = next;
    }
    assert_eq!(
        measurement.invoke(&vec![1, i64::MAX, -4], &vec![2, 2, 2]),
        Ok(vec![3, i64::MAX, -2])
    );
}

#[test]
fn laplace_rounds_to_the_grid_and_adds_steps_of_it() {
    let measurement = make_base_laplace(fx(1.), Some(-2)).unwrap();
    assert_eq!(measurement.invoke(&fx(1.3), &0), Ok(fx(1.25)));
    assert_eq!(measurement.invoke(&fx(1.3), &3), Ok(fx(2.)));
    assert_eq!(measurement.invoke(&fx(-1.3), &-1), Ok(fx(-1.5)));
    assert_eq!(measurement.invoke(&fx(1.125), &0), Ok(fx(1.25)));
    assert_eq!(
        measurement.invoke(&Fixed::from_bits(i64::MAX), &1),
        Err(Error::ArithmeticFailure)
    );
    // (1 + 0.25 - 2^-32) / 1
    assert_eq!(
        measurement.map(&fx(1.)),
        Ok(Loss::Finite(Fixed::from_bits(fx(1.25).to_bits() - 1)))
    );
    assert_eq!(measurement.map(&fx(-1.)), Err(Error::InvalidDistance));
}

#[test]
fn laplace_on_the_finest_grid_has_no_relaxation() {
    let measurement = make_base_laplace(fx(0.5), None).unwrap();
    assert_eq!(measurement.map(&fx(1.)), Ok(Loss::Finite(fx(2.))));
    assert_eq!(measurement.map(&fx(0.)), Ok(Loss::zero()));
    let free = make_base_laplace(fx(0.), None).unwrap();
    assert_eq!(free.map(&fx(1.)), Ok(Loss::Infinite));
    assert_eq!(make_base_laplace(fx(-0.5), None).err(), Some(Error::InvalidParameter));
    assert_eq!(make_base_laplace(fx(0.5), Some(40)).err(), Some(Error::ArithmeticFailure));
}

#[test]
fn count_by_counts_in_the_order_of_first_occurrence() {
    let count = make_count_by::<i64>().unwrap();
    assert_eq!(
        count.invoke(&vec![3, 1, 3, 3, 2, 1]),
        Ok(vec![(3, fx(3.)), (1, fx(2.)), (2, fx(1.))])
    );
    assert_eq!(count.invoke(&vec![]), Ok(vec![]));
    assert_eq!(count.map(&3), Ok(fx(3.)));
    assert_eq!(count.map(&(1 << 31)), Err(Error::ArithmeticFailure));
}

#[test]
fn domains_decide_membership() {
    let bounded = BoundedDomain::new_closed((2i64, 5)).unwrap();
    assert!(bounded.member(&2) && bounded.member(&5) && !bounded.member(&1) && !bounded.member(&6));
    assert!(BoundedDomain::new_closed((5i64, 2)).is_none());
    let vectors = VectorDomain::new(bounded);
    assert!(vectors.member(&vec![2, 3, 5]) && vectors.member(&vec![]) && !vectors.member(&vec![2, 9]));
    let sized = SizedDomain::new(vectors, 3);
    assert!(sized.member(&vec![2, 3, 5]) && !sized.member(&vec![2, 3]) && !sized.member(&vec![2, 3, 9]));
    let maps = MapDomain::new(AllDomain::<char>::new(), AllDomain::<Fixed>::new());
    assert!(maps.member(&vec![('a', fx(1.)), ('b', fx(1.))]));
    assert!(!maps.member(&vec![('a', fx(1.)), ('b', fx(1.)), ('a', fx(2.))]));
    assert!(sized.same(&SizedDomain::new(VectorDomain::new(bounded), 3)));
    assert!(!sized.same(&SizedDomain::new(VectorDomain::new(bounded), 4)));
    assert!(!bounded.same(&BoundedDomain::new_closed((2i64, 6)).unwrap()));
}

#[test]
fn losses_are_ordered_with_no_bound_on_top() {
    assert!(Loss::Finite(fx(1.)).le(&Loss::Finite(fx(1.))));
    assert!(Loss::Finite(fx(1.)).le(&Loss::Infinite));
    assert!(Loss::Infinite.le(&Loss::Infinite));
    assert!(!Loss::Infinite.le(&Loss::Finite(fx(1e9))));
    assert!(Loss::Infinite.is_valid() && Loss::zero().is_valid() && !Loss::Finite(fx(-1.)).is_valid());
    assert!((fx(1.), 3u32).le(&(fx(1.), 4u32)) && !(fx(2.), 3u32).le(&(fx(1.), 4u32)));
}
