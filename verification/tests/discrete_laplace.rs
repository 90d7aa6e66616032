use opendp::domains::{AllDomain, VectorDomain};
use opendp::error::Error;
use opendp::fixed::Fixed;
use opendp::measurements::discrete_laplace::{
    add_noise, make_base_discrete_laplace_linear, make_base_geometric,
};
use opendp::measures::Loss;

fn fx(x: f64) -> Fixed {
    Fixed::from_bits((x * 4294967296.0).round() as i64)
}

#[test]
fn test_make_discrete_laplace_mechanism_bounded() {
    let measurement =
        make_base_discrete_laplace_linear::<AllDomain<i64>>(fx(10.0), Some((200, 210))).unwrap();
    let arg = 205;
    for noise in [-1000i64, -7, 0, 3, 1000] {
        let ret = measurement.invoke(&arg, &noise).unwrap();
        println!("{:?}", ret);
        assert!(200 <= ret && ret <= 210);
    }
    assert_eq!(measurement.invoke(&arg, &3), Ok(208));

    assert!(measurement.check(&1, &Loss::Finite(fx(0.5))).unwrap());
}

#[test]
fn test_make_vector_discrete_laplace_mechanism_bounded() {
    let measurement =
        make_base_discrete_laplace_linear::<VectorDomain<AllDomain<i64>>>(fx(10.0), Some((200, 210)))
            .unwrap();
    let arg = vec![1, 2, 3, 4];
    let ret = measurement.invoke(&arg, &vec![5, -5, 20, 0]).unwrap();
    println!("{:?}", ret);
    assert_eq!(ret, vec![205, 200, 210, 200]);

    assert!(measurement.check(&1, &Loss::Finite(fx(0.5))).unwrap());
}

#[test]
fn test_make_discrete_laplace_mechanism() {
    let measurement = make_base_discrete_laplace_linear::<AllDomain<i64>>(fx(10.0), None).unwrap();
    let arg = 205;
    let ret = measurement.invoke(&arg, &-12).unwrap();
    println!("{:?}", ret);
    assert_eq!(ret, 193);

    assert!(measurement.check(&1, &Loss::Finite(fx(0.5))).unwrap());
}

#[test]
fn test_make_vector_discrete_laplace_mechanism() {
    let measurement =
        make_base_discrete_laplace_linear::<VectorDomain<AllDomain<i64>>>(fx(10.0), None).unwrap();
    let arg = vec![1, 2, 3, 4];
    let ret = measurement.invoke(&arg, &vec![1, -1, 10, -10]).unwrap();
    println!("{:?}", ret);
    assert_eq!(ret, vec![2, 1, 13, -6]);

    assert!(measurement.check(&1, &Loss::Finite(fx(0.5))).unwrap());
}

#[test]
fn laplace_map_divides_the_distance_by_the_scale() {
    let measurement = make_base_discrete_laplace_linear::<AllDomain<i64>>(fx(10.0), None).unwrap();
    assert_eq!(measurement.map(&1), Ok(Loss::Finite(Fixed::from_bits(429496730))));
    assert_eq!(measurement.map(&5), Ok(Loss::Finite(fx(0.5))));
    assert_eq!(measurement.map(&0), Ok(Loss::zero()));
    assert!(!measurement.check(&1, &Loss::Finite(Fixed::from_bits(429496729))).unwrap());
    assert!(measurement.check(&1, &Loss::Finite(Fixed::from_bits(429496730))).unwrap());
}

#[test]
fn laplace_map_rejects_a_negative_distance() {
    let measurement = make_base_discrete_laplace_linear::<AllDomain<i64>>(fx(10.0), None).unwrap();
    assert_eq!(measurement.map(&-1), Err(Error::InvalidDistance));
    assert_eq!(measurement.check(&-1, &Loss::Infinite), Err(Error::InvalidDistance));
}

#[test]
fn laplace_with_a_scale_of_zero_bounds_nothing() {
    let measurement = make_base_discrete_laplace_linear::<AllDomain<i64>>(fx(0.0), None).unwrap();
    assert_eq!(measurement.map(&0), Ok(Loss::zero()));
    assert_eq!(measurement.map(&1), Ok(Loss::Infinite));
    assert!(!measurement.check(&1, &Loss::Finite(fx(1e9))).unwrap());
    assert!(measurement.check(&1, &Loss::Infinite).unwrap());
}

#[test]
fn laplace_map_fails_where_the_distance_is_out_of_range() {
    let measurement = make_base_discrete_laplace_linear::<AllDomain<i64>>(fx(10.0), None).unwrap();
    assert_eq!(measurement.map(&(1 << 31)), Err(Error::ArithmeticFailure));
    let fine = make_base_discrete_laplace_linear::<AllDomain<i64>>(Fixed::from_bits(1), None).unwrap();
    assert_eq!(fine.map(&1), Err(Error::ArithmeticFailure));
}

#[test]
fn laplace_construction_rejects_bad_parameters() {
    assert_eq!(
        make_base_discrete_laplace_linear::<AllDomain<i64>>(fx(-1.0), None).err(),
        Some(Error::InvalidParameter)
    );
    assert_eq!(
        make_base_discrete_laplace_linear::<AllDomain<i64>>(fx(1.0), Some((3, 2))).err(),
        Some(Error::InvalidParameter)
    );
    assert!(make_base_discrete_laplace_linear::<AllDomain<i64>>(fx(1.0), Some((2, 2))).is_ok());
}

#[test]
fn laplace_map_is_monotone_on_samples() {
    let measurement = make_base_discrete_laplace_linear::<AllDomain<i64>>(fx(3.0), None).unwrap();
    let mut last = Loss::zero();
    for d in 0..200i64 {
        let next = measurement.map(&d).unwrap();
        match (last, next) {
            (Loss::Finite(a), Loss::Finite(b)) => assert!(a.le(&b)),
            _ => panic!("finite losses expected"),
        }
        last = next;
    }
}

#[test]
fn geometric_is_the_same_mechanism() {
    let old = make_base_geometric::<AllDomain<i64>>(fx(10.0), Some((200, 210))).unwrap();
    let new = make_base_discrete_laplace_linear::<AllDomain<i64>>(fx(10.0), Some((200, 210))).unwrap();
    for d in [0i64, 1, 7, 1000] {
        assert_eq!(old.map(&d), new.map(&d));
    }
    assert_eq!(old.invoke(&500, &-3), new.invoke(&500, &-3));
    assert_eq!(
        make_base_geometric::<AllDomain<i64>>(fx(-10.0), None).err(),
        Some(Error::InvalidParameter)
    );
}

#[test]
fn noise_saturates_and_is_clamped() {
    assert_eq!(add_noise(i64::MAX, 1, None), i64::MAX);
    assert_eq!(add_noise(i64::MIN, -1, None), i64::MIN);
    assert_eq!(add_noise(5, 10, Some((0, 8))), 8);
    assert_eq!(add_noise(50, -1, Some((0, 8))), 7);
    assert_eq!(add_noise(-50, 1, Some((0, 8))), 1);
}

#[test]
fn vector_release_needs_one_draw_for_each_element() {
    let measurement =
        make_base_discrete_laplace_linear::<VectorDomain<AllDomain<i64>>>(fx(10.0), None).unwrap();
    assert_eq!(measurement.invoke(&vec![1, 2, 3], &vec![0, 0]), Err(Error::FailedFunction));
}
