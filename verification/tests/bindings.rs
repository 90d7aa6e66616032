use opendp::bindings::{
    atom_type, domain_shape, metric_kind, resolve_discrete_gaussian, resolve_resize, unframe,
    AtomType, MetricKind, Shape,
};
use opendp::error::Error;

#[test]
fn atom_types_are_known_by_name() {
    assert_eq!(atom_type("i32"), Ok(AtomType::I32));
    assert_eq!(atom_type("u8"), Ok(AtomType::U8));
    assert_eq!(atom_type("usize"), Ok(AtomType::Usize));
    assert_eq!(atom_type("f64"), Ok(AtomType::Double));
    assert_eq!(atom_type("f32"), Ok(AtomType::Single));
    assert_eq!(atom_type("i33"), Err(Error::InvalidParameter));
    assert_eq!(atom_type(""), Err(Error::InvalidParameter));
    assert_eq!(atom_type(" i32"), Err(Error::InvalidParameter));
    assert!(AtomType::I128.is_integer() && AtomType::U16.is_integer());
    assert!(!AtomType::Single.is_integer() && !AtomType::Double.is_integer());
}

#[test]
fn domains_are_resolved_by_descriptor() {
    assert_eq!(domain_shape("AllDomain<i32>"), Ok((Shape::Scalar, AtomType::I32)));
    assert_eq!(
        domain_shape("VectorDomain<AllDomain<u64>>"),
        Ok((Shape::Vector, AtomType::U64))
    );
    assert_eq!(domain_shape("VectorDomain<AllDomain<f64>>"), Ok((Shape::Vector, AtomType::Double)));
    assert_eq!(domain_shape("VectorDomain<i32>"), Err(Error::InvalidParameter));
    assert_eq!(domain_shape("AllDomain<i32"), Err(Error::InvalidParameter));
    assert_eq!(domain_shape("AllDomain<>"), Err(Error::InvalidParameter));
    assert_eq!(domain_shape("AllDomain<AllDomain<i32>>"), Err(Error::InvalidParameter));
    assert_eq!(domain_shape(">"), Err(Error::InvalidParameter));
}

#[test]
fn a_frame_is_taken_off_a_text() {
    assert_eq!(unframe("AllDomain<i32>", "AllDomain<", ">"), Some("i32"));
    assert_eq!(unframe("ab", "a", "b"), Some(""));
    assert_eq!(unframe("aba", "ab", "ba"), None);
    assert_eq!(unframe("äöü", "ä", "ü"), Some("ö"));
    assert_eq!(unframe("abc", "", ""), Some("abc"));
    assert_eq!(unframe("abc", "b", "c"), None);
}

#[test]
fn a_discrete_gaussian_is_picked_by_name() {
    assert_eq!(
        resolve_discrete_gaussian("AllDomain<i32>", "ZeroConcentratedDivergence<f64>"),
        Ok((Shape::Scalar, AtomType::Double))
    );
    assert_eq!(
        resolve_discrete_gaussian("VectorDomain<AllDomain<i8>>", "ZeroConcentratedDivergence<f32>"),
        Ok((Shape::Vector, AtomType::Single))
    );
    assert_eq!(
        resolve_discrete_gaussian("AllDomain<f64>", "ZeroConcentratedDivergence<f64>"),
        Err(Error::InvalidParameter)
    );
    assert_eq!(
        resolve_discrete_gaussian("AllDomain<i32>", "ZeroConcentratedDivergence<i32>"),
        Err(Error::InvalidParameter)
    );
    assert_eq!(
        resolve_discrete_gaussian("AllDomain<i32>", "MaxDivergence<f64>"),
        Err(Error::InvalidParameter)
    );
}

#[test]
fn a_resize_is_picked_by_name() {
    assert_eq!(
        resolve_resize("SymmetricDistance", "SymmetricDistance", "i32"),
        Ok((MetricKind::Symmetric, MetricKind::Symmetric, AtomType::I32))
    );
    assert_eq!(
        resolve_resize("InsertDeleteDistance", "SymmetricDistance", "f64"),
        Ok((MetricKind::InsertDelete, MetricKind::Symmetric, AtomType::Double))
    );
    assert_eq!(metric_kind("L1Distance"), Err(Error::InvalidParameter));
    assert_eq!(
        resolve_resize("SymmetricDistance", "AbsoluteDistance", "i32"),
        Err(Error::InvalidParameter)
    );
    assert_eq!(
        resolve_resize("SymmetricDistance", "SymmetricDistance", "String"),
        Err(Error::InvalidParameter)
    );
}
