use opendp::error::Error;
use opendp::fixed::Fixed;
use opendp::transformations::count_cdf::{
    abs_diff, cdf_of, count_lt, count_lt_recursive, make_cdf, make_quantiles_from_counts,
    Interpolation,
};

fn fx(x: f64) -> Fixed {
    Fixed::from_bits((x * 4294967296.0).round() as i64)
}

fn fxs(xs: &[f64]) -> Vec<Fixed> {
    xs.iter().map(|x| fx(*x)).collect()
}

/// Whether `got` is `expected` up to what rounding to the grid can move it.
fn near(got: &[Fixed], expected: &[f64], steps: i64) -> bool {
    got.len() == expected.len()
        && got.iter().zip(expected).all(|(g, e)| (g.to_bits() - fx(*e).to_bits()).abs() <= steps)
}

#[test]
fn test_cdf() {
    let cdf_trans = make_cdf().unwrap();
    let cdf = cdf_trans.invoke(&fxs(&[2.23, 3.4, 5., 2.7])).unwrap();
    assert!(near(
        &cdf,
        &[0.16729182295573897, 0.42235558889722435, 0.7974493623405852, 1.0],
        2
    ));
    assert_eq!(cdf[3], fx(1.0));
}

#[test]
fn test_quantile() {
    let edges: Vec<i64> = vec![0, 25, 50, 75, 100];
    let alphas = fxs(&[0., 0.1, 0.24, 0.51, 0.74, 0.75, 0.76, 0.99, 1.]);
    let quantile_trans =
        make_quantiles_from_counts(edges.clone(), alphas.clone(), Interpolation::Nearest).unwrap();
    let quantiles = quantile_trans.invoke(&vec![100, 100, 100, 100]).unwrap();
    assert_eq!(quantiles, vec![0, 0, 25, 50, 75, 75, 75, 100, 100]);

    let quantile_trans = make_quantiles_from_counts(edges, alphas, Interpolation::Linear).unwrap();
    let quantiles = quantile_trans.invoke(&vec![100, 100, 100, 100]).unwrap();
    assert_eq!(quantiles, vec![0, 10, 24, 51, 74, 75, 76, 99, 100]);
}

#[test]
fn test_quantile_with_edge_buckets() {
    let edges: Vec<i64> = vec![0, 25, 50, 75, 100];
    let alphas = fxs(&[0., 0.1, 0.24, 0.51, 0.74, 0.75, 0.76, 0.99, 1.]);
    let quantile_trans =
        make_quantiles_from_counts(edges, alphas, Interpolation::Nearest).unwrap();
    let quantiles = quantile_trans.invoke(&vec![210, 100, 100, 100, 100, 234]).unwrap();
    println!("{:?}", quantiles);
    assert_eq!(quantiles, vec![0, 0, 25, 50, 75, 75, 75, 100, 100]);
}

#[test]
fn test_quantile_float() {
    let edges = fxs(&[0., 10., 20., 30.]);
    let alphas = fxs(&[0.2, 0.4, 0.7]);
    let quantile_trans =
        make_quantiles_from_counts(edges.clone(), alphas.clone(), Interpolation::Nearest).unwrap();
    let quantiles = quantile_trans.invoke(&fxs(&[2.23, 3.4, 5.])).unwrap();
    assert_eq!(quantiles, fxs(&[10., 20., 20.]));

    let quantile_trans = make_quantiles_from_counts(edges, alphas, Interpolation::Linear).unwrap();
    let quantiles = quantile_trans.invoke(&fxs(&[2.23, 3.4, 5.])).unwrap();
    assert!(near(&quantiles, &[9.533632286995514, 15.94705882352941, 23.622], 64));
    println!("{:?}", quantiles);
}

#[test]
fn test_quantile_int() {
    let edges: Vec<i64> = vec![0, 10, 50, 100];
    let alphas = fxs(&[0.2, 0.4, 0.7]);
    let quantile_trans =
        make_quantiles_from_counts(edges, alphas, Interpolation::Nearest).unwrap();
    let quantiles = quantile_trans.invoke(&vec![2, 3, 5]).unwrap();
    assert_eq!(quantiles, vec![10, 50, 50]);
}

#[test]
fn quantile_parameters_are_validated() {
    let alphas = fxs(&[0.2, 0.4]);
    let none: Vec<i64> = vec![];
    assert_eq!(
        make_quantiles_from_counts(none, alphas.clone(), Interpolation::Nearest).err(),
        Some(Error::InvalidParameter)
    );
    assert_eq!(
        make_quantiles_from_counts(vec![0i64, 5, 5], alphas.clone(), Interpolation::Nearest).err(),
        Some(Error::InvalidParameter)
    );
    assert_eq!(
        make_quantiles_from_counts(vec![0i64, 5], fxs(&[0.4, 0.2]), Interpolation::Nearest).err(),
        Some(Error::InvalidParameter)
    );
    assert_eq!(
        make_quantiles_from_counts(vec![0i64, 5], fxs(&[-0.1, 0.2]), Interpolation::Nearest).err(),
        Some(Error::InvalidParameter)
    );
    assert_eq!(
        make_quantiles_from_counts(vec![0i64, 5], fxs(&[0.1, 1.5]), Interpolation::Nearest).err(),
        Some(Error::InvalidParameter)
    );
    assert!(make_quantiles_from_counts(vec![0i64, 5], fxs(&[0., 1.]), Interpolation::Nearest).is_ok());
    assert!(make_quantiles_from_counts(vec![0i64], vec![], Interpolation::Linear).is_ok());
}

#[test]
fn quantiles_need_one_count_for_each_bin() {
    let trans =
        make_quantiles_from_counts(vec![0i64, 10, 20], fxs(&[0.5]), Interpolation::Nearest).unwrap();
    assert_eq!(trans.invoke(&vec![1]), Err(Error::FailedFunction));
    assert_eq!(trans.invoke(&vec![1, 2, 3]), Err(Error::FailedFunction));
    assert_eq!(trans.invoke(&vec![1, 2, 3, 4, 5]), Err(Error::FailedFunction));
    assert_eq!(trans.invoke(&vec![1, 1]), Ok(vec![10]));
    assert_eq!(trans.invoke(&vec![9, 1, 1, 9]), Ok(vec![10]));
}

#[test]
fn quantiles_of_a_single_edge() {
    let trans =
        make_quantiles_from_counts(vec![7i64], fxs(&[0.1, 0.5]), Interpolation::Nearest).unwrap();
    assert_eq!(trans.invoke(&vec![]), Ok(vec![7, 7]));
    assert_eq!(trans.invoke(&vec![3, 4]), Err(Error::FailedFunction));
}

#[test]
fn quantiles_of_an_empty_histogram_fail() {
    let trans =
        make_quantiles_from_counts(vec![0i64, 10, 20], fxs(&[0.5]), Interpolation::Linear).unwrap();
    assert_eq!(trans.invoke(&vec![0, 0]), Err(Error::ArithmeticFailure));
}

#[test]
fn cdf_of_nothing_fails() {
    let cdf_trans = make_cdf().unwrap();
    assert_eq!(cdf_trans.invoke(&vec![]), Err(Error::FailedFunction));
    assert_eq!(cdf_trans.invoke(&fxs(&[0., 0.])), Err(Error::ArithmeticFailure));
    assert_eq!(
        cdf_trans.invoke(&vec![Fixed::from_bits(i64::MAX), Fixed::from_bits(1)]),
        Err(Error::ArithmeticFailure)
    );
}

#[test]
fn cdf_rounds_each_share_down() {
    assert_eq!(
        cdf_of(&vec![1i64, 1, 1]),
        Ok(vec![Fixed::from_bits(1431655765), Fixed::from_bits(2863311530), fx(1.)])
    );
    assert_eq!(cdf_of(&fxs(&[1., 3.])), Ok(fxs(&[0.25, 1.])));
}

#[test]
fn postprocessors_bound_nothing() {
    let cdf_trans = make_cdf().unwrap();
    assert_eq!(cdf_trans.map(&()), Ok(()));
    assert_eq!(cdf_trans.check(&(), &()), Ok(true));
}

#[test]
fn abs_diff_is_symmetric() {
    assert_eq!(abs_diff(3, 5), 2);
    assert_eq!(abs_diff(5, 3), 2);
    assert_eq!(abs_diff(4, 4), 0);
    assert_eq!(abs_diff(0, usize::MAX), usize::MAX);
}

#[test]
fn count_lt_counts_what_lies_below() {
    let x: Vec<i64> = vec![1, 3, 3, 5, 8];
    assert_eq!(count_lt(&x, 0, 5, &0), 0);
    assert_eq!(count_lt(&x, 0, 5, &1), 0);
    assert_eq!(count_lt(&x, 0, 5, &2), 1);
    assert_eq!(count_lt(&x, 0, 5, &3), 1);
    assert_eq!(count_lt(&x, 0, 5, &4), 3);
    assert_eq!(count_lt(&x, 0, 5, &8), 4);
    assert_eq!(count_lt(&x, 0, 5, &9), 5);
    assert_eq!(count_lt(&x, 1, 4, &4), 2);
    assert_eq!(count_lt(&x, 2, 2, &4), 0);
}

#[test]
fn count_lt_recursive_agrees_with_count_lt() {
    let x: Vec<i64> = vec![1, 3, 3, 5, 8, 8, 13, 21];
    let edges: Vec<i64> = vec![-2, 1, 2, 3, 6, 8, 9, 20, 21, 22, 30];
    let mut counts = vec![0usize; edges.len()];
    count_lt_recursive(&mut counts, &edges, &x, 0, edges.len(), 0, x.len());
    let direct: Vec<usize> = edges.iter().map(|e| count_lt(&x, 0, x.len(), e)).collect();
    assert_eq!(counts, direct);
    assert_eq!(counts, vec![0, 0, 1, 1, 4, 4, 6, 7, 7, 8, 8]);

    let mut part = vec![99usize; edges.len()];
    count_lt_recursive(&mut part, &edges, &x, 2, 5, 0, x.len());
    assert_eq!(part, vec![99, 99, 1, 1, 4, 99, 99, 99, 99, 99, 99]);
}

#[test]
fn equal_edges_get_equal_counts() {
    let x: Vec<i64> = vec![1, 3, 3, 5, 8];
    let edges: Vec<i64> = vec![3, 3, 4, 4, 4, 9, 9];
    let mut counts = vec![77usize; edges.len() + 2];
    count_lt_recursive(&mut counts, &edges, &x, 0, edges.len(), 0, x.len());
    assert_eq!(counts, vec![1, 1, 3, 3, 3, 5, 5, 77, 77]);
    let mut none = vec![5usize; 3];
    count_lt_recursive(&mut none, &edges, &x, 2, 2, 0, x.len());
    assert_eq!(none, vec![5, 5, 5]);
    let empty: Vec<i64> = vec![];
    let mut counts = vec![9usize; edges.len()];
    count_lt_recursive(&mut counts, &edges, &empty, 0, edges.len(), 0, 0);
    assert_eq!(counts, vec![0; 7]);
}
