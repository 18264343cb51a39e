use nalgebra::DMatrix;
use shannon::error::RmtError;
use shannon::spectrum::{eigenvalue_gaps, gaps_between, sorted_eigenvalues, Gap};

fn bits(values: &[f64]) -> Vec<u64> {
    values.iter().map(|x| x.to_bits()).collect()
}

fn reals(patterns: &[u64]) -> Vec<f64> {
    patterns.iter().map(|b| f64::from_bits(*b)).collect()
}

fn widths(gaps: &[Gap]) -> Vec<f64> {
    gaps.iter().map(|g| f64::from_bits(g.upper) - f64::from_bits(g.lower)).collect()
}

#[test]
fn sorted_eigenvalues_ascend() {
    let sorted = sorted_eigenvalues(&bits(&[3.0, -1.5, 2.0, -7.25, 0.0, 1e-300])).unwrap();
    assert_eq!(reals(&sorted), vec![-7.25, -1.5, 0.0, 1e-300, 2.0, 3.0]);
}

#[test]
fn sorted_eigenvalues_agree_with_the_standard_sort() {
    let input = [
        0.3, -2.0, 5.5, 5.5, -0.0, 1e10, -1e-10, 0.0, 4.0, f64::INFINITY, -3.25,
        f64::NEG_INFINITY, 2.0, -2.0,
    ];
    let mut expected = input.to_vec();
    expected.sort_by(|a, b| a.partial_cmp(b).unwrap());
    let sorted = sorted_eigenvalues(&bits(&input)).unwrap();
    assert_eq!(sorted, bits(&expected));
}

#[test]
fn sorted_eigenvalues_keep_equal_reals_in_their_order() {
    let minus = (-0.0f64).to_bits();
    let plus = 0.0f64.to_bits();
    assert_eq!(sorted_eigenvalues(&[plus, minus]).unwrap(), vec![plus, minus]);
    assert_eq!(sorted_eigenvalues(&[minus, plus]).unwrap(), vec![minus, plus]);
    let one = 1.0f64.to_bits();
    assert_eq!(
        sorted_eigenvalues(&[one, plus, minus, plus]).unwrap(),
        vec![plus, minus, plus, one]
    );
}

#[test]
fn sorted_eigenvalues_of_nothing_and_of_one() {
    assert_eq!(sorted_eigenvalues(&[]).unwrap(), Vec::<u64>::new());
    assert_eq!(sorted_eigenvalues(&bits(&[4.5])).unwrap(), bits(&[4.5]));
}

#[test]
fn sorted_eigenvalues_refuse_what_is_not_a_number() {
    assert_eq!(
        sorted_eigenvalues(&bits(&[1.0, f64::NAN, 2.0])).unwrap_err(),
        RmtError::EigendecompositionFailure
    );
    assert_eq!(
        sorted_eigenvalues(&[0xffff_ffff_ffff_ffff]).unwrap_err(),
        RmtError::EigendecompositionFailure
    );
}

#[test]
fn gaps_between_pairs_each_item_with_the_next() {
    assert_eq!(
        gaps_between(&[1, 5, 9]),
        vec![Gap { lower: 1, upper: 5 }, Gap { lower: 5, upper: 9 }]
    );
    assert_eq!(gaps_between(&[1]), Vec::<Gap>::new());
    assert_eq!(gaps_between(&[]), Vec::<Gap>::new());
}

#[test]
fn eigenvalue_gaps_sort_and_pair() {
    let gaps = eigenvalue_gaps(Some(bits(&[4.0, 1.0, 2.5]))).unwrap();
    assert_eq!(
        gaps,
        vec![
            Gap { lower: 1.0f64.to_bits(), upper: 2.5f64.to_bits() },
            Gap { lower: 2.5f64.to_bits(), upper: 4.0f64.to_bits() },
        ]
    );
    assert_eq!(widths(&gaps), vec![1.5, 1.5]);
}

#[test]
fn eigenvalue_gaps_are_one_fewer_than_the_dimension() {
    for dimension in 1..=9usize {
        let eigenvalues: Vec<f64> = (0..dimension).map(|k| ((k * 7) % 5) as f64 - 2.0).collect();
        let gaps = eigenvalue_gaps(Some(bits(&eigenvalues))).unwrap();
        assert_eq!(gaps.len(), dimension - 1);
    }
    assert_eq!(eigenvalue_gaps(Some(Vec::new())).unwrap().len(), 0);
}

#[test]
fn eigenvalue_gaps_of_a_five_by_five_matrix_are_four() {
    let m = DMatrix::<f64>::from_fn(5, 5, |i, j| 1.0 / ((i + j) as f64 + 1.0));
    let eigenvalues = m.eigenvalues().map(|v| bits(v.as_slice()));
    let gaps = eigenvalue_gaps(eigenvalues).unwrap();
    assert_eq!(gaps.len(), 4);
    for width in widths(&gaps) {
        assert!(width >= 0.0);
    }
}

#[test]
fn eigenvalue_gaps_of_the_identity_are_zero() {
    for k in 1..=6usize {
        let m = DMatrix::<f64>::identity(k, k);
        let eigenvalues = m.eigenvalues().map(|v| bits(v.as_slice()));
        let gaps = eigenvalue_gaps(eigenvalues).unwrap();
        assert_eq!(widths(&gaps), vec![0.0; k - 1]);
    }
}

#[test]
fn eigenvalue_gaps_never_run_downwards() {
    let gaps = eigenvalue_gaps(Some(bits(&[9.0, -3.0, 9.0, 0.5, -3.0, 1e-9, 7.0]))).unwrap();
    for gap in &gaps {
        assert!(f64::from_bits(gap.lower) <= f64::from_bits(gap.upper));
    }
    assert_eq!(gaps.len(), 6);
}

#[test]
fn eigenvalue_gaps_fail_without_eigenvalues() {
    assert_eq!(eigenvalue_gaps(None).unwrap_err(), RmtError::EigendecompositionFailure);
}

#[test]
fn eigenvalue_gaps_fail_on_what_is_not_a_number() {
    assert_eq!(
        eigenvalue_gaps(Some(bits(&[1.0, 2.0, f64::NAN]))).unwrap_err(),
        RmtError::EigendecompositionFailure
    );
}
