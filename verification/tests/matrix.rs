use shannon::error::RmtError;
use shannon::matrix::{entry_count, Matrix};

#[test]
fn zeros_has_the_shape_and_only_zeros() {
    let m = Matrix::zeros(2, 3).unwrap();
    assert_eq!(m.rows(), 2);
    assert_eq!(m.cols(), 3);
    assert_eq!(m.shape(), (2, 3));
    assert_eq!(m.to_row_major(), vec![0; 6]);
}

#[test]
fn zeros_may_be_empty_in_either_direction() {
    assert_eq!(Matrix::zeros(0, 0).unwrap().shape(), (0, 0));
    assert_eq!(Matrix::zeros(0, 4).unwrap().shape(), (0, 4));
    assert_eq!(Matrix::zeros(4, 0).unwrap().shape(), (4, 0));
    assert_eq!(Matrix::zeros(0, 4).unwrap().to_row_major(), Vec::<u64>::new());
}

#[test]
fn zeros_refuses_what_cannot_be_addressed() {
    assert_eq!(Matrix::zeros(usize::MAX, 2).unwrap_err(), RmtError::InvalidDimension);
    assert_eq!(Matrix::zeros(usize::MAX, usize::MAX).unwrap_err(), RmtError::InvalidDimension);
    assert_eq!(
        Matrix::zeros(isize::MAX as usize / 8 + 1, 1).unwrap_err(),
        RmtError::InvalidDimension
    );
}

#[test]
fn entry_count_is_the_product_up_to_the_limit() {
    assert_eq!(entry_count(0, 7), Some(0));
    assert_eq!(entry_count(3, 7), Some(21));
    let limit = isize::MAX as usize / 8;
    assert_eq!(entry_count(limit, 1), Some(limit));
    assert_eq!(entry_count(1, limit + 1), None);
    assert_eq!(entry_count(usize::MAX, usize::MAX), None);
}

#[test]
fn from_row_major_cuts_the_data_into_rows() {
    let m = Matrix::from_row_major(2, 3, &[1, 2, 3, 4, 5, 6]).unwrap();
    assert_eq!(m.shape(), (2, 3));
    assert_eq!(m.get(0, 0), Some(1));
    assert_eq!(m.get(0, 2), Some(3));
    assert_eq!(m.get(1, 0), Some(4));
    assert_eq!(m.get(1, 2), Some(6));
    assert_eq!(m.entry(1, 1), 5);
}

#[test]
fn from_row_major_refuses_a_wrong_length() {
    assert_eq!(
        Matrix::from_row_major(2, 3, &[1, 2, 3, 4, 5]).unwrap_err(),
        RmtError::InvalidDimension
    );
    assert_eq!(
        Matrix::from_row_major(2, 3, &[1, 2, 3, 4, 5, 6, 7]).unwrap_err(),
        RmtError::InvalidDimension
    );
    assert_eq!(Matrix::from_row_major(0, 3, &[1]).unwrap_err(), RmtError::InvalidDimension);
    assert_eq!(
        Matrix::from_row_major(usize::MAX, 2, &[]).unwrap_err(),
        RmtError::InvalidDimension
    );
}

#[test]
fn row_major_round_trip() {
    let data: Vec<u64> = (100..112).collect();
    let m = Matrix::from_row_major(3, 4, &data).unwrap();
    assert_eq!(m.to_row_major(), data);
    let m = Matrix::from_row_major(4, 3, &data).unwrap();
    assert_eq!(m.to_row_major(), data);
}

#[test]
fn get_outside_the_matrix_is_none() {
    let m = Matrix::from_row_major(2, 3, &[1, 2, 3, 4, 5, 6]).unwrap();
    assert_eq!(m.get(2, 0), None);
    assert_eq!(m.get(0, 3), None);
    assert_eq!(m.get(usize::MAX, usize::MAX), None);
}

#[test]
fn put_changes_one_entry_only() {
    let mut m = Matrix::from_row_major(2, 3, &[1, 2, 3, 4, 5, 6]).unwrap();
    m.put(1, 0, 40);
    assert_eq!(m.to_row_major(), vec![1, 2, 3, 40, 5, 6]);
    m.put(0, 2, 30);
    assert_eq!(m.to_row_major(), vec![1, 2, 30, 40, 5, 6]);
    assert_eq!(m.shape(), (2, 3));
}

#[test]
fn transpose_exchanges_rows_and_columns() {
    let m = Matrix::from_row_major(2, 3, &[1, 2, 3, 4, 5, 6]).unwrap();
    let t = m.transpose();
    assert_eq!(t.shape(), (3, 2));
    assert_eq!(t.to_row_major(), vec![1, 4, 2, 5, 3, 6]);
    assert_eq!(t.transpose().to_row_major(), m.to_row_major());
    assert_eq!(m.to_row_major(), vec![1, 2, 3, 4, 5, 6]);
}

#[test]
fn transpose_of_an_empty_matrix_keeps_both_sizes() {
    let m = Matrix::zeros(0, 3).unwrap();
    assert_eq!(m.transpose().shape(), (3, 0));
}

#[test]
fn is_symmetric_compares_bit_for_bit() {
    assert!(Matrix::zeros(0, 0).unwrap().is_symmetric());
    assert!(Matrix::from_row_major(1, 1, &[9]).unwrap().is_symmetric());
    assert!(Matrix::from_row_major(2, 2, &[1, 2, 2, 3]).unwrap().is_symmetric());
    assert!(!Matrix::from_row_major(2, 2, &[1, 2, 7, 3]).unwrap().is_symmetric());
    assert!(!Matrix::from_row_major(2, 3, &[1, 2, 3, 2, 1, 0]).unwrap().is_symmetric());
    assert!(!Matrix::zeros(0, 1).unwrap().is_symmetric());
    // the two zeros are equal as reals and differ as patterns
    let zeros = [0.0f64.to_bits(), (-0.0f64).to_bits(), 0.0f64.to_bits(), 0.0f64.to_bits()];
    assert!(!Matrix::from_row_major(2, 2, &zeros).unwrap().is_symmetric());
}

#[test]
fn symmetric_means_equal_to_the_transpose() {
    for data in [[1u64, 2, 2, 3], [1, 2, 7, 3], [0, 0, 0, 0], [5, 6, 6, 5]] {
        let m = Matrix::from_row_major(2, 2, &data).unwrap();
        let own_transpose = m.transpose().to_row_major() == m.to_row_major();
        assert_eq!(m.is_symmetric(), own_transpose);
    }
}
