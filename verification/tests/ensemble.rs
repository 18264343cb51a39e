use rand_distr::{Distribution, StandardNormal};
use shannon::ensemble::{
    random_wigner_matrix, wigner_draw_count, wishart_draw_count, wishart_sample_matrix,
};
use shannon::error::RmtError;

fn normal_draws(count: usize) -> Vec<u64> {
    let mut rng = rand::thread_rng();
    (0..count)
        .map(|_| {
            let x: f64 = StandardNormal.sample(&mut rng);
            x.to_bits()
        })
        .collect()
}

#[test]
fn wigner_draw_count_is_the_triangle_number() {
    assert_eq!(wigner_draw_count(0), Some(0));
    assert_eq!(wigner_draw_count(1), Some(1));
    assert_eq!(wigner_draw_count(2), Some(3));
    assert_eq!(wigner_draw_count(5), Some(15));
    assert_eq!(wigner_draw_count(1000), Some(500500));
}

#[test]
fn wigner_draw_count_has_no_answer_for_a_matrix_too_large() {
    assert_eq!(wigner_draw_count(usize::MAX), None);
    assert_eq!(wigner_draw_count(1 << (usize::BITS / 2)), None);
}

#[test]
fn wigner_of_three_places_each_draw_on_its_pair() {
    let m = random_wigner_matrix(3, &[10, 11, 12, 13, 14, 15]).unwrap();
    assert_eq!(m.shape(), (3, 3));
    assert_eq!(m.to_row_major(), vec![10, 11, 12, 11, 13, 14, 12, 14, 15]);
}

#[test]
fn wigner_of_one_is_its_draw() {
    let m = random_wigner_matrix(1, &[77]).unwrap();
    assert_eq!(m.shape(), (1, 1));
    assert_eq!(m.get(0, 0), Some(77));
}

#[test]
fn wigner_of_zero_is_the_empty_matrix() {
    let m = random_wigner_matrix(0, &[]).unwrap();
    assert_eq!(m.shape(), (0, 0));
    assert_eq!(m.to_row_major(), Vec::<u64>::new());
}

#[test]
fn wigner_refuses_a_wrong_number_of_draws() {
    assert_eq!(random_wigner_matrix(3, &[1, 2, 3, 4, 5]).unwrap_err(), RmtError::InvalidDimension);
    assert_eq!(
        random_wigner_matrix(3, &[1, 2, 3, 4, 5, 6, 7]).unwrap_err(),
        RmtError::InvalidDimension
    );
    assert_eq!(random_wigner_matrix(0, &[1]).unwrap_err(), RmtError::InvalidDimension);
    assert_eq!(random_wigner_matrix(usize::MAX, &[]).unwrap_err(), RmtError::InvalidDimension);
}

#[test]
fn wigner_is_symmetric_bit_for_bit() {
    for n in 1..=12 {
        let draws = normal_draws(wigner_draw_count(n).unwrap());
        let m = random_wigner_matrix(n, &draws).unwrap();
        assert_eq!(m.shape(), (n, n));
        assert!(m.is_symmetric());
        for i in 0..n {
            for j in 0..n {
                assert_eq!(m.get(i, j), m.get(j, i));
            }
        }
    }
}

#[test]
fn wigner_uses_every_draw_once_above_the_diagonal() {
    let n = 6;
    let draws: Vec<u64> = (0..wigner_draw_count(n).unwrap() as u64).collect();
    let m = random_wigner_matrix(n, &draws).unwrap();
    let mut walked = Vec::new();
    for i in 0..n {
        for j in i..n {
            walked.push(m.entry(i, j));
        }
    }
    assert_eq!(walked, draws);
}

#[test]
fn wigner_is_a_function_of_its_draws() {
    let draws = normal_draws(wigner_draw_count(7).unwrap());
    let first = random_wigner_matrix(7, &draws).unwrap();
    let second = random_wigner_matrix(7, &draws).unwrap();
    assert_eq!(first.to_row_major(), second.to_row_major());
}

#[test]
fn wishart_draw_count_is_the_product() {
    assert_eq!(wishart_draw_count(3, 5), Some(15));
    assert_eq!(wishart_draw_count(0, 5), Some(0));
    assert_eq!(wishart_draw_count(3, 0), Some(0));
    assert_eq!(wishart_draw_count(usize::MAX, 2), None);
}

#[test]
fn wishart_samples_fill_row_after_row() {
    let m = wishart_sample_matrix(3, 2, &[1, 2, 3, 4, 5, 6]).unwrap();
    assert_eq!(m.shape(), (2, 3));
    assert_eq!(m.get(0, 0), Some(1));
    assert_eq!(m.get(0, 2), Some(3));
    assert_eq!(m.get(1, 0), Some(4));
    assert_eq!(m.to_row_major(), vec![1, 2, 3, 4, 5, 6]);
}

#[test]
fn wishart_samples_may_be_none_at_all() {
    let m = wishart_sample_matrix(3, 0, &[]).unwrap();
    assert_eq!(m.shape(), (0, 3));
}

#[test]
fn wishart_refuses_a_wrong_number_of_draws() {
    assert_eq!(
        wishart_sample_matrix(3, 2, &[1, 2, 3, 4, 5]).unwrap_err(),
        RmtError::InvalidDimension
    );
    assert_eq!(wishart_sample_matrix(3, 0, &[1]).unwrap_err(), RmtError::InvalidDimension);
    assert_eq!(
        wishart_sample_matrix(usize::MAX, usize::MAX, &[]).unwrap_err(),
        RmtError::InvalidDimension
    );
}

#[test]
fn wishart_samples_are_a_function_of_the_draws() {
    let draws = normal_draws(wishart_draw_count(4, 9).unwrap());
    let first = wishart_sample_matrix(4, 9, &draws).unwrap();
    let second = wishart_sample_matrix(4, 9, &draws).unwrap();
    assert_eq!(first.to_row_major(), second.to_row_major());
}
