use multithread_matrix::multi_threaded_multiply;
use multithread_matrix::Matrix;

fn bits_of(values: Vec<f64>) -> Vec<u64> {
    values.into_iter().map(f64::to_bits).collect()
}

#[test]
fn my_test() {
    let threads: usize = 4;

    let a = Matrix::new(2, 2, &bits_of(vec![1., 2., 3., 4.])).unwrap();

    let b = Matrix::new(2, 2, &bits_of(vec![1., 2., 3., 4.])).unwrap();

    let c_expect = Matrix::new(2, 2, &bits_of(vec![7., 10., 15., 22.])).unwrap();

    let c = multi_threaded_multiply(&a, &b, threads).unwrap();

    assert_eq!(c_expect.compare(&c), true);
}

#[test]
fn test_non_square_matrices() {
    let threads: usize = 4;

    let a = Matrix::new(2, 3, &bits_of(vec![1., 2., 3., 4., 5., 6.])).unwrap();

    let b = Matrix::new(3, 2, &bits_of(vec![7., 8., 9., 10., 11., 12.])).unwrap();

    let c_expect = Matrix::new(2, 2, &bits_of(vec![58., 64., 139., 154.])).unwrap();

    let c = multi_threaded_multiply(&a, &b, threads).unwrap();

    assert_eq!(c_expect.compare(&c), true);
}

#[test]
fn test_identity_matrix() {
    let threads: usize = 4;

    let a = Matrix::new(3, 3, &bits_of(vec![1., 2., 3., 4., 5., 6., 7., 8., 9.])).unwrap();

    let i = Matrix::new(3, 3, &bits_of(vec![1., 0., 0., 0., 1., 0., 0., 0., 1.])).unwrap();

    let c_expect = a.clone();

    let c = multi_threaded_multiply(&a, &i, threads).unwrap();

    assert_eq!(c_expect.compare(&c), true);
}

#[test]
fn test_negative_values() {
    let threads: usize = 4;

    let a = Matrix::new(2, 2, &bits_of(vec![1., -2., -3., 4.])).unwrap();

    let b = Matrix::new(2, 2, &bits_of(vec![-1., 2., 3., -4.])).unwrap();

    let c_expect = Matrix::new(2, 2, &bits_of(vec![-7., 10., 15., -22.])).unwrap();

    let c = multi_threaded_multiply(&a, &b, threads).unwrap();

    assert_eq!(c_expect.compare(&c), true);
}

#[test]
fn test_rectangular_matrices() {
    let threads: usize = 4;

    let a = Matrix::new(3, 2, &bits_of(vec![1., 2., 3., 4., 5., 6.])).unwrap();

    let b = Matrix::new(2, 3, &bits_of(vec![7., 8., 9., 10., 11., 12.])).unwrap();

    let c_expect = Matrix::new(
        3,
        3,
        &bits_of(vec![27., 30., 33., 61., 68., 75., 95., 106., 117.]),
    )
    .unwrap();

    let c = multi_threaded_multiply(&a, &b, threads).unwrap();

    assert_eq!(c_expect.compare(&c), true);
}

#[test]
fn test_large_matrices() {
    let threads: usize = 4;

    let a = Matrix::new(3, 3, &bits_of(vec![1., 2., 3., 4., 5., 6., 7., 8., 9.])).unwrap();

    let b = Matrix::new(3, 3, &bits_of(vec![9., 8., 7., 6., 5., 4., 3., 2., 1.])).unwrap();

    let c_expect = Matrix::new(
        3,
        3,
        &bits_of(vec![30., 24., 18., 84., 69., 54., 138., 114., 90.]),
    )
    .unwrap();

    let c = multi_threaded_multiply(&a, &b, threads).unwrap();

    assert_eq!(c_expect.compare(&c), true);
}

#[test]
fn test_5x5_matrices() {
    let threads: usize = 4;

    let a = Matrix::new(
        5,
        5,
        &bits_of(vec![
            1., 2., 3., 4., 5., 6., 7., 8., 9., 10., 11., 12., 13., 14., 15., 16., 17., 18., 19.,
            20., 21., 22., 23., 24., 25.,
        ]),
    )
    .unwrap();

    let b = Matrix::new(
        5,
        5,
        &bits_of(vec![
            1., 2., 3., 4., 5., 6., 7., 8., 9., 10., 11., 12., 13., 14., 15., 16., 17., 18., 19.,
            20., 21., 22., 23., 24., 25.,
        ]),
    )
    .unwrap();

    let c_expect = Matrix::new(
        5,
        5,
        &bits_of(vec![
            215., 230., 245., 260., 275., 490., 530., 570., 610., 650., 765., 830., 895., 960.,
            1025., 1040., 1130., 1220., 1310., 1400., 1315., 1430., 1545., 1660., 1775.,
        ]),
    )
    .unwrap();

    let c = multi_threaded_multiply(&a, &b, threads).unwrap();

    assert_eq!(c_expect.compare(&c), true);
}
