use rnla::operations::gaxpy;
use rnla::rng::RNG;
use rnla::{matmul, Matrix, MatrixError, MatrixIndex};

fn approx(a: f64, b: f64) -> bool {
    (a - b).abs() < 10e-8
}

#[test]
fn matmul_times_zero() {
    let m: usize = 10;
    let n: usize = 4;
    let p: usize = 8;
    let mut rng = RNG::new(1);
    let x = Matrix::zero(m, n);
    let y = Matrix::rand(n, p, &mut rng);
    let z = Matrix::zero(m, p);

    let mut zv = z.view_mut();
    matmul(&x.view(), &y.view(), &mut zv).unwrap();
    let z = zv.into_matrix();

    for i in 0..m {
        for j in 0..p {
            assert!(approx(z.get(i, j).unwrap() as f64, 0.0));
        }
    }
}

#[test]
fn matmul_simple() {
    let x = Matrix::from_vec(3, 2, vec![1, 2, 3, 4, 5, 6]).unwrap();
    let y = Matrix::from_vec(2, 2, vec![1, 2, 0, 8]).unwrap();
    let z = Matrix::zero(3, 2);

    let mut zv = z.view_mut();
    matmul(&x.view(), &y.view(), &mut zv).unwrap();
    let z = zv.into_matrix();

    let z = z.to_vec();
    let expected = vec![1, 18, 3, 38, 5, 58];
    assert!(z.iter().zip(&expected).all(|(a, b)| approx(*a as f64, *b as f64)));
}

#[test]
fn matmul_dimension_mismatch_leaves_output_alone() {
    // a.cols != b.rows: the multiply must fail before writing anything.
    let a = Matrix::from_vec(2, 3, vec![1, 2, 3, 4, 5, 6]).unwrap();
    let b = Matrix::from_vec(2, 2, vec![7, 8, 9, 10]).unwrap();
    let c = Matrix::from_vec(2, 2, vec![41, 42, 43, 44]).unwrap();

    let mut cv = c.view_mut();
    let r = matmul(&a.view(), &b.view(), &mut cv);
    assert_eq!(r, Err(MatrixError::DimensionMismatch));

    let c = cv.into_matrix();
    assert_eq!(c.to_vec(), vec![41, 42, 43, 44]);
}

#[test]
fn matmul_rejects_row_and_column_mismatch() {
    let a = Matrix::from_vec(2, 2, vec![1, 2, 3, 4]).unwrap();
    let b = Matrix::from_vec(2, 2, vec![1, 2, 3, 4]).unwrap();
    let c = Matrix::zero(3, 2);
    let mut cv = c.view_mut();
    assert_eq!(
        matmul(&a.view(), &b.view(), &mut cv),
        Err(MatrixError::DimensionMismatch)
    );
}

#[test]
fn from_vec_checks_length() {
    assert_eq!(
        Matrix::from_vec(2, 2, vec![1, 2, 3]).err(),
        Some(MatrixError::DimensionMismatch)
    );
    let m = Matrix::from_vec(2, 3, vec![1, 2, 3, 4, 5, 6]).unwrap();
    assert_eq!(m.m, 2);
    assert_eq!(m.n, 3);
    assert_eq!(m.to_vec(), vec![1, 2, 3, 4, 5, 6]);
}

#[test]
fn zero_is_all_zero() {
    let m = Matrix::zero(3, 5);
    for i in 0..3 {
        for j in 0..5 {
            assert_eq!(m.get(i, j).unwrap(), 0);
        }
    }
}

#[test]
fn get_and_set_check_bounds() {
    let mut m = Matrix::from_vec(2, 3, vec![1, 2, 3, 4, 5, 6]).unwrap();
    assert_eq!(m.get(0, 0).unwrap(), 1);
    assert_eq!(m.get(1, 2).unwrap(), 6);
    assert_eq!(m.get(2, 0), Err(MatrixError::OutOfRange));
    assert_eq!(m.get(0, 3), Err(MatrixError::OutOfRange));
    assert_eq!(m.set(2, 0, 9), Err(MatrixError::OutOfRange));
    assert_eq!(m.set(0, 1, 9), Ok(()));
    assert_eq!(m.get(0, 1).unwrap(), 9);
    // The neighbours of the written entry are untouched.
    assert_eq!(m.get(0, 0).unwrap(), 1);
    assert_eq!(m.get(0, 2).unwrap(), 3);
}

#[test]
fn unchecked_paths_match_checked_paths() {
    let mut m = Matrix::from_vec(2, 2, vec![1, 2, 3, 4]).unwrap();
    assert_eq!(m.get_unchecked(1, 0), 3);
    m.set_unchecked(1, 1, 44);
    assert_eq!(m.get(1, 1).unwrap(), 44);
}

#[test]
fn read_only_view_rejects_writes() {
    // A write through a read-only view must fail fast and write nothing.
    let m = Matrix::from_vec(2, 2, vec![1, 2, 3, 4]).unwrap();
    let mut v = m.view();
    assert_eq!(v.set(0, 0, 9), Err(MatrixError::InvalidOperation));
    assert_eq!(v.set(5, 5, 9), Err(MatrixError::InvalidOperation));
    assert_eq!(v.get(0, 0).unwrap(), 1);
    assert_eq!(m.get(0, 0).unwrap(), 1);
}

#[test]
fn view_reads_match_matrix() {
    let m = Matrix::from_vec(2, 3, vec![1, 2, 3, 4, 5, 6]).unwrap();
    let v = m.view();
    assert_eq!(v.m, 2);
    assert_eq!(v.n, 3);
    for i in 0..2 {
        for j in 0..3 {
            assert_eq!(v.get(i, j).unwrap(), m.get(i, j).unwrap());
        }
        assert_eq!(v.get(i, 3), Err(MatrixError::OutOfRange));
    }
}

#[test]
fn disjoint_row_writes_do_not_alias() {
    // Writes through different rows of the same write-capable view must
    // never observe each other: each row owns a disjoint buffer segment.
    let m = Matrix::zero(3, 2);
    let mut v = m.view_mut();
    v.set(0, 0, 11).unwrap();
    v.set(2, 1, 22).unwrap();
    v.set(0, 1, 33).unwrap();
    assert_eq!(v.get(0, 0).unwrap(), 11);
    assert_eq!(v.get(0, 1).unwrap(), 33);
    assert_eq!(v.get(2, 1).unwrap(), 22);
    // Row 1 between them is untouched.
    assert_eq!(v.get(1, 0).unwrap(), 0);
    assert_eq!(v.get(1, 1).unwrap(), 0);
    let m = v.into_matrix();
    assert_eq!(m.to_vec(), vec![11, 33, 0, 0, 0, 22]);
}

#[test]
fn gaxpy_matches_by_hand_product() {
    let a = Matrix::from_vec(2, 3, vec![1, 2, 3, 4, 5, 6]).unwrap();
    let v = vec![1, 0, 2];
    let mut u = vec![0, 0];
    gaxpy(&a, &v, &mut u).unwrap();
    assert_eq!(u, vec![7, 16]);
}

#[test]
fn gaxpy_checks_dimensions() {
    let a = Matrix::from_vec(2, 3, vec![1, 2, 3, 4, 5, 6]).unwrap();
    let v = vec![1, 0];
    let mut u = vec![9, 9];
    assert_eq!(gaxpy(&a, &v, &mut u), Err(MatrixError::DimensionMismatch));
    assert_eq!(u, vec![9, 9]);
    let v = vec![1, 0, 2];
    let mut u = vec![9];
    assert_eq!(gaxpy(&a, &v, &mut u), Err(MatrixError::DimensionMismatch));
    assert_eq!(u, vec![9]);
}

#[test]
fn rand_fill_is_reproducible() {
    let mut rng1 = RNG::new(7);
    let mut rng2 = RNG::new(7);
    let a = Matrix::rand(4, 5, &mut rng1).to_vec();
    let b = Matrix::rand(4, 5, &mut rng2).to_vec();
    assert_eq!(a, b);

    let mut rng3 = RNG::new(8);
    let c = Matrix::rand(4, 5, &mut rng3).to_vec();
    assert_ne!(b, c);
}

#[test]
fn rand_fill_stays_in_unit_range() {
    let mut rng = RNG::new(3);
    let m = Matrix::rand(6, 6, &mut rng);
    for e in m.to_vec() {
        assert!(0 <= e && e < 32768);
    }
}
