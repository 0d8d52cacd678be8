use linalg::dense::DenseMatrix;
use linalg::iter::{collect_rows, row_iter};
use linalg::matrix::Matrix;

fn sample_3x2() -> DenseMatrix<f64> {
    DenseMatrix::from_vec(3, 2, vec![1.0, 2.0, 3.0, 4.0, 5.0, 6.0]).unwrap()
}

#[test]
fn row_iter_yields_rows_in_order_then_none() {
    let m = sample_3x2();
    let mut it = row_iter(&m);
    assert_eq!(it.next(), Some(vec![1.0, 2.0]));
    assert_eq!(it.next(), Some(vec![3.0, 4.0]));
    assert_eq!(it.next(), Some(vec![5.0, 6.0]));
    assert_eq!(it.next(), None);
    assert_eq!(it.next(), None);
}

#[test]
fn row_iter_restarts_by_reconstruction() {
    let m = sample_3x2();
    let mut first = row_iter(&m);
    first.next();
    first.next();
    let mut fresh = row_iter(&m);
    assert_eq!(fresh.next(), Some(vec![1.0, 2.0]));
}

#[test]
fn row_iter_on_empty_matrix_is_immediately_done() {
    let m: DenseMatrix<f64> = DenseMatrix::from_vec(0, 4, vec![]).unwrap();
    let mut it = row_iter(&m);
    assert_eq!(it.next(), None);
}

#[test]
fn row_iter_on_single_entry_matrix() {
    let m = DenseMatrix::from_vec(1, 1, vec![42.0]).unwrap();
    let mut it = row_iter(&m);
    assert_eq!(it.next(), Some(vec![42.0]));
    assert_eq!(it.next(), None);
}

#[test]
fn collect_rows_materializes_every_row() {
    let m = sample_3x2();
    let rows = collect_rows(&m);
    assert_eq!(rows, vec![vec![1.0, 2.0], vec![3.0, 4.0], vec![5.0, 6.0]]);
}

#[test]
fn collect_rows_works_for_integer_entries() {
    let m = DenseMatrix::from_vec(2, 3, vec![1u32, 2, 3, 4, 5, 6]).unwrap();
    assert_eq!(collect_rows(&m), vec![vec![1, 2, 3], vec![4, 5, 6]]);
}

#[test]
fn get_row_as_vec_matches_iteration() {
    let m = sample_3x2();
    let mut it = row_iter(&m);
    for i in 0..3 {
        assert_eq!(it.next().unwrap(), m.get_row_as_vec(i));
    }
}
