use linalg::dense::DenseMatrix;
use linalg::error::MatrixError;
use linalg::matrix::Matrix;

fn sample_2x3() -> DenseMatrix<f64> {
    DenseMatrix::from_vec(2, 3, vec![1.0, 2.0, 3.0, 4.0, 5.0, 6.0]).unwrap()
}

#[test]
fn from_vec_accepts_matching_buffer() {
    let m = DenseMatrix::from_vec(2, 2, vec![1.0, 2.0, 3.0, 4.0]).unwrap();
    assert_eq!(m.shape(), (2, 2));
    assert_eq!(m.get(0, 0).unwrap(), 1.0);
    assert_eq!(m.get(1, 1).unwrap(), 4.0);
}

#[test]
fn from_vec_rejects_wrong_length() {
    let r = DenseMatrix::from_vec(2, 2, vec![1.0, 2.0, 3.0]);
    assert_eq!(r.unwrap_err(), MatrixError::DimensionMismatch);
}

#[test]
fn from_vec_accepts_empty_shapes() {
    let m: DenseMatrix<f64> = DenseMatrix::from_vec(0, 3, vec![]).unwrap();
    assert_eq!(m.shape(), (0, 3));
    let m: DenseMatrix<f64> = DenseMatrix::from_vec(3, 0, vec![]).unwrap();
    assert_eq!(m.shape(), (3, 0));
}

#[test]
fn fill_sets_every_entry() {
    let m = DenseMatrix::fill(2, 3, 7.5);
    assert_eq!(m.shape(), (2, 3));
    for i in 0..2 {
        for j in 0..3 {
            assert_eq!(m.get(i, j).unwrap(), 7.5);
        }
    }
}

#[test]
fn diagonal_builds_identity_pattern() {
    let eye = DenseMatrix::diagonal(3, 1.0, 0.0);
    assert_eq!(eye.shape(), (3, 3));
    for i in 0..3 {
        for j in 0..3 {
            let expected = if i == j { 1.0 } else { 0.0 };
            assert_eq!(eye.get(i, j).unwrap(), expected);
        }
    }
}

#[test]
fn get_rejects_out_of_bounds() {
    let m = sample_2x3();
    assert_eq!(m.get(2, 0).unwrap_err(), MatrixError::IndexOutOfBounds);
    assert_eq!(m.get(0, 3).unwrap_err(), MatrixError::IndexOutOfBounds);
}

#[test]
fn set_writes_one_entry() {
    let mut m = sample_2x3();
    m.set(1, 2, 9.0).unwrap();
    assert_eq!(m.get(1, 2).unwrap(), 9.0);
    assert_eq!(m.get(0, 2).unwrap(), 3.0);
    assert_eq!(m.get(1, 1).unwrap(), 5.0);
}

#[test]
fn set_out_of_bounds_leaves_matrix_untouched() {
    let mut m = sample_2x3();
    let before = m.clone();
    assert_eq!(m.set(5, 0, 9.0).unwrap_err(), MatrixError::IndexOutOfBounds);
    assert_eq!(m, before);
}

#[test]
fn transpose_swaps_rows_and_columns() {
    let m = sample_2x3();
    let t = m.transpose();
    assert_eq!(t.shape(), (3, 2));
    for i in 0..2 {
        for j in 0..3 {
            assert_eq!(t.get(j, i).unwrap(), m.get(i, j).unwrap());
        }
    }
}

#[test]
fn transpose_twice_is_identity() {
    let m = sample_2x3();
    let tt = m.transpose().transpose();
    assert_eq!(tt, m);
}

#[test]
fn transpose_twice_is_identity_for_integers() {
    let m = DenseMatrix::from_vec(3, 1, vec![1i64, -2, 3]).unwrap();
    let tt = m.transpose().transpose();
    assert_eq!(tt, m);
}

#[test]
fn row_vector_round_trip_reproduces_single_row() {
    let m = DenseMatrix::from_vec(1, 4, vec![1.5, -2.0, 0.0, 4.25]).unwrap();
    let rebuilt = DenseMatrix::from_row_vector(m.clone().to_row_vector());
    assert_eq!(rebuilt, m);
}

#[test]
fn to_row_vector_flattens_row_major() {
    let m = sample_2x3();
    assert_eq!(m.to_row_vector(), vec![1.0, 2.0, 3.0, 4.0, 5.0, 6.0]);
}

#[test]
fn to_raw_vector_copies_the_buffer() {
    let m = sample_2x3();
    assert_eq!(m.to_raw_vector(), vec![1.0, 2.0, 3.0, 4.0, 5.0, 6.0]);
    // the receiver is still usable: it was not consumed
    assert_eq!(m.shape(), (2, 3));
}

#[test]
fn get_col_as_vec_reads_a_column() {
    let m = sample_2x3();
    assert_eq!(m.get_col_as_vec(1), vec![2.0, 5.0]);
}

#[test]
fn reshape_keeps_row_major_order() {
    let m = sample_2x3();
    let r = m.reshape(3, 2).unwrap();
    assert_eq!(r.shape(), (3, 2));
    assert_eq!(r.to_raw_vector(), m.to_raw_vector());
    assert_eq!(r.get(1, 0).unwrap(), 3.0);
}

#[test]
fn reshape_rejects_wrong_size() {
    let m = sample_2x3();
    assert_eq!(m.reshape(4, 2).unwrap_err(), MatrixError::DimensionMismatch);
}

#[test]
fn v_stack_concatenates_rows() {
    let a = DenseMatrix::from_vec(1, 2, vec![1.0, 2.0]).unwrap();
    let b = DenseMatrix::from_vec(2, 2, vec![3.0, 4.0, 5.0, 6.0]).unwrap();
    let s = a.v_stack(&b).unwrap();
    assert_eq!(s.shape(), (3, 2));
    assert_eq!(s.to_raw_vector(), vec![1.0, 2.0, 3.0, 4.0, 5.0, 6.0]);
}

#[test]
fn v_stack_rejects_column_mismatch() {
    let a = DenseMatrix::from_vec(1, 2, vec![1.0, 2.0]).unwrap();
    let b = DenseMatrix::from_vec(1, 3, vec![3.0, 4.0, 5.0]).unwrap();
    assert_eq!(a.v_stack(&b).unwrap_err(), MatrixError::DimensionMismatch);
}

#[test]
fn h_stack_concatenates_columns() {
    let a = DenseMatrix::from_vec(2, 1, vec![1.0, 3.0]).unwrap();
    let b = DenseMatrix::from_vec(2, 2, vec![2.0, 9.0, 4.0, 8.0]).unwrap();
    let s = a.h_stack(&b).unwrap();
    assert_eq!(s.shape(), (2, 3));
    assert_eq!(s.to_raw_vector(), vec![1.0, 2.0, 9.0, 3.0, 4.0, 8.0]);
}

#[test]
fn h_stack_rejects_row_mismatch() {
    let a = DenseMatrix::from_vec(2, 1, vec![1.0, 3.0]).unwrap();
    let b = DenseMatrix::from_vec(3, 1, vec![2.0, 4.0, 6.0]).unwrap();
    assert_eq!(a.h_stack(&b).unwrap_err(), MatrixError::DimensionMismatch);
}

#[test]
fn slice_selects_a_sub_matrix() {
    let m = sample_2x3();
    let s = m.slice(0..2, 1..3).unwrap();
    assert_eq!(s.shape(), (2, 2));
    assert_eq!(s.to_raw_vector(), vec![2.0, 3.0, 5.0, 6.0]);
}

#[test]
fn slice_rejects_range_past_the_shape() {
    let m = sample_2x3();
    assert_eq!(m.slice(0..3, 0..1).unwrap_err(), MatrixError::IndexOutOfBounds);
    assert_eq!(m.slice(0..1, 0..4).unwrap_err(), MatrixError::IndexOutOfBounds);
}

#[test]
fn slice_rejects_reversed_range() {
    let m = sample_2x3();
    assert_eq!(m.slice(1..0, 0..1).unwrap_err(), MatrixError::IndexOutOfBounds);
}

#[test]
fn copy_from_overwrites_on_matching_shape() {
    let mut m = sample_2x3();
    let z = DenseMatrix::fill(2, 3, 0.0);
    m.copy_from(&z).unwrap();
    assert_eq!(m, z);
}

#[test]
fn copy_from_rejects_shape_mismatch_and_keeps_receiver() {
    let mut m = sample_2x3();
    let before = m.clone();
    let z = DenseMatrix::fill(3, 2, 0.0);
    assert_eq!(m.copy_from(&z).unwrap_err(), MatrixError::DimensionMismatch);
    assert_eq!(m, before);
}

#[test]
fn one_by_one_matrix_behaves_trivially() {
    let m = DenseMatrix::from_vec(1, 1, vec![-3.5]).unwrap();
    assert_eq!(m.shape(), (1, 1));
    assert_eq!(m.transpose(), m);
    let rebuilt = DenseMatrix::from_row_vector(m.clone().to_row_vector());
    assert_eq!(rebuilt, m);
}

#[test]
fn all_zero_matrix_keeps_its_shape_through_the_structural_ops() {
    let z = DenseMatrix::fill(3, 2, 0.0);
    assert_eq!(z.transpose().shape(), (2, 3));
    assert_eq!(z.reshape(2, 3).unwrap().to_raw_vector(), vec![0.0; 6]);
    assert_eq!(z.slice(0..2, 0..2).unwrap(), DenseMatrix::fill(2, 2, 0.0));
}

#[test]
fn map_entries_applies_to_every_entry() {
    let m = DenseMatrix::from_vec(2, 2, vec![1i64, -2, 3, -4]).unwrap();
    let n = m.map_entries(|x: i64| x.wrapping_abs());
    assert_eq!(n.to_raw_vector(), vec![1, 2, 3, 4]);
}

#[test]
fn zip_entries_combines_matching_shapes() {
    let a = DenseMatrix::from_vec(2, 2, vec![1.0, 2.0, 3.0, 4.0]).unwrap();
    let b = DenseMatrix::from_vec(2, 2, vec![10.0, 20.0, 30.0, 40.0]).unwrap();
    let s = a.zip_entries(&b, |x, y| x + y).unwrap();
    assert_eq!(s.to_raw_vector(), vec![11.0, 22.0, 33.0, 44.0]);
}

#[test]
fn zip_entries_rejects_shape_mismatch() {
    let a = DenseMatrix::from_vec(1, 2, vec![1.0, 2.0]).unwrap();
    let b = DenseMatrix::from_vec(2, 1, vec![1.0, 2.0]).unwrap();
    let r = a.zip_entries(&b, |x, y| x + y);
    assert_eq!(r.unwrap_err(), MatrixError::DimensionMismatch);
}
