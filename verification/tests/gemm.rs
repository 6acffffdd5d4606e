use purecv::cvcore::error::PureCvError;
use purecv::cvcore::gemm::{gemm_in_bounds, gemm_terms, GEMM_1_T, GEMM_2_T, GEMM_3_T};
use purecv::cvcore::Matrix;

fn m(rows: usize, cols: usize, data: Vec<i32>) -> Matrix<i32> {
    Matrix::from_vec(rows, cols, 1, data)
}

#[test]
fn gemm_terms_plain_product() {
    let a = m(2, 3, vec![1, 2, 3, 4, 5, 6]);
    let b = m(3, 2, vec![7, 8, 9, 10, 11, 12]);
    let c = m(2, 2, vec![1, 1, 1, 1]);
    let t = gemm_terms(&a, &b, &c, 0, true).unwrap();
    assert_eq!((t.rows, t.cols, t.channels), (2, 2, 1));
    assert_eq!(t.products, vec![58, 64, 139, 154]);
    assert_eq!(t.addends, vec![1, 1, 1, 1]);
}

#[test]
fn gemm_terms_transposes() {
    let a = m(3, 2, vec![1, 4, 2, 5, 3, 6]); // transpose of [[1,2,3],[4,5,6]]
    let b = m(2, 3, vec![7, 9, 11, 8, 10, 12]); // transpose of [[7,8],[9,10],[11,12]]
    let c = m(2, 2, vec![1, 2, 3, 4]);
    let t = gemm_terms(&a, &b, &c, GEMM_1_T | GEMM_2_T | GEMM_3_T, true).unwrap();
    assert_eq!(t.products, vec![58, 64, 139, 154]);
    assert_eq!(t.addends, vec![1, 3, 2, 4]);
}

#[test]
fn gemm_terms_without_third_operand() {
    let a = m(1, 2, vec![2, 3]);
    let b = m(2, 1, vec![4, 5]);
    let empty = m(0, 0, vec![]);
    let t = gemm_terms(&a, &b, &empty, 0, true).unwrap();
    assert_eq!(t.products, vec![23]);
    assert_eq!(t.addends, vec![0]);
    let c = m(1, 1, vec![100]);
    let t = gemm_terms(&a, &b, &c, 0, false).unwrap();
    assert_eq!(t.addends, vec![0]);
}

#[test]
fn gemm_terms_rejects_inner_mismatch() {
    let a = m(2, 3, vec![0; 6]);
    let b = m(2, 3, vec![0; 6]);
    assert!(matches!(
        gemm_terms(&a, &b, &a, 0, false),
        Err(PureCvError::InvalidDimensions(_))
    ));
    assert!(gemm_terms(&a, &b, &a, GEMM_2_T, false).is_ok());
}

#[test]
fn gemm_in_bounds_detects_short_operands() {
    let a = m(2, 2, vec![1, 2, 3, 4]);
    let b = m(2, 2, vec![1, 2, 3, 4]);
    let small = m(1, 1, vec![5]);
    assert!(gemm_in_bounds(&a, &b, &small, 0, false));
    assert!(!gemm_in_bounds(&a, &b, &small, 0, true));
    let mut short = m(2, 2, vec![1, 2, 3, 4]);
    short.data.truncate(3);
    assert!(!gemm_in_bounds(&a, &short, &small, 0, false));
}

#[test]
fn gemm_transpose_flag_matches_transposed_operand() {
    let a = m(2, 3, vec![1, 2, 3, 4, 5, 6]);
    let at = m(3, 2, vec![1, 4, 2, 5, 3, 6]);
    let b = m(2, 2, vec![1, -1, 2, 0]);
    let with_flag = gemm_terms(&a, &b, &b, GEMM_1_T, false).unwrap();
    let with_transpose = gemm_terms(&at, &b, &b, 0, false).unwrap();
    assert_eq!(with_flag.products, with_transpose.products);
    assert_eq!(with_flag.products, vec![9, -1, 12, -2, 15, -3]);
}

#[test]
fn gemm_terms_multi_channel() {
    let a = Matrix::<i16>::from_vec(1, 2, 2, vec![1, 10, 2, 20]);
    let b = Matrix::<i16>::from_vec(2, 1, 2, vec![3, 30, 4, 40]);
    let t = gemm_terms(&a, &b, &a, 0, false).unwrap();
    assert_eq!((t.rows, t.cols, t.channels), (1, 1, 2));
    assert_eq!(t.products, vec![11, 1100]);
}
