use purecv::cvcore::arithm;
use purecv::cvcore::error::PureCvError;
use purecv::cvcore::types::Scalar;
use purecv::cvcore::Matrix;

fn m_u8(rows: usize, cols: usize, ch: usize, data: Vec<u8>) -> Matrix<u8> {
    Matrix::from_vec(rows, cols, ch, data)
}

fn m_i32(rows: usize, cols: usize, ch: usize, data: Vec<i32>) -> Matrix<i32> {
    Matrix::from_vec(rows, cols, ch, data)
}

#[test]
fn add_adds_element_wise() {
    let a = m_u8(2, 2, 1, vec![1, 2, 3, 4]);
    let b = m_u8(2, 2, 1, vec![10, 20, 30, 40]);
    let c = arithm::add(&a, &b).unwrap();
    assert_eq!((c.rows, c.cols, c.channels), (2, 2, 1));
    assert_eq!(c.data, vec![11, 22, 33, 44]);
}

#[test]
fn add_rejects_shape_mismatch() {
    let a = m_u8(2, 2, 1, vec![1, 2, 3, 4]);
    let b = m_u8(1, 4, 1, vec![1, 2, 3, 4]);
    assert!(matches!(arithm::add(&a, &b), Err(PureCvError::InvalidDimensions(_))));
    let c = m_u8(2, 1, 2, vec![1, 2, 3, 4]);
    assert!(matches!(arithm::subtract(&a, &c), Err(PureCvError::InvalidDimensions(_))));
    assert!(matches!(arithm::absdiff(&a, &c), Err(PureCvError::InvalidDimensions(_))));
    assert!(matches!(arithm::multiply(&a, &c), Err(PureCvError::InvalidDimensions(_))));
    assert!(matches!(arithm::divide(&a, &c), Err(PureCvError::InvalidDimensions(_))));
    assert!(matches!(arithm::bitwise_and(&a, &c), Err(PureCvError::InvalidDimensions(_))));
    assert!(matches!(arithm::bitwise_or(&a, &c), Err(PureCvError::InvalidDimensions(_))));
    assert!(matches!(arithm::bitwise_xor(&a, &c), Err(PureCvError::InvalidDimensions(_))));
}

#[test]
fn subtract_signed() {
    let a = m_i32(1, 3, 1, vec![5, -5, 0]);
    let b = m_i32(1, 3, 1, vec![7, -7, 100]);
    let c = arithm::subtract(&a, &b).unwrap();
    assert_eq!(c.data, vec![-2, 2, -100]);
}

#[test]
fn subtract_undoes_add_on_values() {
    let a = m_i32(2, 1, 2, vec![3, -4, 1000, 7]);
    let b = m_i32(2, 1, 2, vec![-9, 4, 12, 0]);
    let s = arithm::add(&a, &b).unwrap();
    let back = arithm::subtract(&s, &b).unwrap();
    assert_eq!(back.data, a.data);
}

#[test]
fn absdiff_is_symmetric() {
    let a = m_u8(1, 4, 1, vec![0, 10, 200, 7]);
    let b = m_u8(1, 4, 1, vec![5, 3, 255, 7]);
    let ab = arithm::absdiff(&a, &b).unwrap();
    let ba = arithm::absdiff(&b, &a).unwrap();
    assert_eq!(ab.data, vec![5, 7, 55, 0]);
    assert_eq!(ab.data, ba.data);
}

#[test]
fn multiply_and_divide() {
    let a = m_i32(1, 4, 1, vec![6, -7, 9, 0]);
    let b = m_i32(1, 4, 1, vec![3, 2, -4, 5]);
    let p = arithm::multiply(&a, &b).unwrap();
    assert_eq!(p.data, vec![18, -14, -36, 0]);
    let q = arithm::divide(&p, &b).unwrap();
    assert_eq!(q.data, a.data);
}

#[test]
fn divide_truncates_toward_zero_and_zero_divisor_gives_zero() {
    let a = m_i32(1, 5, 1, vec![7, -7, 7, -7, 42]);
    let b = m_i32(1, 5, 1, vec![2, 2, -2, -2, 0]);
    let q = arithm::divide(&a, &b).unwrap();
    assert_eq!(q.data, vec![3, -3, -3, 3, 0]);
}

#[test]
fn bitwise_operations() {
    let a = m_u8(1, 3, 1, vec![0b1100, 0xff, 0]);
    let b = m_u8(1, 3, 1, vec![0b1010, 0x0f, 0]);
    assert_eq!(arithm::bitwise_and(&a, &b).unwrap().data, vec![0b1000, 0x0f, 0]);
    assert_eq!(arithm::bitwise_or(&a, &b).unwrap().data, vec![0b1110, 0xff, 0]);
    assert_eq!(arithm::bitwise_xor(&a, &b).unwrap().data, vec![0b0110, 0xf0, 0]);
    assert_eq!(arithm::bitwise_not(&a).unwrap().data, vec![0xf3, 0x00, 0xff]);
}

#[test]
fn bitwise_not_twice_and_xor_twice_restore() {
    let a = Matrix::<i16>::from_vec(1, 3, 1, vec![-1, 12345, 0]);
    let b = Matrix::<i16>::from_vec(1, 3, 1, vec![77, -2, 9]);
    let nn = arithm::bitwise_not(&arithm::bitwise_not(&a).unwrap()).unwrap();
    assert_eq!(nn.data, a.data);
    let x = arithm::bitwise_xor(&arithm::bitwise_xor(&a, &b).unwrap(), &b).unwrap();
    assert_eq!(x.data, a.data);
}

#[test]
fn bitwise_and_or_xor_commute() {
    let a = Matrix::<i32>::from_vec(1, 3, 1, vec![-7, 0x0f0f, 123456]);
    let b = Matrix::<i32>::from_vec(1, 3, 1, vec![5, -1, 654321]);
    assert_eq!(
        arithm::bitwise_and(&a, &b).unwrap().data,
        arithm::bitwise_and(&b, &a).unwrap().data
    );
    assert_eq!(
        arithm::bitwise_or(&a, &b).unwrap().data,
        arithm::bitwise_or(&b, &a).unwrap().data
    );
    assert_eq!(
        arithm::bitwise_xor(&a, &b).unwrap().data,
        arithm::bitwise_xor(&b, &a).unwrap().data
    );
}

#[test]
fn element_wise_pass_stops_at_shortest_data() {
    // The shapes agree but the second operand stores fewer elements: the
    // positions it does not reach stay zero.
    let a = m_u8(1, 3, 1, vec![1, 2, 3]);
    let mut b = m_u8(1, 3, 1, vec![1, 1, 1]);
    b.data.truncate(2);
    let c = arithm::add(&a, &b).unwrap();
    assert_eq!(c.data, vec![2, 3, 0]);
}

#[test]
fn set_identity_and_trace() {
    let mut m = Matrix::<i32>::from_vec(2, 3, 2, vec![9; 12]);
    arithm::set_identity(&mut m, Scalar { v: [5, -1, 0, 0] });
    assert_eq!(m.data, vec![5, -1, 0, 0, 0, 0, 0, 0, 5, -1, 0, 0]);
    let t = arithm::trace(&m);
    assert_eq!(t.v, [10, -2, 0, 0]);
}

#[test]
fn trace_sums_diagonal() {
    let m = m_u8(3, 3, 1, vec![1, 2, 3, 4, 5, 6, 7, 8, 9]);
    assert_eq!(arithm::trace(&m).v, [15, 0, 0, 0]);
    let empty = m_u8(0, 3, 1, vec![]);
    assert_eq!(arithm::trace(&empty).v, [0, 0, 0, 0]);
}

#[test]
fn dot_product_and_length_error() {
    let a = m_i32(1, 3, 1, vec![1, 2, 3]);
    let b = m_i32(3, 1, 1, vec![4, -5, 6]);
    assert_eq!(arithm::dot(&a, &b).unwrap(), 12);
    let c = m_i32(1, 2, 1, vec![1, 2]);
    assert!(matches!(arithm::dot(&a, &c), Err(PureCvError::InvalidDimensions(_))));
}

#[test]
fn dot_does_not_overflow_on_extreme_values() {
    let a = m_i32(1, 2, 1, vec![i32::MIN, i32::MIN]);
    let d = arithm::dot(&a, &a).unwrap();
    assert_eq!(d, 2 * (i32::MIN as i128) * (i32::MIN as i128));
}

#[test]
fn check_range_bounds_are_inclusive() {
    let m = m_u8(1, 3, 1, vec![10, 20, 30]);
    assert!(arithm::check_range(&m, 10, 30));
    assert!(!arithm::check_range(&m, 11, 30));
    assert!(!arithm::check_range(&m, 10, 29));
    let empty = m_u8(0, 0, 1, vec![]);
    assert!(arithm::check_range(&empty, 5, 4));
}

#[test]
fn cross_product_shapes_and_values() {
    let a = m_i32(3, 1, 1, vec![1, 0, 0]);
    let b = m_i32(3, 1, 1, vec![0, 1, 0]);
    let c = arithm::cross(&a, &b).unwrap();
    assert_eq!((c.rows, c.cols, c.channels), (3, 1, 1));
    assert_eq!(c.data, vec![0, 0, 1]);

    let a = m_i32(1, 3, 1, vec![2, 3, 4]);
    let b = m_i32(1, 3, 1, vec![5, 6, 7]);
    let c = arithm::cross(&a, &b).unwrap();
    assert_eq!((c.rows, c.cols), (1, 3));
    assert_eq!(c.data, vec![-3, 6, -3]);
    let d = arithm::cross(&b, &a).unwrap();
    assert_eq!(d.data, vec![3, -6, 3]);
    assert_eq!(arithm::dot(&a, &c).unwrap(), 0);
    assert_eq!(arithm::dot(&b, &c).unwrap(), 0);

    let a = m_i32(1, 1, 3, vec![2, 3, 4]);
    let c = arithm::cross(&a, &a).unwrap();
    assert_eq!((c.rows, c.cols, c.channels), (1, 1, 3));
    assert_eq!(c.data, vec![0, 0, 0]);
}

#[test]
fn cross_rejects_non_three_element_vectors() {
    let a = m_i32(1, 4, 1, vec![1, 2, 3, 4]);
    let b = m_i32(1, 3, 1, vec![1, 2, 3]);
    assert!(matches!(arithm::cross(&a, &b), Err(PureCvError::InvalidDimensions(_))));
    assert!(matches!(arithm::cross(&b, &a), Err(PureCvError::InvalidDimensions(_))));
}

#[test]
fn trace_of_sum_is_sum_of_traces() {
    let a = m_i32(2, 2, 2, vec![1, 2, 3, 4, 5, 6, 7, 8]);
    let b = m_i32(2, 2, 2, vec![10, -20, 0, 0, 0, 0, 30, 40]);
    let s = arithm::add(&a, &b).unwrap();
    let ts = arithm::trace(&s).v;
    let ta = arithm::trace(&a).v;
    let tb = arithm::trace(&b).v;
    for c in 0..4 {
        assert_eq!(ts[c], ta[c] + tb[c]);
    }
    assert_eq!(ta, [8, 10, 0, 0]);
}

#[test]
fn dot_distributes_over_add() {
    let a = m_i32(1, 4, 1, vec![1, -2, 3, 4]);
    let b = m_i32(1, 4, 1, vec![5, 6, -7, 8]);
    let v = m_i32(1, 4, 1, vec![2, 3, 4, -5]);
    let s = arithm::add(&a, &b).unwrap();
    assert_eq!(
        arithm::dot(&s, &v).unwrap(),
        arithm::dot(&a, &v).unwrap() + arithm::dot(&b, &v).unwrap()
    );
    assert_eq!(arithm::dot(&a, &v).unwrap(), arithm::dot(&v, &a).unwrap());
}

#[test]
fn trace_of_identity_is_diagonal_length_times_scale() {
    let mut m = Matrix::<i16>::from_vec(3, 5, 3, vec![1; 45]);
    arithm::set_identity(&mut m, Scalar { v: [2, 0, -3, 0] });
    assert_eq!(arithm::trace(&m).v, [6, 0, -9, 0]);
}

#[test]
fn diag_in_bounds_reports_short_data_and_many_channels() {
    let m = m_u8(2, 2, 1, vec![1, 2, 3, 4]);
    assert!(arithm::diag_in_bounds(&m));
    let five = Matrix::<u8>::from_vec(1, 1, 5, vec![0; 5]);
    assert!(!arithm::diag_in_bounds(&five));
    let mut short = m_u8(2, 2, 1, vec![1, 2, 3, 4]);
    short.data.truncate(3);
    assert!(!arithm::diag_in_bounds(&short));
    let empty = Matrix::<u8>::from_vec(0, 7, 9, vec![]);
    assert!(arithm::diag_in_bounds(&empty));
}
