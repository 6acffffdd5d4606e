use purecv::cvcore::Matrix;

#[test]
fn new_matrix_is_zero() {
    let m = Matrix::<i16>::new(2, 3, 2);
    assert_eq!(m.total(), 12);
    assert!(m.data.iter().all(|&v| v == 0));
}

#[test]
fn at_and_set_use_row_major_interleaved_layout() {
    let mut m = Matrix::<u8>::new(2, 3, 2);
    m.set(1, 2, 1, 99);
    assert_eq!(m.data[(1 * 3 + 2) * 2 + 1], 99);
    assert_eq!(m.at(1, 2, 1), Some(&99));
    assert_eq!(m.at(0, 0, 0), Some(&0));
    assert_eq!(m.at(-1, 0, 0), None);
    assert_eq!(m.at(2, 0, 0), None);
    assert_eq!(m.at(0, 3, 0), None);
    assert_eq!(m.at(0, 0, 2), None);
}
