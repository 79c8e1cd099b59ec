use ccweb::lines::ClearedLines;

#[test]
fn cleared_lines_hold_given_rows() {
    let none = ClearedLines::from_rows(&[]);
    assert_eq!(none.len(), 0);
    assert_eq!(none.rows(), Vec::<i32>::new());
    let l = ClearedLines::from_rows(&[3, 7]);
    assert_eq!(l.len(), 2);
    assert_eq!(l.rows(), vec![3, 7]);
    assert!(l.contains(3));
    assert!(l.contains(7));
    assert!(!l.contains(4));
}

#[test]
fn cleared_lines_full_capacity() {
    let l = ClearedLines::from_rows(&[0, 1, 2, 3]);
    assert_eq!(l.rows(), vec![0, 1, 2, 3]);
    assert!(l.contains(0) && l.contains(3));
}
