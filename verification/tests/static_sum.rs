use rust_course::static_sum::sum;

#[test]
fn empty() {
    let array: &'static [i32] = &[];
    assert_eq!(sum(array), 0);
}

#[test]
fn one() {
    assert_eq!(sum(&[1]), 1);
}

#[test]
fn five() {
    assert_eq!(sum(&[1, 2, 3, 4, 5]), 15);
}

#[test]
fn nine() {
    assert_eq!(sum(&[1, 2, 3, 4, 5, 6, 7, 8, 9]), 45);
}

#[test]
fn ten() {
    assert_eq!(sum(&[1, 2, 3, 4, 5, 6, 7, 8, 9, 10]), 55);
}

#[test]
fn negative_items_cancel_out() {
    assert_eq!(sum(&[-5, 5, -7, 7, 3]), 3);
}
