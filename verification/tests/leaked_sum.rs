use rust_course::halves::sum_of_halves;
use rust_course::leaked_sum::sum;

#[test]
fn lib_empty() {
    assert_eq!(sum(vec![]), 0);
}

#[test]
fn lib_one() {
    assert_eq!(sum(vec![1]), 1);
}

#[test]
fn lib_five() {
    assert_eq!(sum(vec![1, 2, 3, 4, 5]), 15);
}

#[test]
fn lib_nine() {
    assert_eq!(sum(vec![1, 2, 3, 4, 5, 6, 7, 8, 9]), 45);
}

#[test]
fn lib_ten() {
    assert_eq!(sum(vec![1, 2, 3, 4, 5, 6, 7, 8, 9, 10]), 55);
}

#[test]
fn halves_add_up_to_the_whole_even_when_a_half_is_large() {
    // The left half is [i32::MAX]; the right half [-1, 1] sums to 0.
    let v = vec![i32::MAX, -1, 1];
    assert_eq!(sum_of_halves(&v), i32::MAX);
}

#[test]
fn halves_and_their_sum() {
    use_halves();
}

fn use_halves() {
    let v = vec![1, 2, 3, 4, 5];
    let (l, r) = rust_course::halves::split_halves(&v);
    assert_eq!(l, &[1, 2]);
    assert_eq!(r, &[3, 4, 5]);
    assert_eq!(rust_course::halves::add_half_sums(3, 12), Some(15));
    assert_eq!(rust_course::halves::add_half_sums(i32::MAX, 1), None);
    assert_eq!(rust_course::halves::add_half_sums(i32::MIN, -1), None);
}
