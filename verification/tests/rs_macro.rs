#[test]
fn add_two_numbers() {
    let result = cl::rs_macro::add(&[1, 2]);
    assert_eq!(result, 3);
}

#[test]
fn set_number() {
    let result = cl::rs_macro::add(&[1]);
    assert_eq!(result, 1);
}

#[test]
fn sum_list_of_numbers() {
    let result = cl::rs_macro::add(&[1, 2, 3, 4]);
    assert_eq!(result, 10);
}

#[test]
fn sum_of_nothing_is_zero() {
    assert_eq!(cl::rs_macro::add(&[]), 0);
}

#[test]
fn sum_reaches_the_largest_value() {
    assert_eq!(cl::rs_macro::add(&[usize::MAX - 1, 1]), usize::MAX);
}
