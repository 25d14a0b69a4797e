#[test]
fn add_conditional_with_optional_dependency() {
    let result = cl::rs_extra::with_macro::add_conditional(2, 2);
    assert_eq!(result, 5);
}

#[test]
fn add_conditional_without_optional_dependency() {
    let result = cl::rs_extra::add_conditional(2, 2);
    assert_eq!(result, 4);
}

#[test]
fn add_conditional_zeroes() {
    assert_eq!(cl::rs_extra::add_conditional(0, 0), 0);
    assert_eq!(cl::rs_extra::with_macro::add_conditional(0, 0), 1);
}
