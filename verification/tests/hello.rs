use cl::hello;

#[test]
fn lib_it_works() {
    let result = hello();
    assert_eq!(result, "hello");
}

#[test]
fn hello_it_works() {
    let result = hello();
    assert_eq!(result, "hello");
}
