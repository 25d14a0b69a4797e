use cl::rs_core::cache::{get, remove};
use cl::rs_core::files::read;
use cl::rs_core::runtime::Builder;

#[test]
fn get_works() {
    let result = get();
    assert_eq!(result, 3);
}

#[test]
fn cache_add_works() {
    let result = remove();
    assert_eq!(result, 4);
}

#[test]
fn read_works() {
    let result = read();
    assert_eq!(result, 0);
}

#[test]
fn write_works() {
    let result = cl::rs_core::files::write();
    assert_eq!(result, 1);
}

#[test]
fn features_add_works() {
    let result = cl::rs_core::add(2, 2);
    assert_eq!(result, 4);
}

#[test]
fn cache_get_works() {
    let result = get();
    assert_eq!(result, 3);
}

#[test]
fn files_read_works() {
    let result = read();
    assert_eq!(result, 0);
}

#[test]
fn builder_builds_runtime() {
    assert!(Builder::new().build().is_ok());
    assert!(Builder::default().build().is_ok());
}
