use cl::error::{OpenclError, INVALID_GLOBAL_ARRAY_ID};

#[test]
fn error_texts() {
    assert_eq!(OpenclError::OpenCl(-5).text(), "opencl error code: -5");
    assert_eq!(
        OpenclError::CustomOpenCl(INVALID_GLOBAL_ARRAY_ID).text(),
        "custom opencl error code: -200"
    );
    assert_eq!(OpenclError::Other.text(), "other error");
    assert_eq!(OpenclError::Other.forwarded_text(), "unknown opencl error");
    assert_eq!(OpenclError::OpenCl(12).forwarded_text(), "opencl error code: 12");
}

#[test]
fn error_conversions() {
    assert_eq!(OpenclError::from_cl_code(-30), OpenclError::OpenCl(-30));
    let io = std::io::Error::new(std::io::ErrorKind::NotFound, "gone");
    assert_eq!(OpenclError::from(io), OpenclError::Other);
}
