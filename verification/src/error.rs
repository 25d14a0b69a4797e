//! Error values of the OpenCL store and their texts.
use vstd::prelude::*;
use vstd::std_specs::convert::FromSpecImpl;
use crate::text::{push_signed_decimal, push_str, signed_decimal, string_from_chars};

verus! {

/// An identifier that names no global array of its block.
pub const INVALID_GLOBAL_ARRAY_ID: i32 = -200;

/// A buffer length that no block can hold.
pub const INVALID_BUFFER_LEN: i32 = -201;

/// A global array that already holds data.
pub const GLOBAL_ARRAY_ID_ASSIGNED: i32 = -202;

/// A block with every global array already handed out.
pub const NO_GLOBAL_VECTORS_TO_ASSIGN: i32 = -203;

/// A block name that the configuration does not know.
pub const INVALID_KERNEL_BLOCK_NAME: i32 = -204;

/// Failure of an OpenCL store operation.
#[derive(Debug, Clone, Copy, PartialEq, Eq, Structural)]
pub enum OpenclError {
    /// A code reported by the OpenCL runtime.
    OpenCl(i32),
    /// One of the store's own codes (the constants of this module).
    CustomOpenCl(i32),
    /// Any other failure.
    Other,
}

/// Outcome of an OpenCL store operation.
pub type OpenClResult<T> = Result<T, OpenclError>;

/// The text shown for an error.
pub open spec fn spec_error_text(e: OpenclError) -> Seq<char> {
    match e {
        OpenclError::OpenCl(v) => "opencl error code: "@ + signed_decimal(v as int),
        OpenclError::CustomOpenCl(v) => "custom opencl error code: "@ + signed_decimal(v as int),
        OpenclError::Other => "other error"@,
    }
}

/// The text an error carries when it is handed on as an I/O or N-API error.
pub open spec fn spec_forwarded_text(e: OpenclError) -> Seq<char> {
    match e {
        OpenclError::OpenCl(v) => "opencl error code: "@ + signed_decimal(v as int),
        OpenclError::CustomOpenCl(v) => "custom opencl error code: "@ + signed_decimal(v as int),
        OpenclError::Other => "unknown opencl error"@,
    }
}

impl OpenclError {
    /// The text shown for this error.
    pub fn text(&self) -> (s: String)
        ensures
            s@ == spec_error_text(*self),
    {
        let mut v: Vec<char> = Vec::new();
        match self {
            OpenclError::OpenCl(code) => {
                push_str(&mut v, "opencl error code: ");
                push_signed_decimal(&mut v, *code);
            },
            OpenclError::CustomOpenCl(code) => {
                push_str(&mut v, "custom opencl error code: ");
                push_signed_decimal(&mut v, *code);
            },
            OpenclError::Other => {
                push_str(&mut v, "other error");
            },
        }
        proof {
            assert(v@ =~= spec_error_text(*self));
        }
        string_from_chars(&v)
    }

    /// The text this error carries when it is handed on as an I/O or N-API error.
    pub fn forwarded_text(&self) -> (s: String)
        ensures
            s@ == spec_forwarded_text(*self),
    {
        let mut v: Vec<char> = Vec::new();
        match self {
            OpenclError::OpenCl(code) => {
                push_str(&mut v, "opencl error code: ");
                push_signed_decimal(&mut v, *code);
            },
            OpenclError::CustomOpenCl(code) => {
                push_str(&mut v, "custom opencl error code: ");
                push_signed_decimal(&mut v, *code);
            },
            OpenclError::Other => {
                push_str(&mut v, "unknown opencl error");
            },
        }
        proof {
            assert(v@ =~= spec_forwarded_text(*self));
        }
        string_from_chars(&v)
    }

    /// The error that an OpenCL runtime code becomes.
    pub fn from_cl_code(code: i32) -> (e: OpenclError)
        ensures
            e == OpenclError::OpenCl(code),
    {
        OpenclError::OpenCl(code)
    }
}

impl From<std::io::Error> for OpenclError {
    /// Every I/O failure becomes [`OpenclError::Other`].
    fn from(value: std::io::Error) -> (e: Self) {
        OpenclError::Other
    }
}

impl FromSpecImpl<std::io::Error> for OpenclError {
    open spec fn obeys_from_spec() -> bool {
        true
    }

    open spec fn from_spec(v: std::io::Error) -> Self {
        OpenclError::Other
    }
}

} // verus!
