//! An application error and a coarser error it converts to and from.
use vstd::prelude::*;
use vstd::std_specs::convert::FromSpecImpl;
use crate::text::{push_str, string_from_chars};

verus! {

/// Why reading the rendered document failed.
#[derive(Debug)]
pub enum MyError {
    /// The variable naming the document is not set.
    EnvironmentVariableNotFound,
    /// Reading the document failed.
    IOError(std::io::Error),
    /// Some other failure.
    Other,
}

/// A failure whose cause is not told apart.
#[derive(Debug, Clone, Copy, PartialEq, Eq)]
pub enum OtherError {
    /// The cause is unknown.
    Unknown,
}

/// Formats an I/O error with its `Display`; the operating system supplies the
/// message, so nothing is promised of its text.
#[verifier::external_body]
fn io_error_text(e: &std::io::Error) -> (r: String) {
    format!("{}", e)
}

impl MyError {
    /// The message shown for the error; for an I/O error it starts with
    /// `"IO Error: "` and goes on with the error's own message.
    pub fn text(&self) -> (s: String)
        ensures
            match self {
                MyError::EnvironmentVariableNotFound => s@ == "Environment variable not found"@,
                MyError::IOError(_) => s@.len() >= 10 && s@.subrange(0, 10) == "IO Error: "@,
                MyError::Other => s@ == "other error"@,
            },
    {
        match self {
            MyError::EnvironmentVariableNotFound => "Environment variable not found".to_string(),
            MyError::IOError(err) => {
                let detail = io_error_text(err);
                let mut v: Vec<char> = Vec::new();
                push_str(&mut v, "IO Error: ");
                push_str(&mut v, detail.as_str());
                proof {
                    reveal_strlit("IO Error: ");
                    assert(v@.subrange(0, 10) =~= "IO Error: "@);
                }
                string_from_chars(&v)
            },
            MyError::Other => "other error".to_string(),
        }
    }
}

impl OtherError {
    /// The message shown for the error.
    pub fn text(&self) -> (s: String)
        ensures
            s@ == "unknown error"@,
    {
        "unknown error".to_string()
    }
}

impl From<std::io::Error> for MyError {
    fn from(value: std::io::Error) -> (e: Self) {
        MyError::IOError(value)
    }
}

impl FromSpecImpl<std::io::Error> for MyError {
    open spec fn obeys_from_spec() -> bool {
        true
    }

    open spec fn from_spec(v: std::io::Error) -> Self {
        MyError::IOError(v)
    }
}

impl From<OtherError> for MyError {
    fn from(value: OtherError) -> (e: Self) {
        MyError::Other
    }
}

impl FromSpecImpl<OtherError> for MyError {
    open spec fn obeys_from_spec() -> bool {
        true
    }

    open spec fn from_spec(v: OtherError) -> Self {
        MyError::Other
    }
}

impl From<MyError> for OtherError {
    fn from(value: MyError) -> (e: Self) {
        OtherError::Unknown
    }
}

impl FromSpecImpl<MyError> for OtherError {
    open spec fn obeys_from_spec() -> bool {
        true
    }

    open spec fn from_spec(v: MyError) -> Self {
        OtherError::Unknown
    }
}

/// Passes on whether rendering succeeded, keeping its error.
pub fn show_error(rendered: Result<String, MyError>) -> (r: Result<(), MyError>)
    ensures
        match rendered {
            Ok(_) => r == Ok::<(), MyError>(()),
            Err(e) => r == Err::<(), MyError>(e),
        },
{
    match rendered {
        Ok(_) => Ok(()),
        Err(e) => Err(e),
    }
}

/// Passes on whether rendering succeeded, its error turned into an
/// [`OtherError`].
pub fn handle_error(rendered: Result<String, MyError>) -> (r: Result<(), OtherError>)
    ensures
        match rendered {
            Ok(_) => r == Ok::<(), OtherError>(()),
            Err(_) => r == Err::<(), OtherError>(OtherError::Unknown),
        },
{
    match rendered {
        Ok(_) => Ok(()),
        Err(e) => Err(OtherError::from(e)),
    }
}

} // verus!
