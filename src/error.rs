//! Errors of the library.

use vstd::prelude::*;

verus! {

/// Declares std's I/O error so that an error value can carry it.
#[verifier::external_type_specification]
#[verifier::external_body]
pub struct ExIoError(std::io::Error);

/// Errors that can occur while talking to jj.
#[derive(Debug)]
pub enum XorcistError {
    /// Not in a jj repository.
    NotInRepo,
    /// jj command not found.
    JjNotFound,
    /// jj command failed, with its message.
    JjError(String),
    /// I/O error.
    Io(std::io::Error),
    /// jj printed output that is not UTF-8.
    InvalidUtf8,
}

/// Relies on the `Display` of `std::io::Error`: its message.
#[verifier::external_body]
fn io_error_text(e: &std::io::Error) -> (r: String) {
    e.to_string()
}

impl XorcistError {
    /// The message of this error.
    pub fn message(&self) -> (r: String)
        ensures
            self is NotInRepo ==> r@ == "not in a jj repository (or any parent directory)"@,
            self is JjNotFound ==> r@ == "jj command not found in PATH"@,
            self matches XorcistError::JjError(m) ==> r@ == "jj command failed: "@ + m@,
            self is Io ==> exists|t: Seq<char>| r@ == "IO error: "@ + t,
            self is InvalidUtf8 ==> r@ == "invalid UTF-8 in jj output"@,
    {
        match self {
            XorcistError::NotInRepo => String::from_str(
                "not in a jj repository (or any parent directory)",
            ),
            XorcistError::JjNotFound => String::from_str("jj command not found in PATH"),
            XorcistError::JjError(m) => {
                let mut r = String::from_str("jj command failed: ");
                r.append(m.as_str());
                r
            },
            XorcistError::Io(e) => {
                let mut r = String::from_str("IO error: ");
                let t = io_error_text(e);
                r.append(t.as_str());
                r
            },
            XorcistError::InvalidUtf8 => String::from_str("invalid UTF-8 in jj output"),
        }
    }
}

} // verus!
