use vstd::prelude::*;

verus! {

/// Failure kinds shared by every parser of the library.
#[derive(Debug, Clone)]
pub enum MotecError {
    /// Malformed XML, or XML the workspace mapping cannot accept.
    XmlParse(String),
    /// A binary field could not be read; names the field, channel or row.
    BinaryParse(String),
    /// The buffer is not of the expected format (too small).
    InvalidFormat(String),
    /// An input/output failure reported by the caller's environment.
    Io(String),
    /// The XML buffer is not valid UTF-8.
    Utf8(String),
    /// A required field is absent.
    MissingField(String),
    /// A value that makes no sense for the format.
    InvalidData(String),
}

/// Result type of the library's fallible operations.
pub type Result<T> = core::result::Result<T, MotecError>;

} // verus!
