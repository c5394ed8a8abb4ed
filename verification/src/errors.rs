//! The exporter's error taxonomy: flat and string-valued.
//!
//! An export fails in one of three ways — the directory chain could not
//! be created, the destination file could not be created, or writing to
//! it failed part-way. Each failure is reported to the caller as a
//! human-readable message with a fixed prefix per failure kind, followed
//! by a description of the underlying filesystem condition.

use vstd::prelude::*;
use vstd::string::*;

verus! {

/// Why an export failed. Each variant carries the description of the
/// underlying filesystem condition.
pub enum ExportError {
    /// The destination's directory chain could not be created; the
    /// operation aborted before touching the destination file.
    DirCreate(String),
    /// The destination file could not be created or opened for writing.
    FileCreate(String),
    /// Writing the content to the opened file failed part-way through.
    Write(String),
}

impl ExportError {
    /// The message reported to the caller: one fixed prefix per failure
    /// kind, then the underlying description.
    pub open spec fn spec_message(self) -> Seq<char> {
        match self {
            ExportError::DirCreate(d) => "Failed to create directory: "@ + d@,
            ExportError::FileCreate(d) => "Failed to create file: "@ + d@,
            ExportError::Write(d) => "Failed to write to file: "@ + d@,
        }
    }

    /// Render the error as the message handed back to the caller.
    pub fn message(&self) -> (r: String)
        ensures
            r@ == self.spec_message(),
    {
        match self {
            ExportError::DirCreate(d) => String::from_str("Failed to create directory: ").concat(
                d.as_str(),
            ),
            ExportError::FileCreate(d) => String::from_str("Failed to create file: ").concat(
                d.as_str(),
            ),
            ExportError::Write(d) => String::from_str("Failed to write to file: ").concat(
                d.as_str(),
            ),
        }
    }
}

} // verus!
