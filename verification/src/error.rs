//! The error type for list operations.
//!
//! A fault aborts the whole operation: no partial result is returned beside
//! an error.

use vstd::prelude::*;

verus! {

/// The error type for listing operations.
#[derive(Debug, PartialEq, Eq)]
pub enum LsError {
    /// The given path is neither an existing file nor an existing directory.
    InvalidPath {
        /// The path as it was given.
        path: String,
    },
    /// The filesystem failed while a path was enumerated, examined or read.
    ReadFault {
        /// The path the fault arose on.
        path: String,
        /// The underlying fault, rendered.
        message: String,
    },
    /// The tag extractor failed on an explicitly named file.
    TagReadFault {
        /// The path of the file.
        path: String,
        /// The underlying fault, rendered.
        message: String,
    },
}

impl LsError {
    /// What [`LsError::message`] renders.
    pub open spec fn message_spec(&self) -> Seq<char> {
        match self {
            LsError::InvalidPath { path } => "cannot access "@ + path@
                + ": no such file or directory"@,
            LsError::ReadFault { path, message } => "attempting to read "@ + path@
                + " resulted in an error: "@ + message@,
            LsError::TagReadFault { path, message } => "attempting to read "@ + path@
                + " resulted in an error: "@ + message@,
        }
    }

    /// Renders the error for presentation.
    pub fn message(&self) -> (r: String)
        ensures
            r@ == self.message_spec(),
    {
        match self {
            LsError::InvalidPath { path } => {
                let mut s = String::from_str("cannot access ");
                s.append(path.as_str());
                s.append(": no such file or directory");
                s
            },
            LsError::ReadFault { path, message } => {
                let mut s = String::from_str("attempting to read ");
                s.append(path.as_str());
                s.append(" resulted in an error: ");
                s.append(message.as_str());
                s
            },
            LsError::TagReadFault { path, message } => {
                let mut s = String::from_str("attempting to read ");
                s.append(path.as_str());
                s.append(" resulted in an error: ");
                s.append(message.as_str());
                s
            },
        }
    }
}

} // verus!
