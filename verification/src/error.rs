//! The failure kinds an operation can report, each carrying the offending
//! path or a human-readable detail.

use vstd::prelude::*;

verus! {

/// Why an operation failed.
#[derive(Debug)]
pub enum ToolError {
    /// A malformed pattern, glob, diff, or an absent/ambiguous match.
    InvalidArgument(String),
    /// The target file or path does not exist.
    FileNotFound(String),
    /// The platform refused access; distinct from generic I/O failure.
    PermissionDenied(String),
    /// Any other read/write failure, by its rendered platform message.
    Io(String),
    /// A spawned command failed.
    CommandFailed(String),
    /// Any other failure.
    Other(String),
}

/// The rendered message of a `ToolError` holding detail `s`.
pub open spec fn tool_error_message(e: ToolError) -> Seq<char> {
    match e {
        ToolError::InvalidArgument(s) => "Invalid argument: "@ + s@,
        ToolError::FileNotFound(s) => "File not found: "@ + s@,
        ToolError::PermissionDenied(s) => "Permission denied: "@ + s@,
        ToolError::Io(s) => "IO error: "@ + s@,
        ToolError::CommandFailed(s) => "Command execution failed: "@ + s@,
        ToolError::Other(s) => "Tool error: "@ + s@,
    }
}

impl ToolError {
    /// Renders the error as its human-readable message.
    pub fn message(&self) -> (r: String)
        ensures
            r@ == tool_error_message(*self),
    {
        let mut r = String::new();
        match self {
            ToolError::InvalidArgument(s) => {
                r.append("Invalid argument: ");
                r.append(s.as_str());
            },
            ToolError::FileNotFound(s) => {
                r.append("File not found: ");
                r.append(s.as_str());
            },
            ToolError::PermissionDenied(s) => {
                r.append("Permission denied: ");
                r.append(s.as_str());
            },
            ToolError::Io(s) => {
                r.append("IO error: ");
                r.append(s.as_str());
            },
            ToolError::CommandFailed(s) => {
                r.append("Command execution failed: ");
                r.append(s.as_str());
            },
            ToolError::Other(s) => {
                r.append("Tool error: ");
                r.append(s.as_str());
            },
        }
        r
    }
}

} // verus!
