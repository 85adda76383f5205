use vstd::prelude::*;

verus! {

/// The errors of the store and its backends. Each carries a message for the operator.
#[derive(Debug)]
pub enum FsError {
    /// An underlying I/O failure of a backend.
    Io(String),
    /// A backend refused the operation (say, deleting a non-empty directory).
    Storage(String),
    /// Inconsistent metadata.
    Metadata(String),
    /// The path is absent.
    NotFound(String),
    /// A backend refused access.
    PermissionDenied(String),
    /// A request that cannot be carried out as asked.
    InvalidOperation(String),
}

/// The line that `message` gives for `e`.
pub open spec fn message_text(e: FsError) -> Seq<char> {
    match e {
        FsError::Io(m) => "IO error: "@ + m@,
        FsError::Storage(m) => "Storage error: "@ + m@,
        FsError::Metadata(m) => "Metadata error: "@ + m@,
        FsError::NotFound(m) => "File not found: "@ + m@,
        FsError::PermissionDenied(m) => "Permission denied: "@ + m@,
        FsError::InvalidOperation(m) => "Invalid operation: "@ + m@,
    }
}

impl FsError {
    /// A line naming the kind of error and its message.
    pub fn message(&self) -> (r: String)
        ensures
            r@ == message_text(*self),
    {
        let (mut head, detail) = match self {
            FsError::Io(m) => (String::from_str("IO error: "), m),
            FsError::Storage(m) => (String::from_str("Storage error: "), m),
            FsError::Metadata(m) => (String::from_str("Metadata error: "), m),
            FsError::NotFound(m) => (String::from_str("File not found: "), m),
            FsError::PermissionDenied(m) => (String::from_str("Permission denied: "), m),
            FsError::InvalidOperation(m) => (String::from_str("Invalid operation: "), m),
        };
        head.append(detail.as_str());
        head
    }
}

} // verus!
