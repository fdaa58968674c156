//! The typed error taxonomy, and the translator from engine status codes.
//!
//! Every fallible operation of this library reports one value of [`Error`].
//! The translator [`Error::from_code`] is total: a code outside the known
//! range maps to [`Error::Unknown`], never to a panic, and the message that
//! came with the status is preserved verbatim.

use vstd::prelude::*;

verus! {

/// Engine status code for success.
pub const STATUS_OK: u32 = 0;

/// Engine status code for a missing resource.
pub const STATUS_NOT_FOUND: u32 = 1;

/// Engine status code for a resource that already exists.
pub const STATUS_ALREADY_EXISTS: u32 = 2;

/// Engine status code for a malformed argument.
pub const STATUS_INVALID_ARGUMENT: u32 = 3;

/// Engine status code for an unsupported operation.
pub const STATUS_NOT_SUPPORTED: u32 = 4;

/// Engine status code for an internal failure.
pub const STATUS_INTERNAL_ERROR: u32 = 5;

/// Engine status code for a permission failure.
pub const STATUS_PERMISSION_DENIED: u32 = 6;

/// Engine status code for an unmet precondition.
pub const STATUS_FAILED_PRECONDITION: u32 = 7;

/// Error type for collection operations.
#[derive(Debug, Clone)]
pub enum Error {
    /// Resource not found (document, field value, etc.)
    NotFound(String),
    /// Resource already exists
    AlreadyExists(String),
    /// Invalid argument provided
    InvalidArgument(String),
    /// Operation not supported
    NotSupported(String),
    /// Internal error in the storage layer
    InternalError(String),
    /// Permission denied for the operation
    PermissionDenied(String),
    /// Precondition for the operation was not met
    FailedPrecondition(String),
    /// Unknown error
    Unknown(String),
    /// Null handle encountered where a value was owed
    NullPointer,
    /// Collection not found
    CollectionNotFound(String),
    /// Index not found
    IndexNotFound(String),
    /// Field not found in document or schema
    FieldNotFound(String),
    /// Vector dimension mismatch
    DimensionMismatch {
        /// Expected dimension
        expected: usize,
        /// Actual dimension provided
        actual: usize,
    },
    /// Text encoding error
    Utf8Error(String),
}

pub type Result<T> = core::result::Result<T, Error>;

/// Which typed error a status code denotes, message kept verbatim.
pub open spec fn error_matches_code(e: Error, code: u32, message: Seq<char>) -> bool {
    if code == STATUS_NOT_FOUND {
        e matches Error::NotFound(m) && m@ == message
    } else if code == STATUS_ALREADY_EXISTS {
        e matches Error::AlreadyExists(m) && m@ == message
    } else if code == STATUS_INVALID_ARGUMENT {
        e matches Error::InvalidArgument(m) && m@ == message
    } else if code == STATUS_NOT_SUPPORTED {
        e matches Error::NotSupported(m) && m@ == message
    } else if code == STATUS_INTERNAL_ERROR {
        e matches Error::InternalError(m) && m@ == message
    } else if code == STATUS_PERMISSION_DENIED {
        e matches Error::PermissionDenied(m) && m@ == message
    } else if code == STATUS_FAILED_PRECONDITION {
        e matches Error::FailedPrecondition(m) && m@ == message
    } else {
        e matches Error::Unknown(m) && m@ == message
    }
}

impl Error {
    /// The spec-level value of this error: the variant with its message seen
    /// as a sequence of characters.
    pub open spec fn msg_spec(self) -> Seq<char> {
        match self {
            Error::NotFound(m) => m@,
            Error::AlreadyExists(m) => m@,
            Error::InvalidArgument(m) => m@,
            Error::NotSupported(m) => m@,
            Error::InternalError(m) => m@,
            Error::PermissionDenied(m) => m@,
            Error::FailedPrecondition(m) => m@,
            Error::Unknown(m) => m@,
            Error::NullPointer => Seq::empty(),
            Error::CollectionNotFound(m) => m@,
            Error::IndexNotFound(m) => m@,
            Error::FieldNotFound(m) => m@,
            Error::DimensionMismatch { .. } => Seq::empty(),
            Error::Utf8Error(m) => m@,
        }
    }

    /// Translate an engine status code and its message into a typed error.
    ///
    /// Total: every unrecognized code maps to `Unknown`. The message is kept
    /// verbatim.
    pub fn from_code(code: u32, message: String) -> (e: Error)
        ensures
            e.msg_spec() == message@,
            error_matches_code(e, code, message@),
    {
        if code == STATUS_NOT_FOUND {
            Error::NotFound(message)
        } else if code == STATUS_ALREADY_EXISTS {
            Error::AlreadyExists(message)
        } else if code == STATUS_INVALID_ARGUMENT {
            Error::InvalidArgument(message)
        } else if code == STATUS_NOT_SUPPORTED {
            Error::NotSupported(message)
        } else if code == STATUS_INTERNAL_ERROR {
            Error::InternalError(message)
        } else if code == STATUS_PERMISSION_DENIED {
            Error::PermissionDenied(message)
        } else if code == STATUS_FAILED_PRECONDITION {
            Error::FailedPrecondition(message)
        } else {
            Error::Unknown(message)
        }
    }

    /// The descriptive form of this error: its kind, then the message or the
    /// mismatching dimensions.
    pub open spec fn describe_spec(self) -> Seq<char> {
        match self {
            Error::NotFound(m) => "Not found: "@ + m@,
            Error::AlreadyExists(m) => "Already exists: "@ + m@,
            Error::InvalidArgument(m) => "Invalid argument: "@ + m@,
            Error::NotSupported(m) => "Not supported: "@ + m@,
            Error::InternalError(m) => "Internal error: "@ + m@,
            Error::PermissionDenied(m) => "Permission denied: "@ + m@,
            Error::FailedPrecondition(m) => "Failed precondition: "@ + m@,
            Error::Unknown(m) => "Unknown error: "@ + m@,
            Error::NullPointer => "Null pointer"@,
            Error::CollectionNotFound(m) => "Collection not found: "@ + m@,
            Error::IndexNotFound(m) => "Index not found: "@ + m@,
            Error::FieldNotFound(m) => "Field not found: "@ + m@,
            Error::DimensionMismatch { expected, actual } => "Vector dimension mismatch: expected "@
                + crate::text::dec_of(expected as nat) + ", got "@ + crate::text::dec_of(
                actual as nat,
            ),
            Error::Utf8Error(m) => "UTF-8 error: "@ + m@,
        }
    }

    /// A readable description of this error, for logging and messages.
    pub fn describe(&self) -> (s: String)
        ensures
            s@ == self.describe_spec(),
    {
        match self {
            Error::NotFound(m) => String::from_str("Not found: ").concat(m.as_str()),
            Error::AlreadyExists(m) => String::from_str("Already exists: ").concat(m.as_str()),
            Error::InvalidArgument(m) => String::from_str("Invalid argument: ").concat(m.as_str()),
            Error::NotSupported(m) => String::from_str("Not supported: ").concat(m.as_str()),
            Error::InternalError(m) => String::from_str("Internal error: ").concat(m.as_str()),
            Error::PermissionDenied(m) => String::from_str("Permission denied: ").concat(
                m.as_str(),
            ),
            Error::FailedPrecondition(m) => String::from_str("Failed precondition: ").concat(
                m.as_str(),
            ),
            Error::Unknown(m) => String::from_str("Unknown error: ").concat(m.as_str()),
            Error::NullPointer => String::from_str("Null pointer"),
            Error::CollectionNotFound(m) => String::from_str("Collection not found: ").concat(
                m.as_str(),
            ),
            Error::IndexNotFound(m) => String::from_str("Index not found: ").concat(m.as_str()),
            Error::FieldNotFound(m) => String::from_str("Field not found: ").concat(m.as_str()),
            Error::DimensionMismatch { expected, actual } => {
                let mut s = String::from_str("Vector dimension mismatch: expected ");
                let e = crate::text::usize_to_string(*expected);
                s.append(e.as_str());
                s.append(", got ");
                let a = crate::text::usize_to_string(*actual);
                s.append(a.as_str());
                s
            },
            Error::Utf8Error(m) => String::from_str("UTF-8 error: ").concat(m.as_str()),
        }
    }
}

/// Translate an engine status into the outcome of an operation: success for
/// the OK code, the translated error for any other code.
pub fn status_to_result(code: u32, message: String) -> (r: Result<()>)
    ensures
        code == STATUS_OK <==> r is Ok,
        r matches Err(e) ==> error_matches_code(e, code, message@),
{
    if code == STATUS_OK {
        Ok(())
    } else {
        Err(Error::from_code(code, message))
    }
}

} // verus!
