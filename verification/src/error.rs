//! Error taxonomy of the gallery core.
//!
//! Per-file indexing errors are contained by the scanner; serving-time errors
//! are surfaced as typed values so a transport layer can map them to status
//! codes.

use vstd::prelude::*;
use vstd::string::StringExecFns;

verus! {

/// A typed application error. Variants that wrap an underlying failure
/// (database, I/O, image processing) carry its rendered message.
#[derive(Debug)]
pub enum AppError {
    DatabaseError(String),
    IoError(String),
    ImageError(String),
    NotFound(String),
    BadRequest(String),
    InternalError(String),
    Unauthorized(String),
    ValidationError(String),
}

pub type AppResult<T> = Result<T, AppError>;

impl AppError {
    /// The HTTP status code this error maps to at the serving boundary.
    pub fn status_code(&self) -> (code: u16)
        ensures
            code == self.spec_status_code(),
    {
        match self {
            AppError::NotFound(_) => 404,
            AppError::BadRequest(_) => 400,
            AppError::Unauthorized(_) => 401,
            AppError::ValidationError(_) => 422,
            AppError::DatabaseError(_) => 500,
            AppError::IoError(_) => 500,
            AppError::ImageError(_) => 500,
            AppError::InternalError(_) => 500,
        }
    }

    pub open spec fn spec_status_code(&self) -> u16 {
        match self {
            AppError::NotFound(_) => 404u16,
            AppError::BadRequest(_) => 400u16,
            AppError::Unauthorized(_) => 401u16,
            AppError::ValidationError(_) => 422u16,
            AppError::DatabaseError(_) => 500u16,
            AppError::IoError(_) => 500u16,
            AppError::ImageError(_) => 500u16,
            AppError::InternalError(_) => 500u16,
        }
    }

    /// Whether the error's own message may be shown to the requester;
    /// internal failures are reported only generically.
    pub fn shows_details(&self) -> (b: bool)
        ensures
            b == (self.spec_status_code() != 500),
    {
        match self {
            AppError::NotFound(_) => true,
            AppError::BadRequest(_) => true,
            AppError::Unauthorized(_) => true,
            AppError::ValidationError(_) => true,
            AppError::DatabaseError(_) => false,
            AppError::IoError(_) => false,
            AppError::ImageError(_) => false,
            AppError::InternalError(_) => false,
        }
    }

    /// The rendered message, prefixed by the error class.
    pub fn message(&self) -> (m: String)
        ensures
            m@ == self.spec_message(),
    {
        proof {
            reveal_strlit("Database error: ");
            reveal_strlit("IO error: ");
            reveal_strlit("Image processing error: ");
            reveal_strlit("Not found: ");
            reveal_strlit("Bad request: ");
            reveal_strlit("Internal error: ");
            reveal_strlit("Unauthorized: ");
            reveal_strlit("Validation error: ");
        }
        match self {
            AppError::DatabaseError(e) => String::from_str("Database error: ").concat(e.as_str()),
            AppError::IoError(e) => String::from_str("IO error: ").concat(e.as_str()),
            AppError::ImageError(e) => String::from_str("Image processing error: ").concat(
                e.as_str(),
            ),
            AppError::NotFound(m) => String::from_str("Not found: ").concat(m.as_str()),
            AppError::BadRequest(m) => String::from_str("Bad request: ").concat(m.as_str()),
            AppError::InternalError(m) => String::from_str("Internal error: ").concat(m.as_str()),
            AppError::Unauthorized(m) => String::from_str("Unauthorized: ").concat(m.as_str()),
            AppError::ValidationError(m) => String::from_str("Validation error: ").concat(
                m.as_str(),
            ),
        }
    }

    pub open spec fn spec_message(&self) -> Seq<char> {
        match self {
            AppError::DatabaseError(e) => "Database error: "@ + e@,
            AppError::IoError(e) => "IO error: "@ + e@,
            AppError::ImageError(e) => "Image processing error: "@ + e@,
            AppError::NotFound(m) => "Not found: "@ + m@,
            AppError::BadRequest(m) => "Bad request: "@ + m@,
            AppError::InternalError(m) => "Internal error: "@ + m@,
            AppError::Unauthorized(m) => "Unauthorized: "@ + m@,
            AppError::ValidationError(m) => "Validation error: "@ + m@,
        }
    }

    /// A not-found error for the named resource.
    pub fn not_found(resource: &str) -> (e: AppError)
        ensures
            e matches AppError::NotFound(m) && m@ == resource@ + " not found"@,
    {
        proof {
            reveal_strlit(" not found");
        }
        AppError::NotFound(String::from_str(resource).concat(" not found"))
    }

    pub fn bad_request(message: &str) -> (e: AppError)
        ensures
            e matches AppError::BadRequest(m) && m@ == message@,
    {
        AppError::BadRequest(String::from_str(message))
    }

    pub fn internal(message: &str) -> (e: AppError)
        ensures
            e matches AppError::InternalError(m) && m@ == message@,
    {
        AppError::InternalError(String::from_str(message))
    }

    pub fn validation(message: &str) -> (e: AppError)
        ensures
            e matches AppError::ValidationError(m) && m@ == message@,
    {
        AppError::ValidationError(String::from_str(message))
    }
}

} // verus!
