use vstd::prelude::*;

verus! {

/// Error value handed back by every fallible operation: a human readable
/// message and a stable machine readable code.
pub struct AppError {
    pub message: String,
    pub code: String,
}

/// Result type used throughout the library.
pub type AppResult<T> = Result<T, AppError>;

impl AppError {
    /// Builds an error from its message and code.
    pub fn new(message: &str, code: &str) -> (e: AppError)
        ensures
            e.message@ == message@,
            e.code@ == code@,
    {
        AppError { message: message.to_string(), code: code.to_string() }
    }

    /// Builds an error from an owned message and a code.
    pub fn with_message(message: String, code: &str) -> (e: AppError)
        ensures
            e.message@ == message@,
            e.code@ == code@,
    {
        AppError { message, code: code.to_string() }
    }
}

} // verus!
