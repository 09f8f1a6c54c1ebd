//! The error type of the service library and the responses that answer it.

use vstd::prelude::*;

verus! {

broadcast use vstd::string::group_string_axioms;

/// Errors answered by the service library's handlers.
#[derive(Debug)]
pub enum ApiError {
    NotFound,
    Internal(String),
}

impl ApiError {
    /// The status code and message that answer this error: 404 "Not found",
    /// or 500 with the internal error's message.
    pub fn response_parts(self) -> (r: (u16, String))
        ensures
            match self {
                ApiError::NotFound => r.0 == 404 && r.1@ == "Not found"@,
                ApiError::Internal(m) => r.0 == 500 && r.1 == m,
            },
    {
        match self {
            ApiError::NotFound => (404, "Not found".to_string()),
            ApiError::Internal(msg) => (500, msg),
        }
    }
}

} // verus!
