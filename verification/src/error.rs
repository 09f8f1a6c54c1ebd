//! Errors of the single-process server and the responses that answer them.

use vstd::prelude::*;

verus! {

/// Errors of the single-process server. An undecodable JSON document and an
/// I/O failure are held by their text (the outside error's `Display` form,
/// which is what answers them).
#[derive(Debug)]
pub enum MomError {
    StorageError(String),
    NotFound(String),
    InvalidInput(String),
    SerializationError(String),
    IoError(String),
    DatabaseError(String),
    Internal(String),
}

/// The status code that answers an error: 404 for a missing item, 400 for
/// bad input or undecodable JSON, 500 otherwise.
pub open spec fn status_of(e: &MomError) -> u16 {
    match e {
        MomError::NotFound(_) => 404,
        MomError::InvalidInput(_) => 400,
        MomError::SerializationError(_) => 400,
        _ => 500,
    }
}

/// The text an error carries.
pub open spec fn message_of(e: &MomError) -> Seq<char> {
    match e {
        MomError::StorageError(m) => m@,
        MomError::NotFound(m) => m@,
        MomError::InvalidInput(m) => m@,
        MomError::SerializationError(m) => m@,
        MomError::IoError(m) => m@,
        MomError::DatabaseError(m) => m@,
        MomError::Internal(m) => m@,
    }
}

/// A missing item answers 404, bad input and undecodable JSON 400, and every
/// other error 500, each with the text it carries.
pub proof fn lemma_error_statuses(m: String)
    ensures
        status_of(&MomError::NotFound(m)) == 404,
        status_of(&MomError::InvalidInput(m)) == 400,
        status_of(&MomError::SerializationError(m)) == 400,
        status_of(&MomError::StorageError(m)) == 500,
        status_of(&MomError::IoError(m)) == 500,
        status_of(&MomError::DatabaseError(m)) == 500,
        status_of(&MomError::Internal(m)) == 500,
        message_of(&MomError::NotFound(m)) == m@,
        message_of(&MomError::SerializationError(m)) == m@,
        message_of(&MomError::IoError(m)) == m@,
        message_of(&MomError::Internal(m)) == m@,
{
}

impl MomError {
    /// The status code and message that answer this error: the message is
    /// the text the error carries.
    pub fn response_parts(self) -> (r: (u16, String))
        ensures
            r.0 == status_of(&self),
            r.1@ == message_of(&self),
    {
        match self {
            MomError::NotFound(msg) => (404, msg),
            MomError::InvalidInput(msg) => (400, msg),
            MomError::SerializationError(msg) => (400, msg),
            MomError::StorageError(msg) => (500, msg),
            MomError::DatabaseError(msg) => (500, msg),
            MomError::IoError(msg) => (500, msg),
            MomError::Internal(msg) => (500, msg),
        }
    }
}

} // verus!
