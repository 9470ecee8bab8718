//! Requests that are refused, and how the refusal is told.

use vstd::prelude::*;

verus! {

/// Why a request is refused, with a message for the one who asked.
#[derive(Debug)]
pub enum AppError {
    /// The request makes no sense.
    BadRequest(String),
    /// There is no such session.
    NotFound(String),
    /// The session's state does not allow it.
    Conflict(String),
    /// The daemon failed.
    Internal(String),
}

/// The body of a refusal.
#[derive(Debug)]
pub struct ErrorBody {
    pub code: String,
    pub message: String,
}

impl AppError {
    /// The message of a refusal.
    pub open spec fn message(self) -> Seq<char> {
        match self {
            AppError::BadRequest(m) => m@,
            AppError::NotFound(m) => m@,
            AppError::Conflict(m) => m@,
            AppError::Internal(m) => m@,
        }
    }

    /// The word that stands for the kind of a refusal.
    pub open spec fn code(self) -> Seq<char> {
        match self {
            AppError::BadRequest(_) => "bad_request"@,
            AppError::NotFound(_) => "not_found"@,
            AppError::Conflict(_) => "conflict"@,
            AppError::Internal(_) => "internal"@,
        }
    }

    /// The HTTP status of a refusal.
    pub fn status(&self) -> (r: u16)
        ensures
            r == match self {
                AppError::BadRequest(_) => 400u16,
                AppError::NotFound(_) => 404u16,
                AppError::Conflict(_) => 409u16,
                AppError::Internal(_) => 500u16,
            },
    {
        match self {
            AppError::BadRequest(_) => 400,
            AppError::NotFound(_) => 404,
            AppError::Conflict(_) => 409,
            AppError::Internal(_) => 500,
        }
    }

    /// The body of the refusal.
    pub fn body(&self) -> (r: ErrorBody)
        ensures
            r.code@ == self.code(),
            r.message@ == self.message(),
    {
        let (code, message): (&str, &String) = match self {
            AppError::BadRequest(m) => ("bad_request", m),
            AppError::NotFound(m) => ("not_found", m),
            AppError::Conflict(m) => ("conflict", m),
            AppError::Internal(m) => ("internal", m),
        };
        ErrorBody { code: code.to_owned(), message: message.clone() }
    }
}

/// A refusal is told by the message it was made with and by the word for its
/// kind.
pub proof fn law_refusals_tell_their_message(m: String)
    ensures
        AppError::BadRequest(m).message() == m@ && AppError::BadRequest(m).code()
            == "bad_request"@,
        AppError::NotFound(m).message() == m@ && AppError::NotFound(m).code() == "not_found"@,
        AppError::Conflict(m).message() == m@ && AppError::Conflict(m).code() == "conflict"@,
        AppError::Internal(m).message() == m@ && AppError::Internal(m).code() == "internal"@,
{
}

} // verus!
