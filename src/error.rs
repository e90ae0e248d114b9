use vstd::prelude::*;

verus! {

/// Errors of the service. The storage and cache variants carry the detail
/// of the failure, which is logged and never shown to the client.
pub enum AppError {
    Database(String),
    Redis(String),
    NotFound(String),
    BadRequest(String),
    Internal(String),
}

/// What the client sees of an internal error; its detail is only logged.
pub const INTERNAL_MESSAGE: &'static str = "Internal server error";

/// The status code and client-facing message for `e`.
pub open spec fn response_spec(e: AppError) -> (u16, Seq<char>) {
    match e {
        AppError::Database(_) => (500, "Database error occurred"@),
        AppError::Redis(_) => (500, "Cache error occurred"@),
        AppError::NotFound(m) => (404, m@),
        AppError::BadRequest(m) => (400, m@),
        AppError::Internal(_) => (500, INTERNAL_MESSAGE@),
    }
}

impl AppError {
    /// The status code and the message shown to the client. Storage, cache
    /// and internal failures get a generic message that leaks no detail.
    pub fn status_and_message(&self) -> (r: (u16, String))
        ensures
            (r.0, r.1@) == response_spec(*self),
            self is Internal ==> r.0 == 500 && r.1@ == INTERNAL_MESSAGE@,
    {
        match self {
            AppError::Database(_) => (500, "Database error occurred".to_owned()),
            AppError::Redis(_) => (500, "Cache error occurred".to_owned()),
            AppError::NotFound(m) => (404, m.clone()),
            AppError::BadRequest(m) => (400, m.clone()),
            AppError::Internal(_) => (500, INTERNAL_MESSAGE.to_owned()),
        }
    }
}

/// Internal errors that differ only in their detail look the same to the
/// client.
pub proof fn lemma_internal_detail_hidden(a: AppError, b: AppError)
    requires
        a is Internal,
        b is Internal,
    ensures
        response_spec(a) == response_spec(b),
{
}

} // verus!
