use vstd::prelude::*;

verus! {

/// Error taxonomy of the request path. Fan-out failures never surface here:
/// they are absorbed by the broadcast layer once the write has succeeded.
#[derive(Debug)]
pub enum AppError {
    NotFound(String),
    Unauthorized,
    Forbidden,
    BadRequest(String),
    Internal(String),
}

impl AppError {
    /// The HTTP status code each error maps to.
    pub fn status_code(&self) -> (code: u16)
        ensures
            code == self.spec_status_code(),
    {
        match self {
            AppError::NotFound(_) => 404,
            AppError::Unauthorized => 401,
            AppError::Forbidden => 403,
            AppError::BadRequest(_) => 400,
            AppError::Internal(_) => 500,
        }
    }

    /// A short description for logs and response bodies.
    pub fn message(&self) -> (r: String)
        ensures
            self matches AppError::NotFound(m) ==> r@ == m@,
            self matches AppError::BadRequest(m) ==> r@ == m@,
            self matches AppError::Internal(m) ==> r@ == m@,
    {
        match self {
            AppError::NotFound(m) => m.clone(),
            AppError::Unauthorized => String::from_str("Unauthorized"),
            AppError::Forbidden => String::from_str("Forbidden"),
            AppError::BadRequest(m) => m.clone(),
            AppError::Internal(m) => m.clone(),
        }
    }

    pub open spec fn spec_status_code(&self) -> u16 {
        match self {
            AppError::NotFound(_) => 404,
            AppError::Unauthorized => 401,
            AppError::Forbidden => 403,
            AppError::BadRequest(_) => 400,
            AppError::Internal(_) => 500,
        }
    }
}

} // verus!
