//! The result and error type used in the whole application.

use vstd::prelude::*;

verus! {

/// The result used in the whole application.
pub type AppResult<T> = Result<T, AppError>;

/// The generic error used in the whole application.
pub struct AppError {
    error: String,
}

impl AppError {
    /// The message carried by the error.
    pub closed spec fn spec_message(&self) -> Seq<char> {
        self.error@
    }

    pub fn from_string(string: String) -> (e: AppError)
        ensures
            e.spec_message() == string@,
    {
        AppError { error: string }
    }

    /// The message carried by the error, for reporting.
    pub fn message(&self) -> (m: &String)
        ensures
            m@ == self.spec_message(),
    {
        &self.error
    }
}

} // verus!
