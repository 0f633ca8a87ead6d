//! The failures that abort an operation. A snippet that does not compile is
//! no failure: it is recorded as data.

use vstd::prelude::*;

verus! {

#[derive(Clone, Debug, PartialEq, Eq)]
pub enum AppError {
    /// The store rejected a read or a write; the detail is for the logs.
    Database(String),
    /// The toolchain could not be run, so the snippet was never judged.
    Audit(String),
    /// No record has the requested identifier.
    NotFound(String),
}

impl AppError {
    /// The full description, for the logs.
    pub open spec fn description_of(&self) -> Seq<char> {
        match self {
            AppError::Database(d) => "Database error: "@ + d@,
            AppError::Audit(d) => "Audit error: "@ + d@,
            AppError::NotFound(d) => "Resource not found: "@ + d@,
        }
    }

    /// What a caller is shown: store and toolchain details stay internal.
    pub open spec fn client_message_of(&self) -> Seq<char> {
        match self {
            AppError::Database(_) => "An internal database error occurred"@,
            AppError::Audit(_) => "The code validation service is unavailable"@,
            AppError::NotFound(d) => d@,
        }
    }

    pub fn describe(&self) -> (r: String)
        ensures
            r@ == self.description_of(),
    {
        let (head, d) = match self {
            AppError::Database(d) => ("Database error: ", d),
            AppError::Audit(d) => ("Audit error: ", d),
            AppError::NotFound(d) => ("Resource not found: ", d),
        };
        let mut r = String::from_str(head);
        r.append(d.as_str());
        r
    }

    pub fn client_message(&self) -> (r: String)
        ensures
            r@ == self.client_message_of(),
    {
        match self {
            AppError::Database(_) => String::from_str("An internal database error occurred"),
            AppError::Audit(_) => String::from_str("The code validation service is unavailable"),
            AppError::NotFound(d) => d.clone(),
        }
    }
}

} // verus!
