use vstd::prelude::*;

verus! {

/// Why a ranking request failed as a whole. A row that does not decode is not a
/// failure: it is left out of the result.
#[derive(Clone, Copy, Debug, PartialEq, Eq, Structural)]
pub enum QueryError {
    /// The store could not be opened for reading.
    ConnectionFailed,
    /// The store refused to prepare a query.
    QueryPreparationFailed,
    /// The store failed while running a query.
    QueryExecutionFailed,
}

impl QueryError {
    /// The text that starts the message reported for this failure.
    pub fn label(&self) -> (r: &'static str)
        ensures
            *self == QueryError::ConnectionFailed ==> r@ == "DB Connection Error"@,
            *self == QueryError::QueryPreparationFailed ==> r@ == "Query Prep Error"@,
            *self == QueryError::QueryExecutionFailed ==> r@ == "Query Exec Error"@,
    {
        match self {
            QueryError::ConnectionFailed => "DB Connection Error",
            QueryError::QueryPreparationFailed => "Query Prep Error",
            QueryError::QueryExecutionFailed => "Query Exec Error",
        }
    }
}

} // verus!
