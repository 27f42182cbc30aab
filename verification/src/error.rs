//! What can go wrong with a query, and the status that the caller is told.

use vstd::prelude::*;
use vstd::string::StringExecFns;

verus! {

/// The status of a failed query on the wire.
#[derive(Clone, Copy, Debug, PartialEq, Eq, Structural)]
pub enum StatusCode {
    /// The request cannot be understood.
    InvalidArgument,
    /// What was asked for does not exist.
    NotFound,
    /// The service takes no more queries now.
    ResourceExhausted,
}

/// Why the service refused a query before it ran.
#[derive(Clone, Copy, Debug, PartialEq, Eq, Structural)]
pub enum Error {
    /// The ticket of the request is not a well-formed query request.
    InvalidTicket,
    /// As many queries run as are admitted at a time.
    RequestLimit,
}

/// Why a query that ran found nothing to answer with.
#[derive(Clone, Copy, Debug, PartialEq, Eq, Structural)]
pub enum QueryError {
    /// The namespace is not known.
    NamespaceNotFound(u64),
    /// The table is not known in the namespace.
    TableNotFound(u64, u64),
}

impl Error {
    /// The status that stands for this error on the wire.
    pub open spec fn spec_code(&self) -> StatusCode {
        match self {
            Error::InvalidTicket => StatusCode::InvalidArgument,
            Error::RequestLimit => StatusCode::ResourceExhausted,
        }
    }

    #[verifier::when_used_as_spec(spec_code)]
    pub fn code(&self) -> (c: StatusCode)
        ensures
            c == self.spec_code(),
    {
        match self {
            Error::InvalidTicket => StatusCode::InvalidArgument,
            Error::RequestLimit => StatusCode::ResourceExhausted,
        }
    }

    /// The words that go with the status.
    pub fn message(&self) -> (m: String)
        ensures
            m@ == (match self {
                Error::InvalidTicket => "invalid flight ticket"@,
                Error::RequestLimit => "simultaneous query limit exceeded"@,
            }),
    {
        match self {
            Error::InvalidTicket => String::from_str("invalid flight ticket"),
            Error::RequestLimit => String::from_str("simultaneous query limit exceeded"),
        }
    }
}

impl QueryError {
    /// The status that stands for this error on the wire: whatever was not
    /// found, the status says so.
    pub open spec fn spec_code(&self) -> StatusCode {
        StatusCode::NotFound
    }

    #[verifier::when_used_as_spec(spec_code)]
    pub fn code(&self) -> (c: StatusCode)
        ensures
            c == self.spec_code(),
    {
        match self {
            QueryError::NamespaceNotFound(_) => StatusCode::NotFound,
            QueryError::TableNotFound(_, _) => StatusCode::NotFound,
        }
    }

    /// The words that go with the status.
    pub fn message(&self) -> (m: String)
        ensures
            m@ == (match self {
                QueryError::NamespaceNotFound(_) => "namespace not found"@,
                QueryError::TableNotFound(_, _) => "table not found in namespace"@,
            }),
    {
        match self {
            QueryError::NamespaceNotFound(_) => String::from_str("namespace not found"),
            QueryError::TableNotFound(_, _) => String::from_str("table not found in namespace"),
        }
    }
}

} // verus!
