//! The failures a request can end in, and how each is surfaced.

use vstd::prelude::*;

verus! {

/// Why a submission or an aggregation did not produce its result.
#[derive(Debug, PartialEq, Eq)]
pub enum ServiceError {
    /// The payload lacks the step count or is malformed.
    InvalidInput,
    /// The user already has a record from the current UTC day.
    AlreadySubmittedToday,
    /// The store could not carry out an operation; `cause` is what it reported.
    StorageError { cause: String },
    /// A stored item could not be decoded into a record.
    AggregationParseError,
}

/// The mathematical value of a [`ServiceError`].
pub enum ErrorView {
    InvalidInput,
    AlreadySubmittedToday,
    StorageError { cause: Seq<char> },
    AggregationParseError,
}

impl View for ServiceError {
    type V = ErrorView;

    open spec fn view(&self) -> ErrorView {
        match self {
            ServiceError::InvalidInput => ErrorView::InvalidInput,
            ServiceError::AlreadySubmittedToday => ErrorView::AlreadySubmittedToday,
            ServiceError::StorageError { cause } => ErrorView::StorageError { cause: cause@ },
            ServiceError::AggregationParseError => ErrorView::AggregationParseError,
        }
    }
}

/// The side that has to act on a failure.
#[derive(Debug, Clone, Copy, PartialEq, Eq, Structural)]
pub enum ErrorCategory {
    /// The request itself is at fault; sending it again cannot help.
    Client,
    /// The service is at fault.
    Server,
}

impl ErrorView {
    /// Input and business-rule failures are the client's, the rest the server's.
    pub open spec fn category(self) -> ErrorCategory {
        match self {
            ErrorView::InvalidInput | ErrorView::AlreadySubmittedToday => ErrorCategory::Client,
            ErrorView::StorageError { .. } | ErrorView::AggregationParseError => ErrorCategory::Server,
        }
    }

    /// Only a failed store operation is worth a second attempt.
    pub open spec fn retryable(self) -> bool {
        self is StorageError
    }
}

impl Clone for ServiceError {
    fn clone(&self) -> (copy: Self)
        ensures
            copy == *self,
    {
        match self {
            ServiceError::InvalidInput => ServiceError::InvalidInput,
            ServiceError::AlreadySubmittedToday => ServiceError::AlreadySubmittedToday,
            ServiceError::StorageError { cause } => ServiceError::StorageError { cause: cause.clone() },
            ServiceError::AggregationParseError => ServiceError::AggregationParseError,
        }
    }
}

impl ServiceError {
    /// Whether the failure is reported as a client error or a server error.
    pub fn category(&self) -> (side: ErrorCategory)
        ensures
            side == self@.category(),
    {
        match self {
            ServiceError::InvalidInput => ErrorCategory::Client,
            ServiceError::AlreadySubmittedToday => ErrorCategory::Client,
            ServiceError::StorageError { .. } => ErrorCategory::Server,
            ServiceError::AggregationParseError => ErrorCategory::Server,
        }
    }

    /// Whether the caller may send the whole request again.
    pub fn is_retryable(&self) -> (retry: bool)
        ensures
            retry == self@.retryable(),
    {
        match self {
            ServiceError::StorageError { .. } => true,
            _ => false,
        }
    }
}

} // verus!
