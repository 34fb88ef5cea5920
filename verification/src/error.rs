//! The error taxonomy. Every failure propagates to the immediate caller
//! untouched; decode failures carry the offending column name so they are
//! actionable without re-deriving context.

use vstd::prelude::*;

verus! {

/// Why a database operation failed.
#[derive(Debug)]
pub enum OrmError {
    /// Pool exhaustion or network failure; fatal to the operation.
    ConnectionError,
    /// Constraint violation or malformed SQL, surfaced verbatim.
    ExecutionError(String),
    /// Zero rows where exactly one was required. Distinct from an empty
    /// sequence result, which is success.
    NotFoundError,
    /// A raw column value could not be converted to the target type; the
    /// payload names the offending column.
    DecodeError(String),
    /// An operation was attempted after the transaction was committed or
    /// rolled back.
    TransactionClosedError,
}

/// The mathematical model of an [`OrmError`].
pub enum ErrorModel {
    ConnectionError,
    ExecutionError(Seq<char>),
    NotFoundError,
    DecodeError(Seq<char>),
    TransactionClosedError,
}

impl View for OrmError {
    type V = ErrorModel;

    open spec fn view(&self) -> ErrorModel {
        match self {
            OrmError::ConnectionError => ErrorModel::ConnectionError,
            OrmError::ExecutionError(s) => ErrorModel::ExecutionError(s@),
            OrmError::NotFoundError => ErrorModel::NotFoundError,
            OrmError::DecodeError(s) => ErrorModel::DecodeError(s@),
            OrmError::TransactionClosedError => ErrorModel::TransactionClosedError,
        }
    }
}

impl DeepView for OrmError {
    type V = ErrorModel;

    open spec fn deep_view(&self) -> ErrorModel {
        self.view()
    }
}

impl Clone for OrmError {
    /// Cloning keeps the error kind and its payload.
    fn clone(&self) -> (r: Self)
        ensures
            r@ == self@,
    {
        match self {
            OrmError::ConnectionError => OrmError::ConnectionError,
            OrmError::ExecutionError(s) => OrmError::ExecutionError(s.clone()),
            OrmError::NotFoundError => OrmError::NotFoundError,
            OrmError::DecodeError(s) => OrmError::DecodeError(s.clone()),
            OrmError::TransactionClosedError => OrmError::TransactionClosedError,
        }
    }
}

} // verus!
