use vstd::prelude::*;

use crate::error::RepositoryError;

verus! {

/// What a relational store reports when a statement fails.
#[derive(Debug, Clone, PartialEq, Eq)]
pub enum StoreFault {
    /// A statement that had to return a row returned none.
    RowNotFound,
    /// Any other failure, with the store's own description.
    Other(String),
}

/// Classifies the failure of a statement keyed by `key`: a missing row means
/// the key matched nothing.
pub fn classify_fault(key: i32, fault: StoreFault) -> (r: RepositoryError)
    ensures
        match fault {
            StoreFault::RowNotFound => r == RepositoryError::NotFound(key),
            StoreFault::Other(m) => r == RepositoryError::Unexpected(m),
        },
{
    match fault {
        StoreFault::RowNotFound => RepositoryError::NotFound(key),
        StoreFault::Other(m) => RepositoryError::Unexpected(m),
    }
}

/// The outcome of an update that returns the row it changed, keyed by `key`.
pub fn keyed_outcome<R>(key: i32, outcome: Result<R, StoreFault>) -> (r: Result<R, RepositoryError>)
    ensures
        match outcome {
            Ok(x) => r == Ok::<R, RepositoryError>(x),
            Err(StoreFault::RowNotFound) => r == Err::<R, RepositoryError>(
                RepositoryError::NotFound(key),
            ),
            Err(StoreFault::Other(m)) => r == Err::<R, RepositoryError>(
                RepositoryError::Unexpected(m),
            ),
        },
{
    match outcome {
        Ok(x) => Ok(x),
        Err(f) => Err(classify_fault(key, f)),
    }
}

/// The outcome of a statement with no key (an insert, a listing): every
/// failure is unexpected.
pub fn unkeyed_outcome<R>(outcome: Result<R, StoreFault>) -> (r: Result<R, RepositoryError>)
    ensures
        match outcome {
            Ok(x) => r == Ok::<R, RepositoryError>(x),
            Err(StoreFault::RowNotFound) => r matches Err(RepositoryError::Unexpected(_)),
            Err(StoreFault::Other(m)) => r == Err::<R, RepositoryError>(
                RepositoryError::Unexpected(m),
            ),
        },
{
    match outcome {
        Ok(x) => Ok(x),
        Err(StoreFault::RowNotFound) => Err(
            RepositoryError::Unexpected("the statement returned no row".to_owned()),
        ),
        Err(StoreFault::Other(m)) => Err(RepositoryError::Unexpected(m)),
    }
}

/// The outcome of a delete keyed by `key`, from the number of rows it
/// removed: removing none is `NotFound(key)`, never a silent success.
pub fn delete_outcome(key: i32, outcome: Result<u64, StoreFault>) -> (r: Result<(), RepositoryError>)
    ensures
        match outcome {
            Ok(n) => if n == 0 {
                r == Err::<(), RepositoryError>(RepositoryError::NotFound(key))
            } else {
                r == Ok::<(), RepositoryError>(())
            },
            Err(StoreFault::RowNotFound) => r == Err::<(), RepositoryError>(
                RepositoryError::NotFound(key),
            ),
            Err(StoreFault::Other(m)) => r == Err::<(), RepositoryError>(
                RepositoryError::Unexpected(m),
            ),
        },
{
    match outcome {
        Ok(n) => {
            if n == 0 {
                Err(RepositoryError::NotFound(key))
            } else {
                Ok(())
            }
        },
        Err(f) => Err(classify_fault(key, f)),
    }
}

} // verus!
