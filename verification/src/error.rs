//! The error channel: the engine's out-parameter error convention as values.
//!
//! The engine reports failure by filling an error pointer; the shell that
//! makes the native call frees that buffer exactly once and hands its bytes
//! here as a plain optional byte string. These functions turn such a reply
//! into a typed result, so that every caller sees failure as a value and
//! never as a dangling or doubly-freed buffer.

use vstd::prelude::*;

verus! {

/// A failure reported by the store or by a lifecycle violation.
///
/// The payload is the engine's message, kept as the raw bytes of the native
/// string: a malformed encoding is reported as it is rather than rejected.
#[derive(Debug)]
pub enum Error {
    /// The store could not be opened or created.
    OpenFailure(Vec<u8>),
    /// A point operation or a batch apply failed on an open handle.
    OperationFailure(Vec<u8>),
    /// An error surfaced by a cursor, independent of its position.
    IteratorFailure(Vec<u8>),
    /// A caller violated a lifecycle contract, such as operating on a
    /// closed handle. The engine was never consulted.
    UsageError(Vec<u8>),
}

impl Error {
    /// The message bytes, whichever failure carries them.
    pub open spec fn message_spec(&self) -> Seq<u8> {
        match self {
            Error::OpenFailure(m) => m@,
            Error::OperationFailure(m) => m@,
            Error::IteratorFailure(m) => m@,
            Error::UsageError(m) => m@,
        }
    }

    /// Returns the message bytes.
    pub fn message(&self) -> (m: &Vec<u8>)
        ensures
            m@ == self.message_spec(),
    {
        match self {
            Error::OpenFailure(m) => m,
            Error::OperationFailure(m) => m,
            Error::IteratorFailure(m) => m,
            Error::UsageError(m) => m,
        }
    }

    /// Whether this failure came from a failed open.
    pub fn is_open_failure(&self) -> (r: bool)
        ensures
            r == (self is OpenFailure),
    {
        match self {
            Error::OpenFailure(_) => true,
            _ => false,
        }
    }

    /// Whether this failure came from a point operation or a batch apply.
    pub fn is_operation_failure(&self) -> (r: bool)
        ensures
            r == (self is OperationFailure),
    {
        match self {
            Error::OperationFailure(_) => true,
            _ => false,
        }
    }

    /// Whether this failure surfaced through a cursor.
    pub fn is_iterator_failure(&self) -> (r: bool)
        ensures
            r == (self is IteratorFailure),
    {
        match self {
            Error::IteratorFailure(_) => true,
            _ => false,
        }
    }

    /// Whether this failure is a lifecycle violation by the caller.
    pub fn is_usage_error(&self) -> (r: bool)
        ensures
            r == (self is UsageError),
    {
        match self {
            Error::UsageError(_) => true,
            _ => false,
        }
    }
}

/// Turns the error reply of a write-like engine call (`put`, `delete`,
/// batch apply) into a result: the call failed exactly when the engine set
/// the error pointer, and the message is taken over unchanged.
pub fn operation_outcome(err: Option<Vec<u8>>) -> (r: Result<(), Error>)
    ensures
        r == (match err {
            Option::None => Result::<(), Error>::Ok(()),
            Option::Some(m) => Result::<(), Error>::Err(Error::OperationFailure(m)),
        }),
{
    match err {
        None => Ok(()),
        Some(m) => Err(Error::OperationFailure(m)),
    }
}

/// Turns the reply of an engine read into a result. A missing key comes
/// back from the engine as no buffer and no error: that is a successful
/// absent result, never a failure.
pub fn get_outcome(err: Option<Vec<u8>>, value: Option<Vec<u8>>) -> (r: Result<
    Option<Vec<u8>>,
    Error,
>)
    ensures
        r == (match err {
            Option::None => Result::<Option<Vec<u8>>, Error>::Ok(value),
            Option::Some(m) => Result::<Option<Vec<u8>>, Error>::Err(
                Error::OperationFailure(m),
            ),
        }),
{
    match err {
        None => Ok(value),
        Some(m) => Err(Error::OperationFailure(m)),
    }
}

/// Turns the reply of an engine open into a result: the open failed exactly
/// when the engine returned no handle. The engine's message is taken over
/// when it set one; a failure without a message is reported with empty
/// bytes rather than by reading a null native string.
pub fn open_outcome(handle_made: bool, err: Option<Vec<u8>>) -> (r: Result<(), Error>)
    ensures
        handle_made ==> r is Ok,
        !handle_made ==> (r matches Err(e) && e matches Error::OpenFailure(m) && m@ == (match err {
            Option::Some(b) => b@,
            Option::None => Seq::<u8>::empty(),
        })),
{
    if handle_made {
        Ok(())
    } else {
        match err {
            Some(m) => Err(Error::OpenFailure(m)),
            None => Err(Error::OpenFailure(Vec::new())),
        }
    }
}

/// Turns the error reply of a cursor's error query into an optional
/// failure: one is reported exactly when the engine set the error pointer.
pub fn iterator_outcome(err: Option<Vec<u8>>) -> (r: Option<Error>)
    ensures
        r == (match err {
            Option::None => Option::<Error>::None,
            Option::Some(m) => Option::<Error>::Some(Error::IteratorFailure(m)),
        }),
{
    match err {
        None => None,
        Some(m) => Some(Error::IteratorFailure(m)),
    }
}

} // verus!
