//! The errors the second generation of sonyflake returns.

use vstd::prelude::*;
use crate::error::{MessageError, WrappedError};

verus! {

/// Equivalent of the errors sonyflake returns, each of Go's sentinels a variant.
#[derive(Clone, Debug)]
pub enum Error {
    /// Go's `ErrInvalidBitsTime`.
    InvalidBitsTime,
    /// Go's `ErrInvalidBitsSequence`.
    InvalidBitsSequence,
    /// Go's `ErrInvalidBitsMachineID`.
    InvalidBitsMachineId,
    /// Go's `ErrInvalidTimeUnit`.
    InvalidTimeUnit,
    /// Go's `ErrInvalidSequence`.
    InvalidSequence,
    /// Go's `ErrInvalidMachineID`.
    InvalidMachineId,
    /// Go's `ErrStartTimeAhead`.
    StartTimeAhead,
    /// Go's `ErrOverTimeLimit`.
    OverTimeLimit,
    /// Go's `ErrNoPrivateAddress`.
    NoPrivateAddress,
    /// An error originating outside sonyflake, returned unchanged.
    Other(WrappedError),
}

/// Whether two errors are the same error, as Go's `errors.Is` compares them:
/// the same sentinel, or wrapped errors that are the same error.
pub open spec fn same_error(a: Error, b: Error) -> bool {
    match (a, b) {
        (Error::Other(x), Error::Other(y)) => x.identity_view() == y.identity_view(),
        (Error::Other(_), _) => false,
        (_, Error::Other(_)) => false,
        _ => a == b,
    }
}

impl PartialEq for Error {
    fn eq(&self, other: &Error) -> (r: bool) {
        match (self, other) {
            (Error::InvalidBitsTime, Error::InvalidBitsTime) => true,
            (Error::InvalidBitsSequence, Error::InvalidBitsSequence) => true,
            (Error::InvalidBitsMachineId, Error::InvalidBitsMachineId) => true,
            (Error::InvalidTimeUnit, Error::InvalidTimeUnit) => true,
            (Error::InvalidSequence, Error::InvalidSequence) => true,
            (Error::InvalidMachineId, Error::InvalidMachineId) => true,
            (Error::StartTimeAhead, Error::StartTimeAhead) => true,
            (Error::OverTimeLimit, Error::OverTimeLimit) => true,
            (Error::NoPrivateAddress, Error::NoPrivateAddress) => true,
            (Error::Other(x), Error::Other(y)) => x.is(y),
            _ => false,
        }
    }
}

impl vstd::std_specs::cmp::PartialEqSpecImpl for Error {
    open spec fn obeys_eq_spec() -> bool {
        true
    }

    open spec fn eq_spec(&self, other: &Error) -> bool {
        same_error(*self, *other)
    }
}

/// The message Go gives each error.
pub open spec fn error_text(e: Error) -> Seq<char> {
    match e {
        Error::InvalidBitsTime => "bit length for time must be 32 or more"@,
        Error::InvalidBitsSequence => "invalid bit length for sequence number"@,
        Error::InvalidBitsMachineId => "invalid bit length for machine id"@,
        Error::InvalidTimeUnit => "invalid time unit"@,
        Error::InvalidSequence => "invalid sequence number"@,
        Error::InvalidMachineId => "invalid machine id"@,
        Error::StartTimeAhead => "start time is ahead"@,
        Error::OverTimeLimit => "over the time limit"@,
        Error::NoPrivateAddress => "no private ip address"@,
        Error::Other(w) => w.text(),
    }
}

impl Error {
    /// Wraps an arbitrary error by its message, as Go returns a caller's `error` untouched.
    pub fn other<E: std::error::Error>(err: E) -> (e: Error)
        ensures
            e matches Error::Other(w) && !w.identity_view().0,
            exists|text: String|
                vstd::string::to_string_from_display_ensures::<E>(&err, text) && error_text(e)
                    == text@,
    {
        let text = err.to_string();
        let e = Error::Other(WrappedError::new(text.as_str()));
        assert(vstd::string::to_string_from_display_ensures::<E>(&err, text) && error_text(e) == text@);
        e
    }

    /// Wraps a plain message, the equivalent of Go's `errors.New`: a new error
    /// with an identity of its own.
    pub fn message(msg: &str) -> (e: Error)
        ensures
            e matches Error::Other(w) && !w.identity_view().0,
            error_text(e) == msg@,
    {
        Error::Other(WrappedError::new(msg))
    }

    /// The message, as Go prints the error.
    pub fn to_string(&self) -> (s: String)
        ensures
            s@ == error_text(*self),
    {
        match self {
            Error::InvalidBitsTime => "bit length for time must be 32 or more".to_string(),
            Error::InvalidBitsSequence => "invalid bit length for sequence number".to_string(),
            Error::InvalidBitsMachineId => "invalid bit length for machine id".to_string(),
            Error::InvalidTimeUnit => "invalid time unit".to_string(),
            Error::InvalidSequence => "invalid sequence number".to_string(),
            Error::InvalidMachineId => "invalid machine id".to_string(),
            Error::StartTimeAhead => "start time is ahead".to_string(),
            Error::OverTimeLimit => "over the time limit".to_string(),
            Error::NoPrivateAddress => "no private ip address".to_string(),
            Error::Other(w) => w.to_string(),
        }
    }

    /// The wrapped cause of an [`Error::Other`]; nothing for the sentinels.
    pub fn source(&self) -> (c: Option<&MessageError>)
        ensures
            c is Some <==> self is Other,
            c matches Some(m) ==> m.0@ == error_text(*self),
    {
        match self {
            Error::Other(w) => Some(w.cause()),
            _ => None,
        }
    }
}

} // verus!
