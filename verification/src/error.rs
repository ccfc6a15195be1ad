//! The errors sonyflake returns.
//!
//! Go compares errors with `errors.Is`, which for the package sentinels is the
//! identity of one value. `==` here does the same (`same_error`): a sentinel
//! variant equals itself, and an error produced by caller-supplied code is
//! carried as an [`Error::Other`] whose [`WrappedError`] has an identity of its
//! own, the name of a sentinel or the address of its message's allocation.
//! Clones share that allocation; errors made separately have allocations of
//! their own while both live.

use std::sync::Arc;
use vstd::prelude::*;

verus! {

/// A bare error message, the equivalent of the value Go's `errors.New` returns.
#[derive(Clone, Debug, PartialEq, Eq)]
pub struct MessageError(pub String);

impl MessageError {
    /// The message.
    pub fn to_string(&self) -> (s: String)
        ensures
            s@ == self.0@,
    {
        self.0.clone()
    }
}

/// What makes two wrapped errors the same error.
#[derive(Clone, Debug)]
pub enum Identity {
    /// The address of the shared allocation that holds the message, which every
    /// clone shares and no other live error has.
    Allocation(String),
    /// A fixed name, for a sentinel that every call returns again.
    Named(String),
}

/// An error raised outside sonyflake, returned unchanged.
#[derive(Clone, Debug)]
pub struct WrappedError {
    message: Arc<MessageError>,
    identity: Identity,
}

/// The address of the allocation behind `a`, as `{:p}` prints it. Nothing is
/// claimed of the text: it depends on where the allocator put the value.
#[verifier::external_body]
fn allocation_address(a: &Arc<MessageError>) -> (r: String) {
    format!("{:p}", *a)
}

impl WrappedError {
    /// The text of the wrapped error.
    pub closed spec fn text(self) -> Seq<char> {
        self.message.0@
    }

    /// What makes the error itself: whether it is a named sentinel, and its
    /// name or the address of its message.
    pub closed spec fn identity_view(self) -> (bool, Seq<char>) {
        match self.identity {
            Identity::Named(n) => (true, n@),
            Identity::Allocation(a) => (false, a@),
        }
    }

    /// Whether two wrapped errors are the same error, as Go's `errors.Is`
    /// compares them: the same sentinel, or the same allocation.
    pub fn is(&self, other: &WrappedError) -> (b: bool)
        ensures
            b == (self.identity_view() == other.identity_view()),
    {
        match (&self.identity, &other.identity) {
            (Identity::Named(a), Identity::Named(b)) => a.eq(b),
            (Identity::Allocation(a), Identity::Allocation(b)) => a.eq(b),
            _ => false,
        }
    }

    /// A new error with its own identity.
    pub fn new(msg: &str) -> (e: WrappedError)
        ensures
            e.text() == msg@,
            !e.identity_view().0,
    {
        let message = Arc::new(MessageError(msg.to_string()));
        let identity = Identity::Allocation(allocation_address(&message));
        WrappedError { message, identity }
    }

    /// A sentinel error: every call with the same `name` gives the same error.
    pub fn named(name: &str, msg: &str) -> (e: WrappedError)
        ensures
            e.text() == msg@,
            e.identity_view() == (true, name@),
    {
        WrappedError { message: Arc::new(MessageError(msg.to_string())), identity: Identity::Named(name.to_string()) }
    }

    /// The wrapped error itself.
    pub fn cause(&self) -> (m: &MessageError)
        ensures
            m.0@ == self.text(),
    {
        &self.message
    }

    /// The text of the wrapped error.
    pub fn to_string(&self) -> (s: String)
        ensures
            s@ == self.text(),
    {
        self.message.0.clone()
    }
}

impl PartialEq for WrappedError {
    fn eq(&self, other: &WrappedError) -> (r: bool) {
        self.is(other)
    }
}

impl vstd::std_specs::cmp::PartialEqSpecImpl for WrappedError {
    open spec fn obeys_eq_spec() -> bool {
        true
    }

    open spec fn eq_spec(&self, other: &WrappedError) -> bool {
        self.identity_view() == other.identity_view()
    }
}

/// Equivalent of the errors sonyflake returns.
#[derive(Clone, Debug)]
pub enum Error {
    /// Go's `ErrStartTimeAhead`.
    StartTimeAhead,
    /// Go's `ErrNoPrivateAddress`.
    NoPrivateAddress,
    /// Go's `ErrOverTimeLimit`.
    OverTimeLimit,
    /// Go's `ErrInvalidMachineID`.
    InvalidMachineId,
    /// Go's `ErrInvalidSequence`.
    InvalidSequence,
    /// An error originating outside sonyflake, returned unchanged.
    Other(WrappedError),
}

/// Whether two errors are the same error, as Go's `errors.Is` compares them:
/// the same sentinel, or wrapped errors that are the same error.
pub open spec fn same_error(a: Error, b: Error) -> bool {
    match (a, b) {
        (Error::Other(x), Error::Other(y)) => x.identity_view() == y.identity_view(),
        (Error::Other(_), _) => false,
        (_, Error::Other(_)) => false,
        _ => a == b,
    }
}

impl PartialEq for Error {
    fn eq(&self, other: &Error) -> (r: bool) {
        match (self, other) {
            (Error::StartTimeAhead, Error::StartTimeAhead) => true,
            (Error::NoPrivateAddress, Error::NoPrivateAddress) => true,
            (Error::OverTimeLimit, Error::OverTimeLimit) => true,
            (Error::InvalidMachineId, Error::InvalidMachineId) => true,
            (Error::InvalidSequence, Error::InvalidSequence) => true,
            (Error::Other(x), Error::Other(y)) => x.is(y),
            _ => false,
        }
    }
}

impl vstd::std_specs::cmp::PartialEqSpecImpl for Error {
    open spec fn obeys_eq_spec() -> bool {
        true
    }

    open spec fn eq_spec(&self, other: &Error) -> bool {
        same_error(*self, *other)
    }
}

/// The message Go gives each error.
pub open spec fn error_text(e: Error) -> Seq<char> {
    match e {
        Error::StartTimeAhead => "start time is ahead of now"@,
        Error::NoPrivateAddress => "no private ip address"@,
        Error::OverTimeLimit => "over the time limit"@,
        Error::InvalidMachineId => "invalid machine id"@,
        Error::InvalidSequence => "invalid sequence number"@,
        Error::Other(w) => w.text(),
    }
}

impl Error {
    /// Wraps an arbitrary error by its message, as Go returns a caller's `error` untouched.
    pub fn other<E: std::error::Error>(err: E) -> (e: Error)
        ensures
            e matches Error::Other(w) && !w.identity_view().0,
            exists|text: String|
                vstd::string::to_string_from_display_ensures::<E>(&err, text) && error_text(e)
                    == text@,
    {
        let text = err.to_string();
        let e = Error::Other(WrappedError::new(text.as_str()));
        assert(vstd::string::to_string_from_display_ensures::<E>(&err, text) && error_text(e) == text@);
        e
    }

    /// Wraps a plain message, the equivalent of Go's `errors.New`: a new error
    /// with an identity of its own.
    pub fn message(msg: &str) -> (e: Error)
        ensures
            e matches Error::Other(w) && !w.identity_view().0,
            error_text(e) == msg@,
    {
        Error::Other(WrappedError::new(msg))
    }

    /// The message, as Go prints the error.
    pub fn to_string(&self) -> (s: String)
        ensures
            s@ == error_text(*self),
    {
        match self {
            Error::StartTimeAhead => "start time is ahead of now".to_string(),
            Error::NoPrivateAddress => "no private ip address".to_string(),
            Error::OverTimeLimit => "over the time limit".to_string(),
            Error::InvalidMachineId => "invalid machine id".to_string(),
            Error::InvalidSequence => "invalid sequence number".to_string(),
            Error::Other(w) => w.to_string(),
        }
    }

    /// The wrapped cause of an [`Error::Other`]; nothing for the sentinels.
    pub fn source(&self) -> (c: Option<&MessageError>)
        ensures
            c is Some <==> self is Other,
            c matches Some(m) ==> m.0@ == error_text(*self),
    {
        match self {
            Error::Other(w) => Some(w.cause()),
            _ => None,
        }
    }
}

/// Whether an error was raised outside sonyflake.
pub open spec fn is_wrapped(e: Error) -> bool {
    e is Other
}

/// `std::io::Error`, carried through as it is.
#[verifier::external_type_specification]
#[verifier::external_body]
pub struct ExIoError(std::io::Error);

/// An I/O error becomes a wrapped error with its own identity and the I/O
/// error's text, as `?` returns it in Go.
impl From<std::io::Error> for Error {
    fn from(err: std::io::Error) -> (e: Error)
        ensures
            e matches Error::Other(w) && !w.identity_view().0,
            exists|text: String|
                vstd::string::to_string_from_display_ensures::<std::io::Error>(&err, text)
                    && error_text(e) == text@,
    {
        Error::other(err)
    }
}

impl vstd::std_specs::convert::FromSpecImpl<std::io::Error> for Error {
    open spec fn obeys_from_spec() -> bool {
        false
    }

    /// Some wrapped error: which one is its allocation's, so `from` promises
    /// nothing through this spec and states what it gives in its own `ensures`.
    open spec fn from_spec(v: std::io::Error) -> Error {
        choose|e: Error| #[trigger] is_wrapped(e)
    }
}

} // verus!
