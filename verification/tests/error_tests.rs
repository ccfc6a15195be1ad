//! The errors the generator returns: their messages, and Go's `errors.Is`
//! identity, under which a sentinel is always itself and a wrapped error is
//! only the very same value.

use sonyflake::error::{Error, MessageError};
use sonyflake::v2::mock::err_failed_to_get_addresses;
use sonyflake::v2::Error as E;

/// The five package-level `error` variables of the Go implementation.
#[test]
fn messages_match_go() {
    assert_eq!(Error::StartTimeAhead.to_string(), "start time is ahead of now");
    assert_eq!(Error::NoPrivateAddress.to_string(), "no private ip address");
    assert_eq!(Error::OverTimeLimit.to_string(), "over the time limit");
    assert_eq!(Error::InvalidMachineId.to_string(), "invalid machine id");
    assert_eq!(Error::InvalidSequence.to_string(), "invalid sequence number");
}

/// An error renders as the Go message, wrapped ones as their own text.
#[test]
fn debug_renders_like_display() {
    assert_eq!(Error::OverTimeLimit.to_string(), "over the time limit");
    let wrapped = Error::message("boom");
    assert_eq!(wrapped.to_string(), "boom");
}

/// Every value of one sentinel is the same value.
#[test]
fn sentinels_compare_by_variant() {
    assert_eq!(Error::StartTimeAhead, Error::StartTimeAhead);
    assert_eq!(Error::InvalidSequence, Error::InvalidSequence);
    assert_ne!(Error::StartTimeAhead, Error::OverTimeLimit);
    assert_ne!(Error::InvalidMachineId, Error::InvalidSequence);
}

/// A wrapped error equals its clones, never a distinct error with equal text.
#[test]
fn wrapped_errors_compare_by_identity() {
    let one = Error::message("failed to get machine id");
    let same = one.clone();
    let other = Error::message("failed to get machine id");

    assert_eq!(one, same, "a clone shares the underlying value");
    assert_ne!(one, other, "two distinct errors with equal text must not compare equal");

    assert_ne!(one, Error::StartTimeAhead);
    assert_ne!(Error::StartTimeAhead, one);
}

/// `source` exposes a wrapped cause and nothing for the sentinels.
#[test]
fn source_exposes_only_the_wrapped_cause() {
    let wrapped = Error::message("inner");
    assert_eq!(wrapped.source().map(|m| m.to_string()), Some("inner".to_string()));
    assert!(Error::OverTimeLimit.source().is_none());
}

/// The constructors all produce a wrapped error carrying the given text.
#[test]
fn constructors_preserve_the_message() {
    let io = std::io::Error::other("io failed");
    assert_eq!(Error::other(io).to_string(), "io failed");

    assert_eq!(Error::message("plain").to_string(), "plain");
    assert_eq!(MessageError("bare".into()).to_string(), "bare");
}

/// The errors of the second generation have Go's messages too.
#[test]
fn v2_messages_match_go() {
    assert_eq!(E::InvalidBitsTime.to_string(), "bit length for time must be 32 or more");
    assert_eq!(E::InvalidBitsSequence.to_string(), "invalid bit length for sequence number");
    assert_eq!(E::InvalidBitsMachineId.to_string(), "invalid bit length for machine id");
    assert_eq!(E::InvalidTimeUnit.to_string(), "invalid time unit");
    assert_eq!(E::InvalidSequence.to_string(), "invalid sequence number");
    assert_eq!(E::InvalidMachineId.to_string(), "invalid machine id");
    assert_eq!(E::StartTimeAhead.to_string(), "start time is ahead");
    assert_eq!(E::OverTimeLimit.to_string(), "over the time limit");
    assert_eq!(E::NoPrivateAddress.to_string(), "no private ip address");
    let wrapped = E::message("boom");
    assert_eq!(wrapped.to_string(), "boom");
    assert_eq!(wrapped.source().map(|m| m.to_string()), Some("boom".to_string()));
    assert!(E::OverTimeLimit.source().is_none());
    assert_eq!(wrapped, wrapped.clone());
    assert_ne!(wrapped, E::message("boom"));
}

/// A named sentinel is the same error on every call.
#[test]
fn named_sentinel_is_always_itself() {
    assert_eq!(err_failed_to_get_addresses(), err_failed_to_get_addresses());
    assert_eq!(err_failed_to_get_addresses().to_string(), "failed to get addresses");
}

/// `?` on an io error produces a wrapped sonyflake error.
#[test]
fn io_errors_convert() {
    let io = std::io::Error::new(std::io::ErrorKind::NotFound, "missing");
    let converted: Error = io.into();
    assert_eq!(converted.to_string(), "missing");
    assert!(converted.source().is_some());
}

/// `==` is Go's `errors.Is`: a sentinel is itself, a wrapped error is equal
/// to its clones only, and a named sentinel to every value of that name.
#[test]
fn equality_is_identity() {
    let one = Error::message("x");
    assert_eq!(one, one.clone());
    assert_ne!(one, Error::message("x"));
    assert_ne!(Error::message("x"), Error::InvalidSequence);
    let mut seen = Vec::new();
    for _ in 0..3 {
        seen.push(err_failed_to_get_addresses());
    }
    assert!(seen.iter().all(|e| *e == seen[0]));
    let e = E::message("same text");
    assert_ne!(e, E::message("same text"));
    assert_eq!(e.clone(), e);
}
