//! Stand-ins for the host's interface addresses, giving complete control over
//! what the functions that list them see.

use vstd::prelude::*;
use crate::error::WrappedError;
use crate::gonet::Addr;
use crate::mock::{is_single_private_network, private_network};
use super::error::{error_text, same_error, Error};

verus! {

/// The text of the error the failing stand-in returns.
pub open spec fn failed_to_get_addresses_text() -> Seq<char> {
    "failed to get addresses"@
}

/// The name of the sentinel error the failing stand-in returns.
pub open spec fn failed_to_get_addresses_name() -> Seq<char> {
    "mock.ErrFailedToGetAddresses"@
}

/// Whether `e` is Go's `mock.ErrFailedToGetAddresses`: the sentinel of that
/// name, with that text.
pub open spec fn is_failed_to_get_addresses(e: Error) -> bool {
    &&& e matches Error::Other(w) && w.identity_view() == (true, failed_to_get_addresses_name())
    &&& error_text(e) == failed_to_get_addresses_text()
}

/// `mock.ErrFailedToGetAddresses` is one error: any two values of it are the
/// same error under `==`.
pub proof fn lemma_failed_to_get_addresses_is_one_error(a: Error, b: Error)
    requires
        is_failed_to_get_addresses(a),
        is_failed_to_get_addresses(b),
    ensures
        same_error(a, b),
{
}

/// Go's `mock.ErrFailedToGetAddresses`: every call gives the same error, equal
/// to the one the failing stand-in returns.
pub fn err_failed_to_get_addresses() -> (e: Error)
    ensures
        is_failed_to_get_addresses(e),
{
    Error::Other(WrappedError::named("mock.ErrFailedToGetAddresses", "failed to get addresses"))
}

/// Lists a single private IP address.
pub fn new_successful_interface_addrs() -> (f: impl Fn() -> Result<Vec<Addr>, Error>)
    ensures
        call_requires(f, ()),
        forall|r: Result<Vec<Addr>, Error>|
            call_ensures(f, (), r) ==> (r matches Ok(v) && is_single_private_network(v@)),
{
    || -> (r: Result<Vec<Addr>, Error>)
        ensures
            r matches Ok(v) && is_single_private_network(v@),
        { Ok(private_network()) }
}

/// Fails with [`err_failed_to_get_addresses`] on every call.
pub fn new_failing_interface_addrs() -> (f: impl Fn() -> Result<Vec<Addr>, Error>)
    ensures
        call_requires(f, ()),
        forall|r: Result<Vec<Addr>, Error>|
            call_ensures(f, (), r) ==> (r matches Err(e) && is_failed_to_get_addresses(e)),
{
    || -> (r: Result<Vec<Addr>, Error>)
        ensures
            r matches Err(e) && is_failed_to_get_addresses(e),
        { Err(err_failed_to_get_addresses()) }
}

/// Lists no address.
pub fn new_nil_interface_addrs() -> (f: impl Fn() -> Result<Vec<Addr>, Error>)
    ensures
        call_requires(f, ()),
        forall|r: Result<Vec<Addr>, Error>| call_ensures(f, (), r) ==> (r matches Ok(v) && v@.len() == 0),
{
    || -> (r: Result<Vec<Addr>, Error>)
        ensures
            r matches Ok(v) && v@.len() == 0,
        { Ok(Vec::new()) }
}

} // verus!
