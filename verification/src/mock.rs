//! Stand-ins for the host's interface addresses, giving complete control over
//! what the functions that list them see.

use vstd::prelude::*;
use crate::error::{error_text, Error};
use crate::gonet::{Addr, Ip, IpNet};

verus! {

/// A single network with the private address 192.168.0.1.
pub open spec fn is_single_private_network(v: Seq<Addr>) -> bool {
    &&& v.len() == 1
    &&& v[0] matches Addr::IpNet(n) && n.ip.0@ == seq![192u8, 168, 0, 1] && n.mask@ == seq![
        255u8,
        0,
        0,
        0,
    ]
}

/// The network with the private address 192.168.0.1.
pub fn private_network() -> (v: Vec<Addr>)
    ensures
        is_single_private_network(v@),
{
    let mut mask: Vec<u8> = Vec::new();
    mask.push(255);
    mask.push(0);
    mask.push(0);
    mask.push(0);
    let mut v: Vec<Addr> = Vec::new();
    v.push(Addr::IpNet(IpNet { ip: Ip::v4(192, 168, 0, 1), mask }));
    assert(v@[0]->IpNet_0.mask@ =~= seq![255u8, 0, 0, 0]);
    v
}

/// Lists a single private IP address.
pub fn new_successful_interface_addrs() -> (f: impl Fn() -> Result<Vec<Addr>, Error>)
    ensures
        call_requires(f, ()),
        forall|r: Result<Vec<Addr>, Error>|
            call_ensures(f, (), r) ==> (r matches Ok(v) && is_single_private_network(v@)),
{
    || -> (r: Result<Vec<Addr>, Error>)
        ensures
            r matches Ok(v) && is_single_private_network(v@),
        { Ok(private_network()) }
}

/// Fails with an error of its own on every call.
pub fn new_failing_interface_addrs() -> (f: impl Fn() -> Result<Vec<Addr>, Error>)
    ensures
        call_requires(f, ()),
        forall|r: Result<Vec<Addr>, Error>|
            call_ensures(f, (), r) ==> (r matches Err(e) && e matches Error::Other(w)
                && !w.identity_view().0 && error_text(e) == "test error"@),
{
    || -> (r: Result<Vec<Addr>, Error>)
        ensures
            r matches Err(e) && e matches Error::Other(w) && !w.identity_view().0 && error_text(e)
                == "test error"@,
        { Err(Error::message("test error")) }
}

/// Lists no address.
pub fn new_nil_interface_addrs() -> (f: impl Fn() -> Result<Vec<Addr>, Error>)
    ensures
        call_requires(f, ()),
        forall|r: Result<Vec<Addr>, Error>| call_ensures(f, (), r) ==> (r matches Ok(v) && v@.len() == 0),
{
    || -> (r: Result<Vec<Addr>, Error>)
        ensures
            r matches Ok(v) && v@.len() == 0,
        { Ok(Vec::new()) }
}

} // verus!
