//! Sonyflake, a distributed unique ID generator inspired by Twitter's Snowflake.
//!
//! A Sonyflake ID is composed of
//!
//! ```text
//! 39 bits for time in units of 10 msec
//!  8 bits for a sequence number
//! 16 bits for a machine id
//! ```
//!
//! The crate root is the first generation of the generator; [`v2`] is the
//! second, whose bit lengths and time unit are configurable.

use vstd::prelude::*;

pub mod error;
pub mod gonet;
pub mod gotime;
pub mod mock;
pub mod text;
pub mod v2;

use crate::error::Error;
use crate::gonet::{is_loopback_bytes, to4_bytes, Addr, Ip};
use crate::gotime::{Duration, Time};
use crate::text::{chars_less, keys_ascending, lemma_chars_less_at, push_char, push_decimal, decimal};

verus! {

/// Bit length of time.
pub const BIT_LEN_TIME: u32 = 39;

/// Bit length of sequence number.
pub const BIT_LEN_SEQUENCE: u32 = 8;

/// Bit length of machine id.
pub const BIT_LEN_MACHINE_ID: u32 = 63 - BIT_LEN_TIME - BIT_LEN_SEQUENCE;

/// The Sonyflake time unit in nanoseconds, i.e. 10 msec.
pub const SONYFLAKE_TIME_UNIT: i64 = 10_000_000;


// ---------------------------------------------------------------------------
// The bit layout of an ID
// ---------------------------------------------------------------------------

/// 2 to the 24, the weight of the time part of an ID.
pub open spec fn pow2_24() -> int {
    16_777_216
}

/// 2 to the 16, the weight of the sequence part of an ID.
pub open spec fn pow2_16() -> int {
    65_536
}

/// 2 to the 39, the first time part that no longer fits.
pub open spec fn pow2_39() -> int {
    549_755_813_888
}

/// The ID made of an elapsed time, a sequence number and a machine ID.
pub open spec fn id_of(elapsed: int, sequence: int, machine: int) -> int {
    elapsed * pow2_24() + sequence * pow2_16() + machine
}

/// The time part of an ID.
pub open spec fn time_part(id: int) -> int {
    id / pow2_24()
}

/// The sequence part of an ID.
pub open spec fn sequence_part(id: int) -> int {
    (id / pow2_16()) % 256
}

/// The machine part of an ID.
pub open spec fn machine_part(id: int) -> int {
    id % pow2_16()
}

/// The most significant bit of an ID.
pub open spec fn msb_part(id: int) -> int {
    id / 0x8000_0000_0000_0000
}

proof fn lemma_pack(e: u64, s: u64, m: u64)
    requires
        e < 0x80_0000_0000,
        s < 256,
        m < 0x1_0000,
    ensures
        (e << 24u64) | (s << 16u64) | m == e * 16_777_216 + s * 65_536 + m,
        e * 16_777_216 + s * 65_536 + m < 0x8000_0000_0000_0000,
{
    assert((e << 24u64) | (s << 16u64) | m == e * 16_777_216 + s * 65_536 + m
        && e * 16_777_216 + s * 65_536 + m < 0x8000_0000_0000_0000) by (bit_vector)
        requires
            e < 0x80_0000_0000,
            s < 256,
            m < 0x1_0000,
    ;
}

proof fn lemma_unpack(id: u64)
    ensures
        id >> 24u64 == id / 16_777_216,
        (id & (0xffu64 << 16u64)) >> 16u64 == (id / 65_536) % 256,
        id & 0xffffu64 == id % 65_536,
        id >> 63u64 == id / 0x8000_0000_0000_0000,
{
    assert(id >> 24u64 == id / 16_777_216) by (bit_vector);
    assert((id & (0xffu64 << 16u64)) >> 16u64 == (id / 65_536) % 256) by (bit_vector);
    assert(id & 0xffffu64 == id % 65_536) by (bit_vector);
    assert(id >> 63u64 == id / 0x8000_0000_0000_0000) by (bit_vector);
}

/// An ID gives back the elapsed time, sequence number and machine ID it was
/// made of, and its most significant bit is clear.
pub proof fn lemma_parts_of_id(elapsed: int, sequence: int, machine: int)
    requires
        0 <= elapsed < pow2_39(),
        0 <= sequence < 256,
        0 <= machine < pow2_16(),
    ensures
        time_part(id_of(elapsed, sequence, machine)) == elapsed,
        sequence_part(id_of(elapsed, sequence, machine)) == sequence,
        machine_part(id_of(elapsed, sequence, machine)) == machine,
        msb_part(id_of(elapsed, sequence, machine)) == 0,
        0 <= id_of(elapsed, sequence, machine) < 0x8000_0000_0000_0000,
{
    let id = id_of(elapsed, sequence, machine);
    assert(id == (elapsed * 256 + sequence) * pow2_16() + machine);
    assert((elapsed * 256 + sequence) * pow2_16() <= id < (elapsed * 256 + sequence + 1)
        * pow2_16()) by (nonlinear_arith)
        requires
            id == (elapsed * 256 + sequence) * pow2_16() + machine,
            0 <= machine < pow2_16(),
    ;
    vstd::arithmetic::div_mod::lemma_fundamental_div_mod_converse(
        id,
        pow2_16(),
        elapsed * 256 + sequence,
        machine,
    );
    vstd::arithmetic::div_mod::lemma_fundamental_div_mod_converse(
        elapsed * 256 + sequence,
        256,
        elapsed,
        sequence,
    );
    assert(id == elapsed * pow2_24() + (sequence * pow2_16() + machine));
    assert(0 <= sequence * pow2_16() + machine < pow2_24()) by (nonlinear_arith)
        requires
            0 <= sequence < 256,
            0 <= machine < pow2_16(),
    ;
    vstd::arithmetic::div_mod::lemma_fundamental_div_mod_converse(
        id,
        pow2_24(),
        elapsed,
        sequence * pow2_16() + machine,
    );
    assert(id < 0x8000_0000_0000_0000) by (nonlinear_arith)
        requires
            id == elapsed * pow2_24() + (sequence * pow2_16() + machine),
            0 <= elapsed < pow2_39(),
            0 <= sequence * pow2_16() + machine < pow2_24(),
    ;
}

/// Two IDs made of parts within their bit lengths are equal only when all
/// their parts are.
pub proof fn lemma_id_injective(e1: int, s1: int, m1: int, e2: int, s2: int, m2: int)
    requires
        0 <= e1 < pow2_39(),
        0 <= s1 < 256,
        0 <= m1 < pow2_16(),
        0 <= e2 < pow2_39(),
        0 <= s2 < 256,
        0 <= m2 < pow2_16(),
        id_of(e1, s1, m1) == id_of(e2, s2, m2),
    ensures
        e1 == e2 && s1 == s2 && m1 == m2,
{
    lemma_parts_of_id(e1, s1, m1);
    lemma_parts_of_id(e2, s2, m2);
}

/// Packs the parts into an ID.
fn pack(elapsed: i64, sequence: u16, machine_id: u16) -> (id: u64)
    requires
        0 <= elapsed < pow2_39(),
        sequence < 256,
    ensures
        id == id_of(elapsed as int, sequence as int, machine_id as int),
        id < 0x8000_0000_0000_0000,
{
    let e = elapsed as u64;
    let s = sequence as u64;
    let m = machine_id as u64;
    proof {
        lemma_pack(e, s, m);
    }
    (e << (BIT_LEN_SEQUENCE + BIT_LEN_MACHINE_ID) as u64) | (s << BIT_LEN_MACHINE_ID as u64) | m
}

// ---------------------------------------------------------------------------
// Reading an ID
// ---------------------------------------------------------------------------

/// Returns the time part of an ID: the time units elapsed since the start time.
pub fn elapsed_time_part(id: u64) -> (t: u64)
    ensures
        t == time_part(id as int),
{
    proof {
        lemma_unpack(id);
    }
    id >> (BIT_LEN_SEQUENCE + BIT_LEN_MACHINE_ID) as u64
}

/// Reinterprets the bits of a `u64` as an `i64`.
fn u64_bits_as_i64(x: u64) -> (r: i64)
    ensures
        r == gotime::wrap_i64(x as int),
{
    if x <= 9_223_372_036_854_775_807 {
        x as i64
    } else {
        ((x - 9_223_372_036_854_775_808u64) as i64) - 9_223_372_036_854_775_807 - 1
    }
}

/// Returns the elapsed time when the given ID was generated: its time part in
/// nanoseconds, wrapped into `i64` as Go converts a `uint64` product.
pub fn elapsed_time(id: u64) -> (d: Duration)
    ensures
        d.0 == gotime::wrap_i64(time_part(id as int) * SONYFLAKE_TIME_UNIT),
{
    let part = elapsed_time_part(id);
    assert(part < 0x100_0000_0000) by {
        assert(id as int / 16_777_216 < 0x100_0000_0000);
    }
    Duration(u64_bits_as_i64(part * 10_000_000))
}

/// Returns the sequence number of an ID.
pub fn sequence_number(id: u64) -> (s: u64)
    ensures
        s == sequence_part(id as int),
{
    proof {
        lemma_unpack(id);
    }
    let mask_sequence: u64 = 0xffu64 << BIT_LEN_MACHINE_ID as u64;
    (id & mask_sequence) >> BIT_LEN_MACHINE_ID as u64
}

/// Returns the machine ID of an ID.
pub fn machine_id(id: u64) -> (m: u64)
    ensures
        m == machine_part(id as int),
{
    proof {
        lemma_unpack(id);
    }
    let mask_machine_id: u64 = 0xffff;
    id & mask_machine_id
}

/// The parts of an ID, as Go's `Decompose` returns them in a map.
#[derive(Clone, Copy, Debug, PartialEq, Eq, Structural)]
pub struct IdParts {
    pub id: u64,
    pub msb: u64,
    pub time: u64,
    pub sequence: u64,
    pub machine_id: u64,
}

/// Returns the parts of an ID.
pub fn decompose(id: u64) -> (p: IdParts)
    ensures
        p.id == id,
        p.msb == msb_part(id as int),
        p.time == time_part(id as int),
        p.sequence == sequence_part(id as int),
        p.machine_id == machine_part(id as int),
{
    proof {
        lemma_unpack(id);
    }
    IdParts {
        id,
        msb: id >> 63u64,
        time: elapsed_time_part(id),
        sequence: sequence_number(id),
        machine_id: machine_id(id),
    }
}

/// `key:value` for one entry of a parts map.
pub open spec fn entry_text(e: (String, u64)) -> Seq<char> {
    e.0@ + seq![':'] + decimal(e.1 as nat)
}

/// The entries joined by single spaces.
pub open spec fn entries_text(e: Seq<(String, u64)>) -> Seq<char>
    decreases e.len(),
{
    if e.len() == 0 {
        Seq::empty()
    } else if e.len() == 1 {
        entry_text(e[0])
    } else {
        entries_text(e.drop_last()) + seq![' '] + entry_text(e.last())
    }
}

/// Go's `fmt` rendering of a `map[string]uint64` whose entries, in key
/// order, are `e`: `map[k1:v1 k2:v2 ...]`.
pub open spec fn map_text(e: Seq<(String, u64)>) -> Seq<char> {
    "map["@ + entries_text(e) + "]"@
}

impl IdParts {
    /// The parts as the entries of Go's `Decompose` map, in key order:
    /// `id`, `machine-id`, `msb`, `sequence`, `time`.
    pub fn entries(&self) -> (e: Vec<(String, u64)>)
        ensures
            e@.len() == 5,
            e@[0].0@ == "id"@ && e@[0].1 == self.id,
            e@[1].0@ == "machine-id"@ && e@[1].1 == self.machine_id,
            e@[2].0@ == "msb"@ && e@[2].1 == self.msb,
            e@[3].0@ == "sequence"@ && e@[3].1 == self.sequence,
            e@[4].0@ == "time"@ && e@[4].1 == self.time,
            keys_ascending(e@),
    {
        let mut e: Vec<(String, u64)> = Vec::new();
        e.push(("id".to_string(), self.id));
        e.push(("machine-id".to_string(), self.machine_id));
        e.push(("msb".to_string(), self.msb));
        e.push(("sequence".to_string(), self.sequence));
        e.push(("time".to_string(), self.time));
        proof {
            reveal_strlit("id");
            reveal_strlit("machine-id");
            reveal_strlit("msb");
            reveal_strlit("sequence");
            reveal_strlit("time");
            let k = e@;
            assert forall|i: int, j: int| 0 <= i < j < k.len() implies chars_less(
                #[trigger] k[i].0@,
                #[trigger] k[j].0@,
            ) by {
                if i == 1 && j == 2 {
                    assert(k[i].0@.take(1) =~= k[j].0@.take(1));
                    lemma_chars_less_at(k[i].0@, k[j].0@, 1);
                } else {
                    assert(k[i].0@.take(0) =~= k[j].0@.take(0));
                    lemma_chars_less_at(k[i].0@, k[j].0@, 0);
                }
            }
        }
        e
    }
}

/// Renders a parts map, given as its entries in key order, the way Go's
/// `fmt` prints a `map[string]uint64`.
pub fn format_decomposed(parts: &Vec<(String, u64)>) -> (s: String)
    requires
        keys_ascending(parts@),
    ensures
        s@ == map_text(parts@),
{
    let mut s = String::new();
    text::push_str(&mut s, "map[");
    let mut i: usize = 0;
    while i < parts.len()
        invariant
            i <= parts.len(),
            s@ == "map["@ + entries_text(parts@.take(i as int)),
        decreases parts.len() - i,
    {
        let ghost before = s@;
        if i > 0 {
            push_char(&mut s, ' ');
        }
        let entry = &parts[i];
        text::push_str(&mut s, entry.0.as_str());
        push_char(&mut s, ':');
        push_decimal(&mut s, entry.1);
        proof {
            let next = parts@.take(i + 1);
            assert(next.drop_last() =~= parts@.take(i as int));
            assert(next.last() == parts@[i as int]);
            if i == 0 {
                assert(s@ =~= "map["@ + entries_text(next));
            } else {
                assert(s@ =~= "map["@ + entries_text(next));
            }
        }
        i = i + 1;
    }
    text::push_str(&mut s, "]");
    assert(parts@.take(parts.len() as int) =~= parts@);
    s
}

// ---------------------------------------------------------------------------
// Sonyflake time
// ---------------------------------------------------------------------------

/// The largest magnitude of a Sonyflake time: `i64::MAX` nanoseconds in units
/// of 10 msec.
pub open spec fn max_units() -> int {
    922_337_203_685
}

/// Sonyflake time of an instant: its Unix nanoseconds (wrapped as Go's
/// `UnixNano`) in units of 10 msec, rounded toward zero.
pub open spec fn sonyflake_time(t: Time) -> int {
    units_of_nanos(t.total_nanos())
}

/// Sonyflake time of an instant given in nanoseconds since the Unix epoch.
pub open spec fn units_of_nanos(n: int) -> int {
    gotime::truncated_div(gotime::wrap_i64(n) as int, SONYFLAKE_TIME_UNIT as int)
}

/// Returns the Sonyflake time of an instant.
pub fn to_sonyflake_time(t: Time) -> (r: i64)
    ensures
        r == sonyflake_time(t),
        -max_units() <= r <= max_units(),
{
    let n = gotime::unix_nano(t);
    match n.checked_div(SONYFLAKE_TIME_UNIT) {
        Some(q) => q,
        None => 0,
    }
}

/// Returns the Sonyflake time elapsed since `start_time` at the current time.
pub fn current_elapsed_time(start_time: i64) -> (r: i64)
    requires
        -max_units() <= start_time <= max_units(),
    ensures
        -2 * max_units() <= r <= 2 * max_units(),
        exists|now: Time| now.seconds() >= 0 && r == sonyflake_time(now) - start_time,
{
    let now = gotime::now();
    to_sonyflake_time(now) - start_time
}

/// How long to wait, at instant `now`, until the time unit `overtime` units
/// ahead of the current one begins.
pub open spec fn sleep_time_spec(overtime: int, now: Time) -> int {
    gotime::wrap_i64(
        gotime::wrap_i64(overtime * SONYFLAKE_TIME_UNIT) - gotime::truncated_rem(
            gotime::wrap_i64(now.total_nanos()) as int,
            SONYFLAKE_TIME_UNIT as int,
        ),
    ) as int
}

/// How long to wait, at instant `now`, for the `overtime` time units ahead.
pub fn sleep_time_at(overtime: i64, now: Time) -> (d: Duration)
    ensures
        d.0 == sleep_time_spec(overtime as int, now),
{
    let rem = match gotime::unix_nano(now).checked_rem(SONYFLAKE_TIME_UNIT) {
        Some(r) => r,
        None => 0,
    };
    Duration(overtime.wrapping_mul(SONYFLAKE_TIME_UNIT)) - Duration(rem)
}

/// How long to wait now for the `overtime` time units ahead.
pub fn sleep_time(overtime: i64) -> (d: Duration)
    ensures
        exists|now: Time| d.0 == sleep_time_spec(overtime as int, now),
{
    let now = gotime::now();
    sleep_time_at(overtime, now)
}

// ---------------------------------------------------------------------------
// The machine ID from the host's private address
// ---------------------------------------------------------------------------

/// A private (RFC 1918) or link-local (RFC 3927) IPv4 address.
pub open spec fn private_v4(b: Seq<u8>) -> bool {
    ||| b[0] == 10
    ||| b[0] == 172 && 16 <= b[1] < 32
    ||| b[0] == 192 && b[1] == 168
    ||| b[0] == 169 && b[1] == 254
}

/// The private IPv4 address an interface address contributes: one of a
/// network that is not loopback.
pub open spec fn private_candidate(a: Addr) -> Option<Seq<u8>> {
    match a {
        Addr::IpNet(n) => if is_loopback_bytes(n.ip.0@) {
            None
        } else {
            match to4_bytes(n.ip.0@) {
                Some(v) => if private_v4(v) {
                    Some(v)
                } else {
                    None
                },
                None => None,
            }
        },
        Addr::IpAddr(_) => None,
    }
}

/// The first private IPv4 address among the interface addresses.
pub open spec fn first_private_ipv4(addrs: Seq<Addr>) -> Option<Seq<u8>>
    decreases addrs.len(),
{
    if addrs.len() == 0 {
        None
    } else {
        match private_candidate(addrs[0]) {
            Some(v) => Some(v),
            None => first_private_ipv4(addrs.drop_first()),
        }
    }
}

/// What `private_ipv4` answers to the interface addresses: the first private
/// IPv4 address, `NoPrivateAddress` without one, the error of a failed listing.
pub open spec fn private_ipv4_result(addrs: Result<Vec<Addr>, Error>) -> Result<Seq<u8>, Error> {
    match addrs {
        Err(e) => Err(e),
        Ok(v) => match first_private_ipv4(v@) {
            Some(b) => Ok(b),
            None => Err(Error::NoPrivateAddress),
        },
    }
}

/// The bytes of the address a result holds, or its error.
pub open spec fn ip_result_bytes(r: Result<Ip, Error>) -> Result<Seq<u8>, Error> {
    match r {
        Ok(ip) => Ok(ip.0@),
        Err(e) => Err(e),
    }
}

/// Whether an address is a private IPv4 address; nothing is not.
pub fn is_private_ipv4(ip: Option<&Ip>) -> (r: bool)
    requires
        ip matches Some(ip) ==> ip.0@.len() >= 2,
    ensures
        r == match ip {
            None => false,
            Some(ip) => private_v4(ip.0@),
        },
{
    match ip {
        None => false,
        Some(ip) => {
            let b = ip.as_bytes();
            b[0] == 10 || b[0] == 172 && (b[1] >= 16 && b[1] < 32) || b[0] == 192 && b[1] == 168
                || b[0] == 169 && b[1] == 254
        },
    }
}

/// The first private IPv4 address among the interface addresses.
pub fn first_private_address(addrs: &Vec<Addr>) -> (r: Option<Ip>)
    ensures
        gonet::ip_bytes(r) == first_private_ipv4(addrs@),
{
    let mut i: usize = 0;
    assert(addrs@.skip(0) =~= addrs@);
    while i < addrs.len()
        invariant
            i <= addrs.len(),
            first_private_ipv4(addrs@) == first_private_ipv4(addrs@.skip(i as int)),
        decreases addrs.len() - i,
    {
        assert(addrs@.skip(i as int).drop_first() =~= addrs@.skip(i + 1));
        assert(addrs@.skip(i as int)[0] == addrs@[i as int]);
        match addrs[i].as_ip_net() {
            Some(ipnet) => {
                if !ipnet.ip.is_loopback() {
                    let ip = ipnet.ip.to4();
                    proof {
                        if ip is Some {
                            assert(ip.unwrap().0@.len() == 4) by {
                                if ipnet.ip.0@.len() == 16 {
                                    assert(ipnet.ip.0@.subrange(12, 16).len() == 4);
                                }
                            }
                        }
                    }
                    if is_private_ipv4(ip.as_ref()) {
                        return ip;
                    }
                }
            },
            None => {},
        }
        i = i + 1;
    }
    None
}

/// The first private IPv4 address among the interface addresses, or
/// `NoPrivateAddress`.
pub fn select_private_ipv4(addrs: &Vec<Addr>) -> (r: Result<Ip, Error>)
    ensures
        ip_result_bytes(r) == private_ipv4_result(Ok(*addrs)),
{
    match first_private_address(addrs) {
        Some(ip) => Ok(ip),
        None => Err(Error::NoPrivateAddress),
    }
}

/// Go's `privateIPv4`: lists the interface addresses and picks the first
/// private IPv4 address.
pub fn private_ipv4<F: Fn() -> Result<Vec<Addr>, Error>>(interface_addrs: &F) -> (r: Result<
    Ip,
    Error,
>)
    requires
        call_requires(*interface_addrs, ()),
    ensures
        exists|a: Result<Vec<Addr>, Error>|
            call_ensures(*interface_addrs, (), a) && ip_result_bytes(r) == private_ipv4_result(a),
{
    let listed = interface_addrs();
    let ghost g = listed;
    let r = match listed {
        Ok(addrs) => select_private_ipv4(&addrs),
        Err(e) => Err(e),
    };
    assert(call_ensures(*interface_addrs, (), g) && ip_result_bytes(r) == private_ipv4_result(g));
    r
}

/// The lower 16 bits of a 4-byte address.
pub open spec fn lower16(b: Seq<u8>) -> int {
    b[2] * 256 + b[3]
}

/// What `lower16_bit_private_ip` answers to the interface addresses.
pub open spec fn lower16_result(addrs: Result<Vec<Addr>, Error>) -> Result<u16, Error> {
    match private_ipv4_result(addrs) {
        Ok(b) => Ok(lower16(b) as u16),
        Err(e) => Err(e),
    }
}

pub proof fn lemma_first_private_is_v4(addrs: Seq<Addr>)
    ensures
        first_private_ipv4(addrs) matches Some(b) ==> b.len() == 4,
    decreases addrs.len(),
{
    if addrs.len() > 0 {
        lemma_first_private_is_v4(addrs.drop_first());
        if let Addr::IpNet(n) = addrs[0] {
            if n.ip.0@.len() == 16 {
                assert(n.ip.0@.subrange(12, 16).len() == 4);
            }
        }
    }
}

/// Go's `lower16BitPrivateIP`: the lower 16 bits of the first private IPv4 address.
pub fn lower16_bit_private_ip<F: Fn() -> Result<Vec<Addr>, Error>>(interface_addrs: &F) -> (r:
    Result<u16, Error>)
    requires
        call_requires(*interface_addrs, ()),
    ensures
        exists|a: Result<Vec<Addr>, Error>|
            call_ensures(*interface_addrs, (), a) && r == lower16_result(a),
{
    let ip = private_ipv4(interface_addrs);
    let ghost a = choose|a: Result<Vec<Addr>, Error>|
        call_ensures(*interface_addrs, (), a) && ip_result_bytes(ip) == private_ipv4_result(a);
    match ip {
        Ok(ip) => {
            proof {
                if let Ok(v) = a {
                    lemma_first_private_is_v4(v@);
                }
            }
            let b = ip.as_bytes();
            let hi = b[2] as u16;
            let lo = b[3] as u16;
            assert(hi << 8u16 == hi * 256) by (bit_vector)
                requires
                    hi < 256,
            ;
            let r = (hi << 8u16) + lo;
            assert(Ok::<u16, Error>(r) == lower16_result(a));
            Ok(r)
        },
        Err(e) => {
            assert(Err::<u16, Error>(e) == lower16_result(a));
            Err(e)
        },
    }
}


// ---------------------------------------------------------------------------
// The generator
// ---------------------------------------------------------------------------

/// Configures [`Sonyflake`].
///
/// `start_time` is the time since which the Sonyflake time is defined as the
/// elapsed time. If `start_time` is `None`, the start time of the Sonyflake is
/// "2014-09-01 00:00:00 +0000 UTC". If `start_time` is ahead of the current
/// time, Sonyflake is not created.
///
/// `machine_id` returns the unique ID of the Sonyflake instance. If `machine_id`
/// returns an error, Sonyflake is not created. If `machine_id` is `None`, the
/// machine ID is the lower 16 bits of the host's private IP address.
///
/// `check_machine_id` validates the uniqueness of the machine ID. If
/// `check_machine_id` returns false, Sonyflake is not created. If
/// `check_machine_id` is `None`, no validation is done.
pub struct Settings<M, C> {
    pub start_time: Option<Time>,
    pub machine_id: Option<M>,
    pub check_machine_id: Option<C>,
}

impl<M, C> Default for Settings<M, C> {
    fn default() -> (s: Self)
        ensures
            s.start_time is None,
            s.machine_id is None,
            s.check_machine_id is None,
    {
        Settings { start_time: None, machine_id: None, check_machine_id: None }
    }
}

/// The Sonyflake time of the default start time, 2014-09-01 00:00:00 UTC.
pub open spec fn default_start_units() -> int {
    units_of_nanos(gotime::utc_civil_seconds(2014, 9, 1, 0, 0, 0).unwrap() * gotime::nanos_per_second())
}

/// Whether a given start time is later than `now`.
pub open spec fn starts_after(start_time: Option<Time>, now: Time) -> bool {
    match start_time {
        Some(t) => t.total_nanos() > now.total_nanos(),
        None => false,
    }
}

/// The Sonyflake time the generator counts from.
pub open spec fn start_units(start_time: Option<Time>) -> int {
    match start_time {
        Some(t) => sonyflake_time(t),
        None => default_start_units(),
    }
}

/// Whether `r` is a machine ID the machine-ID source can give: what the
/// callback returns, or the lower 16 bits of the host's private address.
#[verifier::opaque]
pub open spec fn machine_id_outcome<M: Fn() -> Result<u16, Error>, F: Fn() -> Result<Vec<Addr>, Error>>(
    source: Option<M>,
    interface_addrs: F,
    r: Result<u16, Error>,
) -> bool {
    match source {
        Some(m) => call_ensures(m, (), r),
        None => exists|a: Result<Vec<Addr>, Error>|
            call_ensures(interface_addrs, (), a) && r == lower16_result(a),
    }
}

/// Whether `ok` is what the uniqueness check can say of `id`.
#[verifier::opaque]
pub open spec fn check_outcome<C: Fn(u16) -> bool>(check: Option<C>, id: u16, ok: bool) -> bool {
    match check {
        Some(c) => call_ensures(c, (id,), ok),
        None => ok,
    }
}

/// What `new` answers once the uniqueness check has said `ok` of machine ID `id`.
pub open spec fn outcome_with_check(ok: bool, id: u16, start: int, r: Result<Sonyflake, Error>) -> bool {
    if ok {
        r matches Ok(sf) && sf.wf() && sf.start() == start && sf.elapsed() == 0 && sf.seq() == 255
            && sf.machine() == id
    } else {
        r == Err::<Sonyflake, Error>(Error::InvalidMachineId)
    }
}

/// What `new` answers once the machine-ID source has given `mid`: its error,
/// or the answer to what the uniqueness check can say.
pub open spec fn outcome_with_machine_id<C: Fn(u16) -> bool>(
    check: Option<C>,
    mid: Result<u16, Error>,
    start: int,
    r: Result<Sonyflake, Error>,
) -> bool {
    match mid {
        Err(e) => r == Err::<Sonyflake, Error>(e),
        Ok(id) => exists|ok: bool| check_outcome(check, id, ok) && outcome_with_check(ok, id, start, r),
    }
}

/// What `new` answers to the settings at instant `now`, the host's addresses
/// being listed by `interface_addrs`: `StartTimeAhead` for a start time after
/// `now`, else what the machine-ID source and the uniqueness check lead to.
pub open spec fn new_outcome<M, C, F>(
    st: Settings<M, C>,
    now: Time,
    interface_addrs: F,
    r: Result<Sonyflake, Error>,
) -> bool where
    M: Fn() -> Result<u16, Error>,
    C: Fn(u16) -> bool,
    F: Fn() -> Result<Vec<Addr>, Error>,
 {
    if starts_after(st.start_time, now) {
        r == Err::<Sonyflake, Error>(Error::StartTimeAhead)
    } else {
        exists|mid: Result<u16, Error>|
            machine_id_outcome(st.machine_id, interface_addrs, mid) && outcome_with_machine_id(
                st.check_machine_id,
                mid,
                start_units(st.start_time),
                r,
            )
    }
}

/// A distributed unique ID generator: the time its IDs count from, the time
/// and sequence number of the last ID, and its machine ID.
pub struct Sonyflake {
    start_time: i64,
    elapsed_time: i64,
    sequence: u16,
    machine_id: u16,
}

/// The result of the ID that a generator state stands for.
pub open spec fn id_result(elapsed: int, sequence: int, machine: int) -> Result<u64, Error> {
    if elapsed >= pow2_39() {
        Err(Error::OverTimeLimit)
    } else {
        Ok(id_of(elapsed, sequence, machine) as u64)
    }
}

/// How a generator moves on when asked for an ID at Sonyflake time `current`
/// since its start: to the current time with a fresh sequence, or to the next
/// sequence number, and to the next time unit when the sequence runs out.
pub open spec fn advance(elapsed: int, sequence: int, current: int) -> (int, int) {
    if elapsed < current {
        (current, 0)
    } else if (sequence + 1) % 256 == 0 {
        (elapsed + 1, 0)
    } else {
        (elapsed, (sequence + 1) % 256)
    }
}

/// Bound on the elapsed time below which a generator can still move on.
pub open spec fn elapsed_limit() -> int {
    0x4000_0000_0000_0000
}

/// One step of `next_id`: the ID, and how many time units ahead of the current
/// time it was stamped when the sequence ran out.
pub struct Step {
    pub id: Result<u64, Error>,
    pub overtime: Option<i64>,
}

/// An ID handed out by `next_id`, and how long to wait before using it when it
/// was stamped ahead of the clock.
pub struct Generated {
    pub id: Result<u64, Error>,
    pub sleep: Option<Duration>,
}

impl Sonyflake {
    #[verifier::type_invariant]
    spec fn inv(self) -> bool {
        &&& self.sequence < 256
        &&& 0 <= self.elapsed_time
        &&& -max_units() <= self.start_time <= max_units()
    }

    /// The Sonyflake time the generator counts from.
    pub closed spec fn start(self) -> int {
        self.start_time as int
    }

    /// The time part of the last ID.
    pub closed spec fn elapsed(self) -> int {
        self.elapsed_time as int
    }

    /// The sequence number of the last ID.
    pub closed spec fn seq(self) -> int {
        self.sequence as int
    }

    /// The machine ID.
    pub closed spec fn machine(self) -> int {
        self.machine_id as int
    }

    /// The generator state is within range.
    pub closed spec fn wf(self) -> bool {
        self.inv()
    }

    /// Returns a new Sonyflake configured with the given settings, the time
    /// being `now`; `interface_addrs` lists the host's addresses for the
    /// default machine ID.
    ///
    /// Returns an error in the following cases:
    /// - `settings.start_time` is ahead of `now`.
    /// - `settings.machine_id` returns an error.
    /// - `settings.check_machine_id` returns false.
    pub fn new_at<M, C, F>(st: Settings<M, C>, now: Time, interface_addrs: &F) -> (r: Result<
        Sonyflake,
        Error,
    >) where M: Fn() -> Result<u16, Error>, C: Fn(u16) -> bool, F: Fn() -> Result<Vec<Addr>, Error>
        requires
            st.machine_id matches Some(m) ==> call_requires(m, ()),
            st.check_machine_id matches Some(c) ==> forall|id: u16| call_requires(c, (id,)),
            call_requires(*interface_addrs, ()),
        ensures
            new_outcome(st, now, *interface_addrs, r),
    {
        if let Some(start_time) = st.start_time {
            if gotime::after(start_time, now) {
                return Err(Error::StartTimeAhead);
            }
        }
        let start_time = match st.start_time {
            None => to_sonyflake_time(default_start_time()),
            Some(t) => to_sonyflake_time(t),
        };
        let ghost start = start_units(st.start_time);
        let machine_id = obtain_machine_id(&st.machine_id, interface_addrs);
        let ghost mid = machine_id;
        let machine_id = match machine_id {
            Ok(id) => id,
            Err(e) => {
                let r = Err(e);
                assert(outcome_with_machine_id(st.check_machine_id, mid, start, r));
                return r;
            },
        };
        let ok = check_machine_id(&st.check_machine_id, machine_id);
        let r = if !ok {
            Err(Error::InvalidMachineId)
        } else {
            Ok(Sonyflake { start_time, elapsed_time: 0, sequence: 255, machine_id })
        };
        assert(outcome_with_check(ok, machine_id, start, r));
        assert(outcome_with_machine_id(st.check_machine_id, mid, start, r));
        r
    }

    /// Returns a new Sonyflake configured with the given settings, as of the
    /// current time; `interface_addrs` lists the host's addresses for the
    /// default machine ID.
    pub fn new<M, C, F>(st: Settings<M, C>, interface_addrs: &F) -> (r: Result<Sonyflake, Error>) where
        M: Fn() -> Result<u16, Error>,
        C: Fn(u16) -> bool,
        F: Fn() -> Result<Vec<Addr>, Error>,

        requires
            st.machine_id matches Some(m) ==> call_requires(m, ()),
            st.check_machine_id matches Some(c) ==> forall|id: u16| call_requires(c, (id,)),
            call_requires(*interface_addrs, ()),
        ensures
            exists|now: Time| now.seconds() >= 0 && new_outcome(st, now, *interface_addrs, r),
    {
        let now = gotime::now();
        Sonyflake::new_at(st, now, interface_addrs)
    }

    /// Returns a new Sonyflake configured with the given settings, or `None`
    /// where `new` returns an error.
    pub fn new_sonyflake<M, C, F>(st: Settings<M, C>, interface_addrs: &F) -> (r: Option<Sonyflake>) where
        M: Fn() -> Result<u16, Error>,
        C: Fn(u16) -> bool,
        F: Fn() -> Result<Vec<Addr>, Error>,

        requires
            st.machine_id matches Some(m) ==> call_requires(m, ()),
            st.check_machine_id matches Some(c) ==> forall|id: u16| call_requires(c, (id,)),
            call_requires(*interface_addrs, ()),
        ensures
            exists|now: Time, res: Result<Sonyflake, Error>|
                now.seconds() >= 0 && new_outcome(st, now, *interface_addrs, res) && r == match res {
                    Ok(sf) => Some(sf),
                    Err(_) => None::<Sonyflake>,
                },
    {
        let ghost st0 = st;
        let res = Sonyflake::new(st, interface_addrs);
        let ghost g = res;
        let r = match res {
            Ok(sf) => Some(sf),
            Err(_) => None,
        };
        proof {
            let now = choose|now: Time| now.seconds() >= 0 && new_outcome(st0, now, *interface_addrs, g);
            assert(now.seconds() >= 0 && new_outcome(st0, now, *interface_addrs, g) && r == match g {
                Ok(sf) => Some(sf),
                Err(_) => None::<Sonyflake>,
            });
        }
        r
    }

    /// The ID of the current state, or `OverTimeLimit` once the time part no
    /// longer fits its bits.
    pub fn to_id(&self) -> (r: Result<u64, Error>)
        ensures
            r == id_result(self.elapsed(), self.seq(), self.machine()),
    {
        proof {
            use_type_invariant(self);
            lemma_shift_constants();
        }
        if self.elapsed_time >= 1i64 << BIT_LEN_TIME as i64 {
            return Err(Error::OverTimeLimit);
        }
        Ok(pack(self.elapsed_time, self.sequence, self.machine_id))
    }

    /// Moves on to the next ID at Sonyflake time `current` since the start.
    pub fn next_id_at(&mut self, current: i64) -> (step: Step)
        requires
            -2 * max_units() <= current <= 2 * max_units(),
            old(self).elapsed() < elapsed_limit(),
        ensures
            (final(self).elapsed(), final(self).seq()) == advance(
                old(self).elapsed(),
                old(self).seq(),
                current as int,
            ),
            final(self).start() == old(self).start(),
            final(self).machine() == old(self).machine(),
            step.id == id_result(final(self).elapsed(), final(self).seq(), final(self).machine()),
            step.overtime == (if old(self).elapsed() >= current && final(self).seq() == 0 {
                Some((final(self).elapsed() - current) as i64)
            } else {
                None::<i64>
            }),
    {
        proof {
            use_type_invariant(&*self);
        }
        let mask_sequence: u16 = 0xff;
        let mut overtime: Option<i64> = None;
        if self.elapsed_time < current {
            self.elapsed_time = current;
            self.sequence = 0;
        } else {
            let next = self.sequence.wrapping_add(1);
            assert(next & 0xffu16 == next % 256) by (bit_vector);
            self.sequence = next & mask_sequence;
            if self.sequence == 0 {
                self.elapsed_time = self.elapsed_time + 1;
                overtime = Some(self.elapsed_time - current);
            }
        }
        let id = self.to_id();
        Step { id, overtime }
    }

    /// Returns the Sonyflake time elapsed since the start at the current time.
    pub fn current_elapsed_time(&self) -> (r: i64)
        ensures
            -2 * max_units() <= r <= 2 * max_units(),
            exists|now: Time| now.seconds() >= 0 && r == sonyflake_time(now) - self.start(),
    {
        proof {
            use_type_invariant(self);
        }
        current_elapsed_time(self.start_time)
    }

    /// Generates the next ID as of the current time. Where the sequence has run
    /// out within the current time unit, the ID is stamped with the next time
    /// unit and `sleep` says how long to wait for it to begin.
    pub fn next_id(&mut self) -> (g: Generated)
        requires
            old(self).elapsed() < elapsed_limit(),
        ensures
            final(self).start() == old(self).start(),
            final(self).machine() == old(self).machine(),
            g.id == id_result(final(self).elapsed(), final(self).seq(), final(self).machine()),
            exists|now: Time|
                {
                    let current = #[trigger] sonyflake_time(now) - old(self).start();
                    &&& now.seconds() >= 0
                    &&& (final(self).elapsed(), final(self).seq()) == advance(
                        old(self).elapsed(),
                        old(self).seq(),
                        current,
                    )
                    &&& (g.sleep is Some <==> (old(self).elapsed() >= current && final(self).seq()
                        == 0))
                    &&& (g.sleep matches Some(d) ==> exists|later: Time|
                        d.0 == #[trigger] sleep_time_spec(final(self).elapsed() - current, later))
                },
    {
        let current = self.current_elapsed_time();
        let ghost now = choose|now: Time| now.seconds() >= 0 && current == sonyflake_time(now) - self.start();
        let step = self.next_id_at(current);
        let sleep = match step.overtime {
            Some(overtime) => Some(sleep_time(overtime)),
            None => None,
        };
        let g = Generated { id: step.id, sleep };
        assert(now.seconds() >= 0 && current == sonyflake_time(now) - old(self).start());
        assert((self.elapsed(), self.seq()) == advance(old(self).elapsed(), old(self).seq(), current as int)
            && (g.sleep is Some <==> (old(self).elapsed() >= current && self.seq() == 0)) && (
        g.sleep matches Some(d) ==> exists|later: Time|
            d.0 == #[trigger] sleep_time_spec(self.elapsed() - current, later)));
        g
    }

    /// The time part of the last ID.
    pub fn elapsed_time(&self) -> (e: i64)
        ensures
            e == self.elapsed(),
            e >= 0,
    {
        proof {
            use_type_invariant(self);
        }
        self.elapsed_time
    }

    /// The Sonyflake time the generator counts from.
    pub fn start_time(&self) -> (s: i64)
        ensures
            s == self.start(),
            -max_units() <= s <= max_units(),
    {
        proof {
            use_type_invariant(self);
        }
        self.start_time
    }

    /// Moves the start time `units` time units back, as if that much time had passed.
    pub fn sub_start_time(&mut self, units: i64)
        requires
            -max_units() <= old(self).start() - units <= max_units(),
        ensures
            final(self).start() == old(self).start() - units,
            final(self).elapsed() == old(self).elapsed(),
            final(self).seq() == old(self).seq(),
            final(self).machine() == old(self).machine(),
    {
        proof {
            use_type_invariant(&*self);
        }
        self.start_time = self.start_time - units;
    }
}

/// The machine ID from the callback, or else from the host's private address.
fn obtain_machine_id<M, F>(source: &Option<M>, interface_addrs: &F) -> (r: Result<u16, Error>) where
    M: Fn() -> Result<u16, Error>,
    F: Fn() -> Result<Vec<Addr>, Error>,

    requires
        source matches Some(m) ==> call_requires(m, ()),
        call_requires(*interface_addrs, ()),
    ensures
        machine_id_outcome(*source, *interface_addrs, r),
{
    reveal(machine_id_outcome);
    match source {
        None => lower16_bit_private_ip(interface_addrs),
        Some(machine_id) => machine_id(),
    }
}

/// What the uniqueness check says of `id`; with no check, it passes.
fn check_machine_id<C: Fn(u16) -> bool>(check: &Option<C>, id: u16) -> (ok: bool)
    requires
        check matches Some(c) ==> forall|id: u16| call_requires(c, (id,)),
    ensures
        check_outcome(*check, id, ok),
{
    reveal(check_outcome);
    match check {
        Some(c) => c(id),
        None => true,
    }
}

proof fn lemma_shift_constants()
    ensures
        1i64 << 39i64 == 549_755_813_888i64,
        1u32 << 8u32 == 256u32,
{
    assert(1i64 << 39i64 == 549_755_813_888i64) by (bit_vector);
    assert(1u32 << 8u32 == 256u32) by (bit_vector);
}

/// The default start time, 2014-09-01 00:00:00 UTC.
fn default_start_time() -> (t: Time)
    ensures
        t.total_nanos() == gotime::utc_civil_seconds(2014, 9, 1, 0, 0, 0).unwrap()
            * gotime::nanos_per_second(),
{
    assert(gotime::valid_civil(2014, 9, 1, 0, 0, 0));
    match gotime::checked_date(2014, 9, 1, 0, 0, 0, 0) {
        Some(t) => t,
        None => {
            assert(false);
            gotime::now()
        },
    }
}

/// What `compose` returns for a start time and the parts.
pub open spec fn compose_result(start: int, t: Time, sequence: int, machine_id: int) -> Result<
    u64,
    Error,
> {
    let elapsed = sonyflake_time(t) - start;
    if elapsed < 0 {
        Err(Error::StartTimeAhead)
    } else if elapsed >= pow2_39() {
        Err(Error::OverTimeLimit)
    } else if sequence >= 256 {
        Err(Error::InvalidSequence)
    } else {
        Ok(id_of(elapsed, sequence, machine_id) as u64)
    }
}

/// Creates a Sonyflake ID from its parts: the time it was generated, its
/// sequence number and its machine ID.
pub fn compose(sf: &Sonyflake, t: Time, sequence: u16, machine_id: u16) -> (r: Result<u64, Error>)
    ensures
        r == compose_result(sf.start(), t, sequence as int, machine_id as int),
{
    proof {
        lemma_shift_constants();
    }
    let start_time = sf.start_time();
    let elapsed_time = to_sonyflake_time(t) - start_time;
    if elapsed_time < 0 {
        return Err(Error::StartTimeAhead);
    }
    if elapsed_time >= 1i64 << BIT_LEN_TIME as i64 {
        return Err(Error::OverTimeLimit);
    }
    if sequence as u32 >= 1u32 << BIT_LEN_SEQUENCE {
        return Err(Error::InvalidSequence);
    }
    Ok(pack(elapsed_time, sequence, machine_id))
}


// ---------------------------------------------------------------------------
// Laws
// ---------------------------------------------------------------------------

/// Decomposing a composed ID gives back its parts: the Sonyflake time elapsed
/// from the start to `t`, the sequence number and the machine ID, with the
/// most significant bit clear.
pub proof fn lemma_compose_decompose(start: int, t: Time, sequence: int, machine_id: int)
    requires
        0 <= sequence,
        0 <= machine_id < pow2_16(),
        compose_result(start, t, sequence, machine_id) is Ok,
    ensures
        ({
            let id = compose_result(start, t, sequence, machine_id)->Ok_0 as int;
            &&& time_part(id) == sonyflake_time(t) - start
            &&& sequence_part(id) == sequence
            &&& machine_part(id) == machine_id
            &&& msb_part(id) == 0
        }),
{
    let elapsed = sonyflake_time(t) - start;
    lemma_parts_of_id(elapsed, sequence, machine_id);
}

/// Every ID `next_id` hands out is larger than the one before: the time and
/// sequence of a generator increase with every step, whatever the clock says,
/// and the ID grows with them.
pub proof fn lemma_next_id_increases(elapsed: int, sequence: int, machine: int, current: int)
    requires
        0 <= elapsed,
        0 <= sequence < 256,
        0 <= machine < pow2_16(),
    ensures
        ({
            let (e2, s2) = advance(elapsed, sequence, current);
            &&& 0 <= s2 < 256
            &&& e2 * 256 + s2 > elapsed * 256 + sequence
            &&& (id_result(elapsed, sequence, machine) is Ok && id_result(e2, s2, machine) is Ok
                ==> id_result(elapsed, sequence, machine)->Ok_0 < id_result(e2, s2, machine)->Ok_0)
        }),
{
    let (e2, s2) = advance(elapsed, sequence, current);
    if sequence == 255 {
        assert((sequence + 1) % 256 == 0);
    } else {
        assert((sequence + 1) % 256 == sequence + 1);
    }
    assert(0 <= s2 < 256);
    assert(e2 * 256 + s2 > elapsed * 256 + sequence);
    if elapsed < pow2_39() && e2 < pow2_39() {
        lemma_parts_of_id(elapsed, sequence, machine);
        lemma_parts_of_id(e2, s2, machine);
        assert(id_of(elapsed, sequence, machine) == (elapsed * 256 + sequence) * pow2_16() + machine);
        assert(id_of(e2, s2, machine) == (e2 * 256 + s2) * pow2_16() + machine);
        assert((elapsed * 256 + sequence) * pow2_16() < (e2 * 256 + s2) * pow2_16()) by (nonlinear_arith)
            requires
                e2 * 256 + s2 > elapsed * 256 + sequence,
        ;
        assert(id_result(elapsed, sequence, machine) == Ok::<u64, Error>(
            id_of(elapsed, sequence, machine) as u64,
        ));
        assert(id_result(e2, s2, machine) == Ok::<u64, Error>(id_of(e2, s2, machine) as u64));
    }
}

/// The parts of an ID `next_id` hands out are the generator's time, sequence
/// and machine ID.
pub proof fn lemma_generated_parts(elapsed: int, sequence: int, machine: int)
    requires
        0 <= elapsed,
        0 <= sequence < 256,
        0 <= machine < pow2_16(),
        id_result(elapsed, sequence, machine) is Ok,
    ensures
        ({
            let id = id_result(elapsed, sequence, machine)->Ok_0 as int;
            &&& time_part(id) == elapsed
            &&& sequence_part(id) == sequence
            &&& machine_part(id) == machine
            &&& msb_part(id) == 0
        }),
{
    lemma_parts_of_id(elapsed, sequence, machine);
}

/// After a step the generator's time is never behind the current time, and it
/// moves at most one unit past the later of its own time and the current
/// time: that only when its sequence ran out, which is when `next_id` asks to
/// wait.
pub proof fn lemma_advance_not_behind(elapsed: int, sequence: int, current: int)
    requires
        0 <= sequence < 256,
    ensures
        ({
            let (e2, s2) = advance(elapsed, sequence, current);
            let later = if elapsed > current {
                elapsed
            } else {
                current
            };
            &&& e2 >= current
            &&& e2 <= later + 1
            &&& e2 == later + 1 ==> s2 == 0 && elapsed >= current
        }),
{
}

/// Waiting as `next_id` says brings the clock to the start of the time unit
/// the ID was stamped with: reading the clock at `later`, no earlier than the
/// reading that gave `current`, and waiting `sleep_time_spec(overtime, later)`
/// ends at the start of unit `sonyflake_time(later) + overtime`, which is at
/// or after the ID's time `start + current + overtime`. The instant is taken
/// since 1970 and the wait within `i64`.
pub proof fn lemma_wait_reaches_id_time(start: int, current: int, overtime: int, later: Time)
    requires
        gotime::wrap_i64(later.total_nanos()) >= 0,
        0 <= overtime * SONYFLAKE_TIME_UNIT <= i64::MAX,
        sonyflake_time(later) - start >= current,
    ensures
        ({
            let n = gotime::wrap_i64(later.total_nanos()) as int;
            let end = n + sleep_time_spec(overtime, later);
            &&& end == (sonyflake_time(later) + overtime) * SONYFLAKE_TIME_UNIT
            &&& (start + current + overtime) * SONYFLAKE_TIME_UNIT <= end
        }),
{
    let tu = SONYFLAKE_TIME_UNIT as int;
    let n = gotime::wrap_i64(later.total_nanos()) as int;
    let o = overtime * tu;
    gotime::lemma_wrap_in_range(o);
    let r = gotime::truncated_rem(n, tu);
    let q = sonyflake_time(later);
    vstd::arithmetic::div_mod::lemma_fundamental_div_mod(n, tu);
    vstd::arithmetic::div_mod::lemma_mod_bound(n, tu);
    if n == 0 {
        assert(r == 0 && q == 0);
    } else {
        assert(r == n % tu && q == n / tu);
    }
    gotime::lemma_wrap_in_range(o - r);
    assert(n + (o - r) == (q + overtime) * tu) by (nonlinear_arith)
        requires
            n == tu * q + r,
            o == overtime * tu,
    ;
    assert((start + current + overtime) * tu <= (q + overtime) * tu) by (nonlinear_arith)
        requires
            q - start >= current,
            tu >= 1,
    ;
}

/// The first ID of a new generator has sequence number 0, whatever the clock
/// says: a new generator starts at time 0 with its sequence run out.
pub proof fn lemma_first_id_has_sequence_zero(current: int)
    ensures
        advance(0, 255, current).1 == 0,
{
}

/// The states a generator passes through when asked for IDs at the current
/// times `currents`, one after the other: its time and sequence after each step.
pub open spec fn states_after(elapsed: int, sequence: int, currents: Seq<int>) -> Seq<(int, int)>
    decreases currents.len(),
{
    if currents.len() == 0 {
        Seq::empty()
    } else {
        let next = advance(elapsed, sequence, currents[0]);
        seq![next] + states_after(next.0, next.1, currents.drop_first())
    }
}

/// Along a run the time and sequence, read as one number, strictly increase,
/// and stay within their bounds.
proof fn lemma_states_increase(elapsed: int, sequence: int, currents: Seq<int>)
    requires
        0 <= elapsed,
        0 <= sequence < 256,
    ensures
        ({
            let st = states_after(elapsed, sequence, currents);
            &&& st.len() == currents.len()
            &&& forall|k: int|
                0 <= k < st.len() ==> 0 <= (#[trigger] st[k]).0 && 0 <= st[k].1 < 256 && st[k].0
                    * 256 + st[k].1 > elapsed * 256 + sequence
            &&& forall|i: int, j: int|
                0 <= i < j < st.len() ==> (#[trigger] st[i]).0 * 256 + st[i].1 < (
                #[trigger] st[j]).0 * 256 + st[j].1
        }),
    decreases currents.len(),
{
    if currents.len() > 0 {
        let next = advance(elapsed, sequence, currents[0]);
        lemma_next_id_increases(elapsed, sequence, 0, currents[0]);
        assert(next.0 >= 0);
        lemma_states_increase(next.0, next.1, currents.drop_first());
        let rest = states_after(next.0, next.1, currents.drop_first());
        let st = states_after(elapsed, sequence, currents);
        assert(st == seq![next] + rest);
        assert forall|k: int| 0 <= k < st.len() implies 0 <= (#[trigger] st[k]).0 && 0 <= st[k].1
            < 256 && st[k].0 * 256 + st[k].1 > elapsed * 256 + sequence by {
            if k > 0 {
                assert(st[k] == rest[k - 1]);
            }
        }
        assert forall|i: int, j: int| 0 <= i < j < st.len() implies (#[trigger] st[i]).0 * 256
            + st[i].1 < (#[trigger] st[j]).0 * 256 + st[j].1 by {
            assert(st[j] == rest[j - 1]);
            if i > 0 {
                assert(st[i] == rest[i - 1]);
            }
        }
    }
}

/// The IDs one generator hands out, one call after another, strictly
/// increase, whatever the clock says at each call: of the states it passes
/// through, every two whose IDs are not over the time limit have IDs in the
/// order of the calls.
pub proof fn lemma_ids_increase_along_a_run(
    elapsed: int,
    sequence: int,
    machine: int,
    currents: Seq<int>,
)
    requires
        0 <= elapsed,
        0 <= sequence < 256,
        0 <= machine < pow2_16(),
    ensures
        ({
            let st = states_after(elapsed, sequence, currents);
            forall|i: int, j: int|
                0 <= i < j < st.len() && id_result(st[i].0, st[i].1, machine) is Ok && id_result(
                    st[j].0,
                    st[j].1,
                    machine,
                ) is Ok ==> (#[trigger] id_result(st[i].0, st[i].1, machine))->Ok_0 < (
                #[trigger] id_result(st[j].0, st[j].1, machine))->Ok_0
        }),
{
    let st = states_after(elapsed, sequence, currents);
    lemma_states_increase(elapsed, sequence, currents);
    assert forall|i: int, j: int|
        0 <= i < j < st.len() && id_result(st[i].0, st[i].1, machine) is Ok && id_result(
            st[j].0,
            st[j].1,
            machine,
        ) is Ok implies (#[trigger] id_result(st[i].0, st[i].1, machine))->Ok_0 < (
    #[trigger] id_result(st[j].0, st[j].1, machine))->Ok_0 by {
        let (e1, s1) = st[i];
        let (e2, s2) = st[j];
        assert(0 <= e1 && 0 <= s1 < 256 && 0 <= e2 && 0 <= s2 < 256);
        lemma_parts_of_id(e1, s1, machine);
        lemma_parts_of_id(e2, s2, machine);
        let lo = e1 * 256 + s1;
        let hi = e2 * 256 + s2;
        assert(id_of(e1, s1, machine) == lo * pow2_16() + machine);
        assert(id_of(e2, s2, machine) == hi * pow2_16() + machine);
        assert(lo * pow2_16() < hi * pow2_16()) by (nonlinear_arith)
            requires
                lo < hi,
        ;
    }
}

/// Two generators with different machine IDs never hand out the same ID.
pub proof fn lemma_machines_never_collide(
    e1: int,
    s1: int,
    m1: int,
    e2: int,
    s2: int,
    m2: int,
)
    requires
        0 <= e1,
        0 <= e2,
        0 <= s1 < 256,
        0 <= s2 < 256,
        0 <= m1 < pow2_16(),
        0 <= m2 < pow2_16(),
        m1 != m2,
        id_result(e1, s1, m1) is Ok,
        id_result(e2, s2, m2) is Ok,
    ensures
        id_result(e1, s1, m1) != id_result(e2, s2, m2),
{
    lemma_parts_of_id(e1, s1, m1);
    lemma_parts_of_id(e2, s2, m2);
}

/// How one step moves a generator, case by case: into a later time unit
/// with the sequence starting over at 0; within its own time unit to the next
/// sequence number; and, when that unit's 256 sequence numbers are used up,
/// to the next unit with sequence 0.
pub proof fn lemma_step_cases(elapsed: int, sequence: int, current: int)
    requires
        0 <= sequence < 256,
    ensures
        elapsed < current ==> advance(elapsed, sequence, current) == (current, 0int),
        elapsed >= current && sequence < 255 ==> advance(elapsed, sequence, current) == (
            elapsed,
            sequence + 1,
        ),
        elapsed >= current && sequence == 255 ==> advance(elapsed, sequence, current) == (
            elapsed + 1,
            0int,
        ),
{
}

/// The first ID of a time unit later than the generator's: its time part is
/// that unit, its sequence number 0, its machine part the machine ID, as long
/// as the unit is within the 2^39 the time part holds.
pub proof fn lemma_new_unit_id(elapsed: int, sequence: int, machine: int, current: int)
    requires
        0 <= elapsed < current < 549_755_813_888,
        0 <= sequence < 256,
        0 <= machine < 65_536,
    ensures
        ({
            let (e2, s2) = advance(elapsed, sequence, current);
            &&& id_result(e2, s2, machine) is Ok
            &&& time_part(id_result(e2, s2, machine)->Ok_0 as int) == current
            &&& sequence_part(id_result(e2, s2, machine)->Ok_0 as int) == 0
            &&& machine_part(id_result(e2, s2, machine)->Ok_0 as int) == machine
        }),
{
    lemma_step_cases(elapsed, sequence, current);
    lemma_parts_of_id(current, 0, machine);
}

/// The private IPv4 addresses are those of RFC 1918 (10.0.0.0/8,
/// 172.16.0.0/12, 192.168.0.0/16) and the link-local ones of RFC 3927
/// (169.254.0.0/16).
pub proof fn lemma_private_ranges(b: Seq<u8>)
    requires
        b.len() == 4,
    ensures
        private_v4(b) <==> (b[0] == 10 || (b[0] == 172 && 16 <= b[1] && b[1] <= 31) || (b[0] == 192
            && b[1] == 168) || (b[0] == 169 && b[1] == 254)),
{
}

/// A host with one network whose address is a private IPv4 address a.b.c.d
/// has the machine ID c * 256 + d.
pub proof fn lemma_private_network_machine_id(n: gonet::IpNet, v: Vec<Addr>)
    requires
        n.ip.0@.len() == 4,
        n.ip.0@[0] == 10 || (n.ip.0@[0] == 172 && 16 <= n.ip.0@[1] <= 31) || (n.ip.0@[0] == 192
            && n.ip.0@[1] == 168) || (n.ip.0@[0] == 169 && n.ip.0@[1] == 254),
        v@ == seq![Addr::IpNet(n)],
    ensures
        first_private_ipv4(v@) == Some(n.ip.0@),
        lower16_result(Ok(v)) == Ok::<u16, Error>((n.ip.0@[2] * 256 + n.ip.0@[3]) as u16),
        0 <= n.ip.0@[2] * 256 + n.ip.0@[3] < 65_536,
{
    lemma_private_ranges(n.ip.0@);
    assert(v@.drop_first().len() == 0);
    assert(private_candidate(v@[0]) == Some(n.ip.0@));
}

/// The machine ID is the lower 16 bits of the address: c * 256 + d for
/// a.b.c.d, which fits 16 bits.
pub proof fn lemma_lower16_of_address(b: Seq<u8>)
    requires
        b.len() == 4,
    ensures
        lower16(b) == b[2] * 256 + b[3],
        0 <= lower16(b) < 65_536,
{
}

/// Without a start time the generator counts from 2014-09-01 00:00:00 UTC,
/// whose Unix time 1409529600 s is 140952960000 units of 10 msec.
pub proof fn lemma_default_start()
    ensures
        default_start_units() == 140_952_960_000,
        start_units(None) == 140_952_960_000,
{
    gotime::lemma_epoch_seconds();
    gotime::lemma_wrap_in_range(1_409_529_600_000_000_000);
}

/// `compose` succeeds on every input within range: a time from the start up
/// to 2^39 units after it, and a sequence number below 256; it is over the
/// time limit exactly when the time is 2^39 units or more after the start.
pub proof fn lemma_compose_in_range(start: int, t: Time, sequence: int, machine_id: int)
    requires
        0 <= sequence,
        0 <= machine_id < 65_536,
    ensures
        0 <= sonyflake_time(t) - start < 549_755_813_888 && sequence < 256 ==> compose_result(
            start,
            t,
            sequence,
            machine_id,
        ) is Ok,
        compose_result(start, t, sequence, machine_id) == Err::<u64, Error>(Error::OverTimeLimit)
            <==> sonyflake_time(t) - start >= 549_755_813_888,
{
}

/// The time part of an ID covers more than 174 years: 2^39 units of 10 msec.
pub proof fn lemma_lifetime()
    ensures
        549_755_813_888 * SONYFLAKE_TIME_UNIT >= 174 * 365 * 86_400 * 1_000_000_000,
        pow2_39() == 549_755_813_888,
{
}

/// The layout of an ID: 39 bits of time above 8 bits of sequence number
/// above 16 bits of machine ID.
pub proof fn lemma_layout(elapsed: int, sequence: int, machine: int)
    ensures
        id_of(elapsed, sequence, machine) == elapsed * 16_777_216 + sequence * 65_536 + machine,
        BIT_LEN_TIME == 39 && BIT_LEN_SEQUENCE == 8 && BIT_LEN_MACHINE_ID == 16,
{
}

/// An instant since 1970 is, in Sonyflake time, the number of 10 msec units
/// that have fully passed.
pub proof fn lemma_sonyflake_time_of_instant(t: Time)
    requires
        gotime::wrap_i64(t.total_nanos()) >= 0,
    ensures
        sonyflake_time(t) * 10_000_000 <= gotime::wrap_i64(t.total_nanos()) < sonyflake_time(t)
            * 10_000_000 + 10_000_000,
{
    let n = gotime::wrap_i64(t.total_nanos()) as int;
    vstd::arithmetic::div_mod::lemma_fundamental_div_mod(n, 10_000_000);
    vstd::arithmetic::div_mod::lemma_mod_bound(n, 10_000_000);
}

} // verus!
