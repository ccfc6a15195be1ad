//! The second generation of Sonyflake, whose bit lengths and time unit are
//! configurable. By default an ID is composed of
//!
//! ```text
//! 39 bits for time in units of 10 msec
//!  8 bits for a sequence number
//! 16 bits for a machine id
//! ```

use vstd::prelude::*;
use vstd::arithmetic::power2::{pow2, lemma2_to64, lemma2_to64_rest, lemma_pow2_adds, lemma_pow2_pos, lemma_pow2_strictly_increases};

pub mod awsutil;
pub mod error;
pub mod mock;

pub use self::error::Error;
use crate::gonet::{Addr, Ip};
use crate::gotime::{self, Duration, Time};
use crate::text::{
    chars_less, keys_ascending, lemma_chars_less_at, push_char, push_signed_decimal, push_str,
    signed_decimal,
};
use crate::{first_private_ipv4, first_private_address, lemma_first_private_is_v4, lower16};

verus! {

/// 2 to the `n`.
pub open spec fn p2(n: int) -> int {
    pow2(n as nat) as int
}

proof fn lemma_p2_bounds(n: int)
    requires
        0 <= n <= 62,
    ensures
        1 <= p2(n) <= 0x4000_0000_0000_0000,
{
    lemma_pow2_pos(n as nat);
    lemma2_to64();
    lemma2_to64_rest();
    if n < 62 {
        lemma_pow2_strictly_increases(n as nat, 62);
    }
}

proof fn lemma_p2_le(n: int, m: int)
    requires
        0 <= n <= m,
    ensures
        p2(n) <= p2(m),
{
    if n < m {
        lemma_pow2_strictly_increases(n as nat, m as nat);
    }
}

/// Dividing an `i64` by two or more leaves at most `2^62` in magnitude.
proof fn lemma_quotient_bound(id: int, p: int)
    requires
        i64::MIN <= id <= i64::MAX,
        p >= 2,
    ensures
        -0x4000_0000_0000_0000 <= id / p <= 0x4000_0000_0000_0000,
{
    vstd::arithmetic::div_mod::lemma_fundamental_div_mod(id, p);
    vstd::arithmetic::div_mod::lemma_mod_bound(id, p);
    let q = id / p;
    let r = id % p;
    assert(-0x4000_0000_0000_0000 <= q <= 0x4000_0000_0000_0000) by (nonlinear_arith)
        requires
            id == p * q + r,
            0 <= r < p,
            p >= 2,
            -0x8000_0000_0000_0000 <= id < 0x8000_0000_0000_0000,
    ;
}

/// Two to the `n`, for `n` at most 62.
fn pow2_i64(n: u32) -> (r: i64)
    requires
        n <= 62,
    ensures
        r == p2(n as int),
{
    proof {
        lemma_p2_bounds(n as int);
        vstd::bits::lemma_u64_shl_is_mul(1, n as u64);
    }
    (1u64 << n as u64) as i64
}

/// Truncating division and remainder agree with floor division and the
/// non-negative remainder, but for one step down when the remainder is negative.
proof fn lemma_truncated_to_floor(a: int, p: int)
    requires
        p > 0,
    ensures
        a == p * gotime::truncated_div(a, p) + gotime::truncated_rem(a, p),
        gotime::truncated_rem(a, p) < 0 ==> a / p == gotime::truncated_div(a, p) - 1 && a % p
            == gotime::truncated_rem(a, p) + p,
        gotime::truncated_rem(a, p) >= 0 ==> a / p == gotime::truncated_div(a, p) && a % p
            == gotime::truncated_rem(a, p),
        a < 0 ==> a / p >= a,
{
    let qd = gotime::truncated_div(a, p);
    let rd = gotime::truncated_rem(a, p);
    if a >= 0 {
        vstd::arithmetic::div_mod::lemma_fundamental_div_mod(a, p);
        assert(0 <= a % p < p) by {
            vstd::arithmetic::div_mod::lemma_mod_bound(a, p);
        }
    } else {
        let b = a * -1;
        vstd::arithmetic::div_mod::lemma_fundamental_div_mod(b, p);
        vstd::arithmetic::div_mod::lemma_mod_bound(b, p);
        assert(qd == (b / p) * -1 && rd == (b % p) * -1);
        assert(a == p * qd + rd) by (nonlinear_arith)
            requires
                b == p * (b / p) + b % p,
                a == b * -1,
                qd == (b / p) * -1,
                rd == (b % p) * -1,
        ;
        if rd < 0 {
            assert(a == p * (qd - 1) + (rd + p)) by (nonlinear_arith)
                requires
                    a == p * qd + rd,
            ;
            vstd::arithmetic::div_mod::lemma_fundamental_div_mod_converse(a, p, qd - 1, rd + p);
        } else {
            vstd::arithmetic::div_mod::lemma_fundamental_div_mod_converse(a, p, qd, rd);
        }
        vstd::arithmetic::div_mod::lemma_fundamental_div_mod(a, p);
        vstd::arithmetic::div_mod::lemma_mod_bound(a, p);
        assert(a / p >= a) by (nonlinear_arith)
            requires
                a == p * (a / p) + a % p,
                0 <= a % p < p,
                a < 0,
                p >= 1,
        ;
    }
}

/// Floor of `a / p` for positive `p`.
fn floor_div(a: i64, p: i64) -> (q: i64)
    requires
        p > 0,
    ensures
        q == a as int / p as int,
{
    let qt = match a.checked_div(p) {
        Some(q) => q,
        None => 0,
    };
    let rt = match a.checked_rem(p) {
        Some(r) => r,
        None => 0,
    };
    proof {
        lemma_truncated_to_floor(a as int, p as int);
    }
    if rt < 0 {
        qt - 1
    } else {
        qt
    }
}

/// `a` modulo positive `p`, in `[0, p)`.
fn floor_mod(a: i64, p: i64) -> (r: i64)
    requires
        p > 0,
    ensures
        r == a as int % p as int,
{
    let rt = match a.checked_rem(p) {
        Some(r) => r,
        None => 0,
    };
    proof {
        lemma_truncated_to_floor(a as int, p as int);
    }
    if rt < 0 {
        rt + p
    } else {
        rt
    }
}


// ---------------------------------------------------------------------------
// The bit layout of an ID
// ---------------------------------------------------------------------------

/// The ID made of an elapsed time, a sequence number and a machine ID, for
/// sequence numbers of `bs` bits and machine IDs of `bm` bits.
pub open spec fn id_of(elapsed: int, sequence: int, machine: int, bs: int, bm: int) -> int {
    elapsed * p2(bs + bm) + sequence * p2(bm) + machine
}

/// The time part of an ID.
pub open spec fn time_part_of(id: int, bs: int, bm: int) -> int {
    id / p2(bs + bm)
}

/// The sequence part of an ID.
pub open spec fn sequence_part_of(id: int, bs: int, bm: int) -> int {
    (id / p2(bm)) % p2(bs)
}

/// The machine part of an ID.
pub open spec fn machine_part_of(id: int, bm: int) -> int {
    id % p2(bm)
}

/// An ID gives back the parts it was made of.
pub proof fn lemma_parts_of_id(elapsed: int, sequence: int, machine: int, bs: int, bm: int)
    requires
        0 <= bs,
        0 <= bm,
        0 <= sequence < p2(bs),
        0 <= machine < p2(bm),
    ensures
        time_part_of(id_of(elapsed, sequence, machine, bs, bm), bs, bm) == elapsed,
        sequence_part_of(id_of(elapsed, sequence, machine, bs, bm), bs, bm) == sequence,
        machine_part_of(id_of(elapsed, sequence, machine, bs, bm), bm) == machine,
{
    let pb = p2(bs);
    let pm = p2(bm);
    lemma_pow2_pos(bs as nat);
    lemma_pow2_pos(bm as nat);
    lemma_pow2_adds(bs as nat, bm as nat);
    assert(p2(bs + bm) == pb * pm);
    let id = id_of(elapsed, sequence, machine, bs, bm);
    let hi = elapsed * pb + sequence;
    assert(id == pm * hi + machine) by (nonlinear_arith)
        requires
            id == elapsed * (pb * pm) + sequence * pm + machine,
            hi == elapsed * pb + sequence,
    ;
    vstd::arithmetic::div_mod::lemma_fundamental_div_mod_converse(id, pm, hi, machine);
    vstd::arithmetic::div_mod::lemma_fundamental_div_mod_converse(hi, pb, elapsed, sequence);
    let low = sequence * pm + machine;
    assert(id == (pb * pm) * elapsed + low && 0 <= low < pb * pm) by (nonlinear_arith)
        requires
            id == elapsed * (pb * pm) + sequence * pm + machine,
            low == sequence * pm + machine,
            0 <= sequence < pb,
            0 <= machine < pm,
    ;
    vstd::arithmetic::div_mod::lemma_fundamental_div_mod_converse(id, pb * pm, elapsed, low);
}

/// An ID made of parts within their bit lengths lies within `[0, 2^63)`.
proof fn lemma_id_bounds(elapsed: int, sequence: int, machine: int, bs: int, bm: int)
    requires
        0 <= bs,
        0 <= bm,
        bs + bm <= 31,
        0 <= elapsed < p2(63 - bs - bm),
        0 <= sequence < p2(bs),
        0 <= machine < p2(bm),
    ensures
        0 <= id_of(elapsed, sequence, machine, bs, bm) < 0x8000_0000_0000_0000,
{
    let pb = p2(bs);
    let pm = p2(bm);
    let pt = p2(63 - bs - bm);
    lemma_pow2_pos(bs as nat);
    lemma_pow2_pos(bm as nat);
    lemma_pow2_adds(bs as nat, bm as nat);
    lemma_pow2_adds((63 - bs - bm) as nat, (bs + bm) as nat);
    lemma2_to64_rest();
    assert(pt * (pb * pm) == 0x8000_0000_0000_0000);
    let id = id_of(elapsed, sequence, machine, bs, bm);
    assert(0 <= id < pt * (pb * pm)) by (nonlinear_arith)
        requires
            id == elapsed * (pb * pm) + sequence * pm + machine,
            0 <= elapsed < pt,
            0 <= sequence < pb,
            0 <= machine < pm,
            pb >= 1,
            pm >= 1,
    ;
}

// ---------------------------------------------------------------------------
// The generator
// ---------------------------------------------------------------------------

/// nsec, i.e. 10 msec
pub const DEFAULT_TIME_UNIT: i64 = 10_000_000;

pub const DEFAULT_BITS_SEQUENCE: i32 = 8;

pub const DEFAULT_BITS_MACHINE: i32 = 16;

/// Configures [`Sonyflake`].
///
/// `bits_sequence` is the bit length of a sequence number. If `bits_sequence`
/// is 0, the default bit length is used, which is 8. If `bits_sequence` is 31 or
/// more, an error is returned.
///
/// `bits_machine_id` is the bit length of a machine ID. If `bits_machine_id` is
/// 0, the default bit length is used, which is 16. If `bits_machine_id` is 31 or
/// more, an error is returned.
///
/// `time_unit` is the time unit of Sonyflake. If `time_unit` is 0, the default
/// time unit is used, which is 10 msec. `time_unit` must be 1 msec or longer.
///
/// `start_time` is the time since which the Sonyflake time is defined as the
/// elapsed time. If `start_time` is `None`, the start time of the Sonyflake
/// instance is "2025-01-01 00:00:00 +0000 UTC". `start_time` must be before
/// the current time.
///
/// `machine_id` returns the unique ID of a Sonyflake instance. If `machine_id`
/// returns an error, the instance will not be created. If `machine_id` is
/// `None`, the machine ID is the lower 16 bits of the private IP address.
///
/// `check_machine_id` validates the uniqueness of a machine ID. If
/// `check_machine_id` returns false, the instance will not be created. If
/// `check_machine_id` is `None`, no validation is done.
///
/// The bit length of time is `63 - bits_sequence - bits_machine_id`. If it is
/// less than 32, an error is returned.
pub struct Settings<M, C> {
    pub bits_sequence: i32,
    pub bits_machine_id: i32,
    pub time_unit: Duration,
    pub start_time: Option<Time>,
    pub machine_id: Option<M>,
    pub check_machine_id: Option<C>,
}

impl<M, C> Default for Settings<M, C> {
    fn default() -> (s: Self)
        ensures
            s.bits_sequence == 0,
            s.bits_machine_id == 0,
            s.time_unit.0 == 0,
            s.start_time is None,
            s.machine_id is None,
            s.check_machine_id is None,
    {
        Settings {
            bits_sequence: 0,
            bits_machine_id: 0,
            time_unit: Duration(0),
            start_time: None,
            machine_id: None,
            check_machine_id: None,
        }
    }
}

/// The largest magnitude of a time in units of at least a millisecond.
pub open spec fn max_units() -> int {
    9_223_372_036_854
}

/// An instant in units of `time_unit` nanoseconds since the Unix epoch,
/// rounded toward zero, from its Unix nanoseconds wrapped as Go's `UnixNano`.
pub open spec fn internal_time(time_unit: int, t: Time) -> int {
    gotime::truncated_div(gotime::wrap_i64(t.total_nanos()) as int, time_unit)
}

/// A count of nanoseconds within `i64` is at most `max_units()` units of a
/// millisecond or more.
proof fn lemma_units_bound(x: int, b: int)
    requires
        0 <= x <= 0x8000_0000_0000_0000,
        b >= 1_000_000,
    ensures
        0 <= x / b <= max_units(),
{
    vstd::arithmetic::div_mod::lemma_div_is_ordered_by_denominator(x, 1_000_000, b);
    vstd::arithmetic::div_mod::lemma_div_is_ordered(x, 0x8000_0000_0000_0000, 1_000_000);
    vstd::arithmetic::div_mod::lemma_div_pos_is_pos(x, b);
}

/// The truncated quotient of an `i64` by a millisecond or more lies within
/// `max_units()` of zero.
proof fn lemma_internal_time_bound(n: i64, b: int)
    requires
        b >= 1_000_000,
    ensures
        -max_units() <= gotime::truncated_div(n as int, b) <= max_units(),
{
    if n > 0 {
        lemma_units_bound(n as int, b);
    } else if n < 0 {
        lemma_units_bound(n * -1, b);
    }
}

/// Converts an instant into units of `time_unit` nanoseconds.
pub fn to_internal_time(time_unit: i64, t: Time) -> (r: i64)
    requires
        time_unit >= 1_000_000,
    ensures
        r == internal_time(time_unit as int, t),
        -max_units() <= r <= max_units(),
{
    let n = gotime::unix_nano(t);
    proof {
        lemma_internal_time_bound(n, time_unit as int);
    }
    match n.checked_div(time_unit) {
        Some(q) => q,
        None => 0,
    }
}

/// The bit length of the sequence number for a setting, 0 meaning the default.
pub open spec fn effective_bits_sequence(bs: int) -> int {
    if bs == 0 {
        8
    } else {
        bs
    }
}

/// The bit length of the machine ID for a setting, 0 meaning the default.
pub open spec fn effective_bits_machine(bm: int) -> int {
    if bm == 0 {
        16
    } else {
        bm
    }
}

/// The time unit for a setting, 0 meaning the default.
pub open spec fn effective_time_unit(tu: int) -> int {
    if tu == 0 {
        10_000_000
    } else {
        tu
    }
}

/// The first error `new` finds in the settings, as of `now`.
pub open spec fn settings_error(
    bs: int,
    bm: int,
    tu: int,
    start_time: Option<Time>,
    now: Time,
) -> Option<Error> {
    if bs < 0 || bs > 30 {
        Some(Error::InvalidBitsSequence)
    } else if bm < 0 || bm > 30 {
        Some(Error::InvalidBitsMachineId)
    } else if tu < 0 || (tu > 0 && tu < 1_000_000) {
        Some(Error::InvalidTimeUnit)
    } else if crate::starts_after(start_time, now) {
        Some(Error::StartTimeAhead)
    } else if 63 - effective_bits_sequence(bs) - effective_bits_machine(bm) < 32 {
        Some(Error::InvalidBitsTime)
    } else {
        None
    }
}

/// The time the generator counts from, in its time unit.
pub open spec fn start_units(time_unit: int, start_time: Option<Time>) -> int {
    match start_time {
        Some(t) => internal_time(time_unit, t),
        None => gotime::truncated_div(
            gotime::wrap_i64(
                gotime::utc_civil_seconds(2025, 1, 1, 0, 0, 0).unwrap() * gotime::nanos_per_second(),
            ) as int,
            time_unit,
        ),
    }
}

/// Whether `r` is a machine ID the machine-ID source can give: what the
/// callback returns, or the lower 16 bits of the host's private address.
#[verifier::opaque]
pub open spec fn machine_id_outcome<M: Fn() -> Result<i32, Error>, F: Fn() -> Result<Vec<Addr>, Error>>(
    source: Option<M>,
    interface_addrs: F,
    r: Result<i32, Error>,
) -> bool {
    match source {
        Some(m) => call_ensures(m, (), r),
        None => exists|a: Result<Vec<Addr>, Error>|
            call_ensures(interface_addrs, (), a) && r == lower16_result(a),
    }
}

/// Whether `ok` is what the uniqueness check can say of `id`.
#[verifier::opaque]
pub open spec fn check_outcome<C: Fn(i32) -> bool>(check: Option<C>, id: i32, ok: bool) -> bool {
    match check {
        Some(c) => call_ensures(c, (id,), ok),
        None => ok,
    }
}

/// A distributed unique ID generator.
pub struct Sonyflake {
    bits_time: i32,
    bits_sequence: i32,
    bits_machine: i32,
    time_unit: i64,
    start_time: i64,
    elapsed_time: i64,
    sequence: i32,
    machine: i32,
}

/// What `new` answers to the settings at instant `now`, the host's addresses
/// being listed by `interface_addrs`: the first error in the settings, else
/// what the machine-ID source and the uniqueness check lead to.
pub open spec fn new_outcome<M, C, F>(
    st: Settings<M, C>,
    now: Time,
    interface_addrs: F,
    r: Result<Sonyflake, Error>,
) -> bool where
    M: Fn() -> Result<i32, Error>,
    C: Fn(i32) -> bool,
    F: Fn() -> Result<Vec<Addr>, Error>,
 {
    match settings_error(
        st.bits_sequence as int,
        st.bits_machine_id as int,
        st.time_unit.0 as int,
        st.start_time,
        now,
    ) {
        Some(e) => r == Err::<Sonyflake, Error>(e),
        None => exists|mid: Result<i32, Error>|
            machine_id_outcome(st.machine_id, interface_addrs, mid) && outcome_with_machine_id(
                st.check_machine_id,
                mid,
                effective_bits_sequence(st.bits_sequence as int),
                effective_bits_machine(st.bits_machine_id as int),
                effective_time_unit(st.time_unit.0 as int),
                start_units(effective_time_unit(st.time_unit.0 as int), st.start_time),
                r,
            ),
    }
}

/// What `new` answers once the machine ID is `id` and the uniqueness check has said `ok`.
pub open spec fn outcome_with_check(
    ok: bool,
    id: i32,
    bs: int,
    bm: int,
    tu: int,
    start: int,
    r: Result<Sonyflake, Error>,
) -> bool {
    if id < 0 || id >= p2(bm) {
        r == Err::<Sonyflake, Error>(Error::InvalidMachineId)
    } else if !ok {
        r == Err::<Sonyflake, Error>(Error::InvalidMachineId)
    } else {
        r matches Ok(sf) && sf.wf() && sf.bits_sequence_spec() == bs && sf.bits_machine_spec()
            == bm && sf.bits_time_spec() == 63 - bs - bm && sf.time_unit_spec() == tu
            && sf.start() == start && sf.elapsed() == 0 && sf.seq() == p2(bs) - 1 && sf.machine()
            == id
    }
}

/// What `new` answers once the machine-ID source has given `mid`.
pub open spec fn outcome_with_machine_id<C: Fn(i32) -> bool>(
    check: Option<C>,
    mid: Result<i32, Error>,
    bs: int,
    bm: int,
    tu: int,
    start: int,
    r: Result<Sonyflake, Error>,
) -> bool {
    match mid {
        Err(e) => r == Err::<Sonyflake, Error>(e),
        Ok(id) => if id < 0 || id >= p2(bm) {
            r == Err::<Sonyflake, Error>(Error::InvalidMachineId)
        } else {
            exists|ok: bool|
                check_outcome(check, id, ok) && outcome_with_check(ok, id, bs, bm, tu, start, r)
        },
    }
}

/// The result of the ID that a generator state stands for.
pub open spec fn id_result(
    elapsed: int,
    sequence: int,
    machine: int,
    bs: int,
    bm: int,
) -> Result<i64, Error> {
    if elapsed >= p2(63 - bs - bm) {
        Err(Error::OverTimeLimit)
    } else {
        Ok(id_of(elapsed, sequence, machine, bs, bm) as i64)
    }
}

/// How a generator moves on when asked for an ID at time `current` since its
/// start: to the current time with a fresh sequence, or to the next sequence
/// number, and to the next time unit when the sequence runs out.
pub open spec fn advance(elapsed: int, sequence: int, current: int, bs: int) -> (int, int) {
    if elapsed < current {
        (current, 0)
    } else if (sequence + 1) % p2(bs) == 0 {
        (elapsed + 1, 0)
    } else {
        (elapsed, (sequence + 1) % p2(bs))
    }
}

/// How long to wait, at instant `now`, until the time unit `overtime` units
/// of `time_unit` ahead of the current one begins.
pub open spec fn sleep_time_spec(overtime: int, time_unit: int, now: Time) -> int {
    gotime::wrap_i64(
        gotime::wrap_i64(overtime * time_unit) - gotime::truncated_rem(
            gotime::wrap_i64(now.total_nanos()) as int,
            time_unit,
        ),
    ) as int
}

/// Bound on the elapsed time below which a generator can still move on.
pub open spec fn elapsed_limit() -> int {
    0x4000_0000_0000_0000
}

/// One step of `next_id`: the ID, and how many time units ahead of the current
/// time it was stamped when the sequence ran out.
pub struct Step {
    pub id: Result<i64, Error>,
    pub overtime: Option<i64>,
}

/// An ID handed out by `next_id`, and how long to wait before using it when it
/// was stamped ahead of the clock.
pub struct Generated {
    pub id: Result<i64, Error>,
    pub sleep: Option<Duration>,
}

/// The parts of an ID, as Go's `Decompose` returns them in a map.
#[derive(Clone, Copy, Debug, PartialEq, Eq, Structural)]
pub struct IdParts {
    pub id: i64,
    pub time: i64,
    pub sequence: i64,
    pub machine: i64,
}

impl Sonyflake {
    #[verifier::type_invariant]
    spec fn inv(self) -> bool {
        &&& 1 <= self.bits_sequence <= 30
        &&& 1 <= self.bits_machine <= 30
        &&& self.bits_sequence + self.bits_machine <= 31
        &&& self.bits_time == 63 - self.bits_sequence - self.bits_machine
        &&& self.time_unit >= 1_000_000
        &&& -max_units() <= self.start_time <= max_units()
        &&& 0 <= self.elapsed_time
        &&& 0 <= self.sequence < p2(self.bits_sequence as int)
        &&& 0 <= self.machine < p2(self.bits_machine as int)
    }

    /// The generator is within range.
    pub closed spec fn wf(self) -> bool {
        self.inv()
    }

    /// The bit length of the sequence number.
    pub closed spec fn bits_sequence_spec(self) -> int {
        self.bits_sequence as int
    }

    /// The bit length of the machine ID.
    pub closed spec fn bits_machine_spec(self) -> int {
        self.bits_machine as int
    }

    /// The bit length of the time part.
    pub closed spec fn bits_time_spec(self) -> int {
        self.bits_time as int
    }

    /// The time unit, in nanoseconds.
    pub closed spec fn time_unit_spec(self) -> int {
        self.time_unit as int
    }

    /// The time the generator counts from, in its time unit.
    pub closed spec fn start(self) -> int {
        self.start_time as int
    }

    /// The time part of the last ID.
    pub closed spec fn elapsed(self) -> int {
        self.elapsed_time as int
    }

    /// The sequence number of the last ID.
    pub closed spec fn seq(self) -> int {
        self.sequence as int
    }

    /// The machine ID.
    pub closed spec fn machine(self) -> int {
        self.machine as int
    }

    /// Returns a new Sonyflake configured with the given settings, the time
    /// being `now`; `interface_addrs` lists the host's addresses for the
    /// default machine ID.
    ///
    /// Returns an error in the following cases:
    /// - `settings.bits_sequence` is less than 0 or greater than 30.
    /// - `settings.bits_machine_id` is less than 0 or greater than 30.
    /// - `settings.bits_sequence + settings.bits_machine_id` is 32 or more.
    /// - `settings.time_unit` is less than 1 msec.
    /// - `settings.start_time` is ahead of `now`.
    /// - `settings.machine_id` returns an error.
    /// - the machine ID does not fit its bits.
    /// - `settings.check_machine_id` returns false.
    pub fn new_at<M, C, F>(st: Settings<M, C>, now: Time, interface_addrs: &F) -> (r: Result<
        Sonyflake,
        Error,
    >) where M: Fn() -> Result<i32, Error>, C: Fn(i32) -> bool, F: Fn() -> Result<Vec<Addr>, Error>
        requires
            st.machine_id matches Some(m) ==> call_requires(m, ()),
            st.check_machine_id matches Some(c) ==> forall|id: i32| call_requires(c, (id,)),
            call_requires(*interface_addrs, ()),
        ensures
            new_outcome(st, now, *interface_addrs, r),
    {
        if st.bits_sequence < 0 || st.bits_sequence > 30 {
            return Err(Error::InvalidBitsSequence);
        }
        if st.bits_machine_id < 0 || st.bits_machine_id > 30 {
            return Err(Error::InvalidBitsMachineId);
        }
        if st.time_unit.0 < 0 || (st.time_unit.0 > 0 && st.time_unit.0 < 1_000_000) {
            return Err(Error::InvalidTimeUnit);
        }
        if let Some(start_time) = st.start_time {
            if gotime::after(start_time, now) {
                return Err(Error::StartTimeAhead);
            }
        }
        let bits_sequence = if st.bits_sequence == 0 {
            DEFAULT_BITS_SEQUENCE
        } else {
            st.bits_sequence
        };
        let bits_machine = if st.bits_machine_id == 0 {
            DEFAULT_BITS_MACHINE
        } else {
            st.bits_machine_id
        };
        let bits_time = 63 - bits_sequence - bits_machine;
        if bits_time < 32 {
            return Err(Error::InvalidBitsTime);
        }
        let time_unit = if st.time_unit.0 == 0 {
            DEFAULT_TIME_UNIT
        } else {
            st.time_unit.0
        };
        let start_time = match st.start_time {
            None => to_internal_time(time_unit, default_start_time()),
            Some(t) => to_internal_time(time_unit, t),
        };
        let ghost start = start_units(time_unit as int, st.start_time);
        proof {
            lemma_p2_bounds(bits_sequence as int);
            lemma_p2_bounds(bits_machine as int);
            lemma_p2_le(bits_sequence as int, 30);
            lemma2_to64();
        }
        let sequence = (pow2_i64(bits_sequence as u32) - 1) as i32;
        let machine_id = obtain_machine_id(&st.machine_id, interface_addrs);
        let ghost mid = machine_id;
        let machine = match machine_id {
            Ok(id) => id,
            Err(e) => {
                let r = Err(e);
                assert(outcome_with_machine_id(
                    st.check_machine_id,
                    mid,
                    bits_sequence as int,
                    bits_machine as int,
                    time_unit as int,
                    start,
                    r,
                ));
                return r;
            },
        };
        let limit = pow2_i64(bits_machine as u32);
        if machine < 0 || machine as i64 >= limit {
            let r = Err(Error::InvalidMachineId);
            assert(outcome_with_machine_id(
                st.check_machine_id,
                mid,
                bits_sequence as int,
                bits_machine as int,
                time_unit as int,
                start,
                r,
            ));
            return r;
        }
        let ok = check_machine_id(&st.check_machine_id, machine);
        proof {
            lemma_p2_bounds(bits_sequence as int);
        }
        let r = if !ok {
            Err(Error::InvalidMachineId)
        } else {
            Ok(
                Sonyflake {
                    bits_time,
                    bits_sequence,
                    bits_machine,
                    time_unit,
                    start_time,
                    elapsed_time: 0,
                    sequence,
                    machine,
                },
            )
        };
        assert(outcome_with_check(
            ok,
            machine,
            bits_sequence as int,
            bits_machine as int,
            time_unit as int,
            start,
            r,
        ));
        assert(outcome_with_machine_id(
            st.check_machine_id,
            mid,
            bits_sequence as int,
            bits_machine as int,
            time_unit as int,
            start,
            r,
        ));
        r
    }

    /// Returns a new Sonyflake configured with the given settings, as of the
    /// current time; `interface_addrs` lists the host's addresses for the
    /// default machine ID.
    pub fn new<M, C, F>(st: Settings<M, C>, interface_addrs: &F) -> (r: Result<Sonyflake, Error>) where
        M: Fn() -> Result<i32, Error>,
        C: Fn(i32) -> bool,
        F: Fn() -> Result<Vec<Addr>, Error>,

        requires
            st.machine_id matches Some(m) ==> call_requires(m, ()),
            st.check_machine_id matches Some(c) ==> forall|id: i32| call_requires(c, (id,)),
            call_requires(*interface_addrs, ()),
        ensures
            exists|now: Time| now.seconds() >= 0 && new_outcome(st, now, *interface_addrs, r),
    {
        let now = gotime::now();
        Sonyflake::new_at(st, now, interface_addrs)
    }

    /// The ID of the current state, or `OverTimeLimit` once the time part no
    /// longer fits its bits.
    pub fn to_id(&self) -> (r: Result<i64, Error>)
        ensures
            r == id_result(
                self.elapsed(),
                self.seq(),
                self.machine(),
                self.bits_sequence_spec(),
                self.bits_machine_spec(),
            ),
    {
        proof {
            use_type_invariant(self);
        }
        if self.elapsed_time >= pow2_i64(self.bits_time as u32) {
            return Err(Error::OverTimeLimit);
        }
        Ok(compose_id(self.elapsed_time, self.sequence, self.machine, self.bits_sequence, self.bits_machine))
    }

    /// Moves on to the next ID at time `current` since the start, in time units.
    pub fn next_id_at(&mut self, current: i64) -> (step: Step)
        requires
            -2 * max_units() <= current <= 2 * max_units(),
            old(self).elapsed() < elapsed_limit(),
        ensures
            (final(self).elapsed(), final(self).seq()) == advance(
                old(self).elapsed(),
                old(self).seq(),
                current as int,
                old(self).bits_sequence_spec(),
            ),
            final(self).start() == old(self).start(),
            final(self).machine() == old(self).machine(),
            final(self).bits_sequence_spec() == old(self).bits_sequence_spec(),
            final(self).bits_machine_spec() == old(self).bits_machine_spec(),
            final(self).bits_time_spec() == old(self).bits_time_spec(),
            final(self).time_unit_spec() == old(self).time_unit_spec(),
            step.id == id_result(
                final(self).elapsed(),
                final(self).seq(),
                final(self).machine(),
                final(self).bits_sequence_spec(),
                final(self).bits_machine_spec(),
            ),
            step.overtime == (if old(self).elapsed() >= current && final(self).seq() == 0 {
                Some((final(self).elapsed() - current) as i64)
            } else {
                None::<i64>
            }),
    {
        proof {
            use_type_invariant(&*self);
            lemma_p2_bounds(self.bits_sequence as int);
            lemma_p2_le(self.bits_sequence as int, 30);
            lemma2_to64();
        }
        let modulus = pow2_i64(self.bits_sequence as u32);
        let mut overtime: Option<i64> = None;
        if self.elapsed_time < current {
            self.elapsed_time = current;
            self.sequence = 0;
        } else {
            let next = floor_mod(self.sequence as i64 + 1, modulus);
            self.sequence = next as i32;
            if self.sequence == 0 {
                self.elapsed_time = self.elapsed_time + 1;
                overtime = Some(self.elapsed_time - current);
            }
        }
        let id = self.to_id();
        Step { id, overtime }
    }

    /// Returns the time elapsed since the start at the current time, in time units.
    pub fn current_elapsed_time(&self) -> (r: i64)
        ensures
            -2 * max_units() <= r <= 2 * max_units(),
            exists|now: Time|
                now.seconds() >= 0 && r == internal_time(self.time_unit_spec(), now) - self.start(),
    {
        proof {
            use_type_invariant(self);
        }
        let now = gotime::now();
        to_internal_time(self.time_unit, now) - self.start_time
    }

    /// How long to wait, at instant `now`, for the `overtime` time units ahead.
    pub fn sleep_time_at(&self, overtime: i64, now: Time) -> (d: Duration)
        ensures
            d.0 == sleep_time_spec(overtime as int, self.time_unit_spec(), now),
    {
        proof {
            use_type_invariant(self);
        }
        let rem = match gotime::unix_nano(now).checked_rem(self.time_unit) {
            Some(r) => r,
            None => 0,
        };
        Duration(overtime.wrapping_mul(self.time_unit)) - Duration(rem)
    }

    /// Generates the next ID as of the current time. Where the sequence has run
    /// out within the current time unit, the ID is stamped with the next time
    /// unit and `sleep` says how long to wait for it to begin.
    pub fn next_id(&mut self) -> (g: Generated)
        requires
            old(self).elapsed() < elapsed_limit(),
        ensures
            final(self).start() == old(self).start(),
            final(self).machine() == old(self).machine(),
            final(self).bits_sequence_spec() == old(self).bits_sequence_spec(),
            final(self).bits_machine_spec() == old(self).bits_machine_spec(),
            final(self).bits_time_spec() == old(self).bits_time_spec(),
            final(self).time_unit_spec() == old(self).time_unit_spec(),
            g.id == id_result(
                final(self).elapsed(),
                final(self).seq(),
                final(self).machine(),
                final(self).bits_sequence_spec(),
                final(self).bits_machine_spec(),
            ),
            exists|now: Time|
                {
                    let current = #[trigger] internal_time(old(self).time_unit_spec(), now) - old(
                        self,
                    ).start();
                    &&& now.seconds() >= 0
                    &&& (final(self).elapsed(), final(self).seq()) == advance(
                        old(self).elapsed(),
                        old(self).seq(),
                        current,
                        old(self).bits_sequence_spec(),
                    )
                    &&& (g.sleep is Some <==> (old(self).elapsed() >= current && final(self).seq()
                        == 0))
                    &&& (g.sleep matches Some(d) ==> exists|later: Time|
                        d.0 == #[trigger] sleep_time_spec(
                            final(self).elapsed() - current,
                            final(self).time_unit_spec(),
                            later,
                        ))
                },
    {
        let current = self.current_elapsed_time();
        let ghost now = choose|now: Time|
            now.seconds() >= 0 && current == internal_time(self.time_unit_spec(), now) - self.start();
        let step = self.next_id_at(current);
        let sleep = match step.overtime {
            Some(overtime) => {
                let later = gotime::now();
                Some(self.sleep_time_at(overtime, later))
            },
            None => None,
        };
        let g = Generated { id: step.id, sleep };
        assert(now.seconds() >= 0 && current == internal_time(old(self).time_unit_spec(), now) - old(
            self,
        ).start());
        assert((self.elapsed(), self.seq()) == advance(
            old(self).elapsed(),
            old(self).seq(),
            current as int,
            old(self).bits_sequence_spec(),
        ) && (g.sleep is Some <==> (old(self).elapsed() >= current && self.seq() == 0)) && (
        g.sleep matches Some(d) ==> exists|later: Time|
            d.0 == #[trigger] sleep_time_spec(self.elapsed() - current, self.time_unit_spec(), later)));
        g
    }

    /// The time part of an ID.
    pub fn time_part(&self, id: i64) -> (t: i64)
        ensures
            t == time_part_of(id as int, self.bits_sequence_spec(), self.bits_machine_spec()),
    {
        proof {
            use_type_invariant(self);
            lemma_p2_bounds((self.bits_sequence + self.bits_machine) as int);
        }
        floor_div(id, pow2_i64((self.bits_sequence + self.bits_machine) as u32))
    }

    /// The sequence part of an ID.
    pub fn sequence_part(&self, id: i64) -> (s: i64)
        ensures
            s == sequence_part_of(id as int, self.bits_sequence_spec(), self.bits_machine_spec()),
    {
        proof {
            use_type_invariant(self);
            lemma_p2_bounds(self.bits_sequence as int);
            lemma_p2_bounds(self.bits_machine as int);
        }
        floor_mod(
            floor_div(id, pow2_i64(self.bits_machine as u32)),
            pow2_i64(self.bits_sequence as u32),
        )
    }

    /// The machine part of an ID.
    pub fn machine_part(&self, id: i64) -> (m: i64)
        ensures
            m == machine_part_of(id as int, self.bits_machine_spec()),
    {
        proof {
            use_type_invariant(self);
            lemma_p2_bounds(self.bits_machine as int);
        }
        floor_mod(id, pow2_i64(self.bits_machine as u32))
    }

    /// Returns the time when the given ID was generated: the start time plus
    /// its time part, in time units.
    pub fn to_time(&self, id: i64) -> (t: Time)
        requires
            i64::MIN <= (self.start() + time_part_of(
                id as int,
                self.bits_sequence_spec(),
                self.bits_machine_spec(),
            )) * self.time_unit_spec() <= i64::MAX,
        ensures
            t.total_nanos() == (self.start() + time_part_of(
                id as int,
                self.bits_sequence_spec(),
                self.bits_machine_spec(),
            )) * self.time_unit_spec(),
    {
        proof {
            use_type_invariant(self);
        }
        let part = self.time_part(id);
        proof {
            let bs = self.bits_sequence as int;
            let bm = self.bits_machine as int;
            lemma_p2_le(1, bs + bm);
            lemma2_to64();
            lemma_quotient_bound(id as int, p2(bs + bm));
        }
        let units = self.start_time + part;
        let nanos = units * self.time_unit;
        match gotime::checked_unix(0, nanos) {
            Some(t) => t,
            None => {
                assert(false);
                gotime::now()
            },
        }
    }

    /// Creates an ID from its parts: the time it was generated, its sequence
    /// number and its machine ID.
    pub fn compose(&self, t: Time, sequence: i32, machine_id: i32) -> (r: Result<i64, Error>)
        ensures
            r == compose_result(
                self.start(),
                internal_time(self.time_unit_spec(), t),
                sequence as int,
                machine_id as int,
                self.bits_sequence_spec(),
                self.bits_machine_spec(),
            ),
    {
        proof {
            use_type_invariant(self);
        }
        let elapsed_time = to_internal_time(self.time_unit, t) - self.start_time;
        if elapsed_time < 0 {
            return Err(Error::StartTimeAhead);
        }
        if elapsed_time >= pow2_i64(self.bits_time as u32) {
            return Err(Error::OverTimeLimit);
        }
        if sequence < 0 || sequence as i64 >= pow2_i64(self.bits_sequence as u32) {
            return Err(Error::InvalidSequence);
        }
        if machine_id < 0 || machine_id as i64 >= pow2_i64(self.bits_machine as u32) {
            return Err(Error::InvalidMachineId);
        }
        Ok(compose_id(elapsed_time, sequence, machine_id, self.bits_sequence, self.bits_machine))
    }

    /// Returns the parts of an ID.
    pub fn decompose(&self, id: i64) -> (p: IdParts)
        ensures
            p.id == id,
            p.time == time_part_of(id as int, self.bits_sequence_spec(), self.bits_machine_spec()),
            p.sequence == sequence_part_of(
                id as int,
                self.bits_sequence_spec(),
                self.bits_machine_spec(),
            ),
            p.machine == machine_part_of(id as int, self.bits_machine_spec()),
    {
        IdParts {
            id,
            time: self.time_part(id),
            sequence: self.sequence_part(id),
            machine: self.machine_part(id),
        }
    }

    /// The time unit this instance was configured with.
    pub fn time_unit(&self) -> (d: Duration)
        ensures
            d.0 == self.time_unit_spec(),
            d.0 >= 1_000_000,
    {
        proof {
            use_type_invariant(self);
        }
        Duration(self.time_unit)
    }

    /// The bit length of the sequence number of this instance.
    pub fn bits_sequence(&self) -> (b: i32)
        ensures
            b == self.bits_sequence_spec(),
            1 <= b <= 30,
    {
        proof {
            use_type_invariant(self);
        }
        self.bits_sequence
    }

    /// The bit length of the machine ID of this instance.
    pub fn bits_machine(&self) -> (b: i32)
        ensures
            b == self.bits_machine_spec(),
            1 <= b <= 30,
    {
        proof {
            use_type_invariant(self);
        }
        self.bits_machine
    }

    /// The bit length of the time part of this instance.
    pub fn bits_time(&self) -> (b: i32)
        ensures
            b == self.bits_time_spec(),
            b == 63 - self.bits_sequence_spec() - self.bits_machine_spec(),
            b >= 32,
    {
        proof {
            use_type_invariant(self);
        }
        self.bits_time
    }

    /// The time the generator counts from, in its time unit.
    pub fn start_time(&self) -> (s: i64)
        ensures
            s == self.start(),
            -max_units() <= s <= max_units(),
    {
        proof {
            use_type_invariant(self);
        }
        self.start_time
    }

    /// The time part of the last ID.
    pub fn elapsed_time(&self) -> (e: i64)
        ensures
            e == self.elapsed(),
            e >= 0,
    {
        proof {
            use_type_invariant(self);
        }
        self.elapsed_time
    }

    /// Moves the start time `units` time units back, as if that much time had passed.
    pub fn sub_start_time(&mut self, units: i64)
        requires
            -max_units() <= old(self).start() - units <= max_units(),
        ensures
            final(self).start() == old(self).start() - units,
            final(self).elapsed() == old(self).elapsed(),
            final(self).seq() == old(self).seq(),
            final(self).machine() == old(self).machine(),
            final(self).bits_sequence_spec() == old(self).bits_sequence_spec(),
            final(self).bits_machine_spec() == old(self).bits_machine_spec(),
            final(self).time_unit_spec() == old(self).time_unit_spec(),
    {
        proof {
            use_type_invariant(&*self);
        }
        self.start_time = self.start_time - units;
    }

    /// Converts an instant into the time unit of this instance.
    pub fn to_internal_time(&self, t: Time) -> (r: i64)
        ensures
            r == internal_time(self.time_unit_spec(), t),
    {
        proof {
            use_type_invariant(self);
        }
        to_internal_time(self.time_unit, t)
    }
}

/// What `compose` returns for a generator's start and bit lengths, the time
/// `internal` of the instant in its unit, and the parts.
pub open spec fn compose_result(
    start: int,
    internal: int,
    sequence: int,
    machine_id: int,
    bs: int,
    bm: int,
) -> Result<i64, Error> {
    let elapsed = internal - start;
    if elapsed < 0 {
        Err(Error::StartTimeAhead)
    } else if elapsed >= p2(63 - bs - bm) {
        Err(Error::OverTimeLimit)
    } else if sequence < 0 || sequence >= p2(bs) {
        Err(Error::InvalidSequence)
    } else if machine_id < 0 || machine_id >= p2(bm) {
        Err(Error::InvalidMachineId)
    } else {
        Ok(id_of(elapsed, sequence, machine_id, bs, bm) as i64)
    }
}

/// Packs the parts into an ID.
fn compose_id(elapsed: i64, sequence: i32, machine: i32, bs: i32, bm: i32) -> (id: i64)
    requires
        1 <= bs <= 30,
        1 <= bm <= 30,
        bs + bm <= 31,
        0 <= elapsed < p2(63 - bs - bm),
        0 <= sequence < p2(bs as int),
        0 <= machine < p2(bm as int),
    ensures
        id == id_of(elapsed as int, sequence as int, machine as int, bs as int, bm as int),
{
    proof {
        lemma_id_bounds(elapsed as int, sequence as int, machine as int, bs as int, bm as int);
        lemma_p2_bounds((bs + bm) as int);
        lemma_p2_bounds(bm as int);
        lemma_pow2_adds(bs as nat, bm as nat);
        lemma_pow2_pos(bs as nat);
        lemma_pow2_pos(bm as nat);
    }
    let pe = pow2_i64((bs + bm) as u32);
    let pm = pow2_i64(bm as u32);
    let high = elapsed * pe;
    let middle = sequence as i64 * pm;
    high + middle + machine as i64
}

/// The default start time, 2025-01-01 00:00:00 UTC.
fn default_start_time() -> (t: Time)
    ensures
        t.total_nanos() == gotime::utc_civil_seconds(2025, 1, 1, 0, 0, 0).unwrap()
            * gotime::nanos_per_second(),
{
    assert(gotime::valid_civil(2025, 1, 1, 0, 0, 0));
    match gotime::checked_date(2025, 1, 1, 0, 0, 0, 0) {
        Some(t) => t,
        None => {
            assert(false);
            gotime::now()
        },
    }
}

/// The machine ID from the callback, or else from the host's private address.
fn obtain_machine_id<M, F>(source: &Option<M>, interface_addrs: &F) -> (r: Result<i32, Error>) where
    M: Fn() -> Result<i32, Error>,
    F: Fn() -> Result<Vec<Addr>, Error>,

    requires
        source matches Some(m) ==> call_requires(m, ()),
        call_requires(*interface_addrs, ()),
    ensures
        machine_id_outcome(*source, *interface_addrs, r),
{
    reveal(machine_id_outcome);
    match source {
        None => lower16_bit_private_ip(interface_addrs),
        Some(machine_id) => machine_id(),
    }
}

/// What the uniqueness check says of `id`; with no check, it passes.
fn check_machine_id<C: Fn(i32) -> bool>(check: &Option<C>, id: i32) -> (ok: bool)
    requires
        check matches Some(c) ==> forall|id: i32| call_requires(c, (id,)),
    ensures
        check_outcome(*check, id, ok),
{
    reveal(check_outcome);
    match check {
        Some(c) => c(id),
        None => true,
    }
}

// ---------------------------------------------------------------------------
// The machine ID from the host's private address
// ---------------------------------------------------------------------------

/// What `private_ipv4` answers to the interface addresses: the first private
/// IPv4 address, `NoPrivateAddress` without one, the error of a failed listing.
pub open spec fn private_ipv4_result(addrs: Result<Vec<Addr>, Error>) -> Result<Seq<u8>, Error> {
    match addrs {
        Err(e) => Err(e),
        Ok(v) => match first_private_ipv4(v@) {
            Some(b) => Ok(b),
            None => Err(Error::NoPrivateAddress),
        },
    }
}

/// The bytes of the address a result holds, or its error.
pub open spec fn ip_result_bytes(r: Result<Ip, Error>) -> Result<Seq<u8>, Error> {
    match r {
        Ok(ip) => Ok(ip.0@),
        Err(e) => Err(e),
    }
}

/// Go's `privateIPv4`: lists the interface addresses and picks the first
/// private IPv4 address.
pub fn private_ipv4<F: Fn() -> Result<Vec<Addr>, Error>>(interface_addrs: &F) -> (r: Result<
    Ip,
    Error,
>)
    requires
        call_requires(*interface_addrs, ()),
    ensures
        exists|a: Result<Vec<Addr>, Error>|
            call_ensures(*interface_addrs, (), a) && ip_result_bytes(r) == private_ipv4_result(a),
{
    let listed = interface_addrs();
    let ghost g = listed;
    let r = match listed {
        Ok(addrs) => match first_private_address(&addrs) {
            Some(ip) => Ok(ip),
            None => Err(Error::NoPrivateAddress),
        },
        Err(e) => Err(e),
    };
    assert(call_ensures(*interface_addrs, (), g) && ip_result_bytes(r) == private_ipv4_result(g));
    r
}

/// What `lower16_bit_private_ip` answers to the interface addresses.
pub open spec fn lower16_result(addrs: Result<Vec<Addr>, Error>) -> Result<i32, Error> {
    match private_ipv4_result(addrs) {
        Ok(b) => Ok(lower16(b) as i32),
        Err(e) => Err(e),
    }
}

/// Go's `lower16BitPrivateIP`: the lower 16 bits of the first private IPv4 address.
pub fn lower16_bit_private_ip<F: Fn() -> Result<Vec<Addr>, Error>>(interface_addrs: &F) -> (r:
    Result<i32, Error>)
    requires
        call_requires(*interface_addrs, ()),
    ensures
        exists|a: Result<Vec<Addr>, Error>|
            call_ensures(*interface_addrs, (), a) && r == lower16_result(a),
{
    let ip = private_ipv4(interface_addrs);
    let ghost a = choose|a: Result<Vec<Addr>, Error>|
        call_ensures(*interface_addrs, (), a) && ip_result_bytes(ip) == private_ipv4_result(a);
    match ip {
        Ok(ip) => {
            proof {
                if let Ok(v) = a {
                    lemma_first_private_is_v4(v@);
                }
            }
            let b = ip.as_bytes();
            let r = ((b[2] as i32) * 256) + b[3] as i32;
            assert(Ok::<i32, Error>(r) == lower16_result(a));
            Ok(r)
        },
        Err(e) => {
            assert(Err::<i32, Error>(e) == lower16_result(a));
            Err(e)
        },
    }
}

// ---------------------------------------------------------------------------
// Laws
// ---------------------------------------------------------------------------

/// Decomposing a composed ID gives back its parts: the time elapsed from the
/// start to the instant, the sequence number and the machine ID; the ID is
/// not negative.
pub proof fn lemma_compose_decompose(
    start: int,
    internal: int,
    sequence: int,
    machine_id: int,
    bs: int,
    bm: int,
)
    requires
        1 <= bs <= 30,
        1 <= bm <= 30,
        bs + bm <= 31,
        compose_result(start, internal, sequence, machine_id, bs, bm) is Ok,
    ensures
        ({
            let id = compose_result(start, internal, sequence, machine_id, bs, bm)->Ok_0 as int;
            &&& 0 <= id
            &&& time_part_of(id, bs, bm) == internal - start
            &&& sequence_part_of(id, bs, bm) == sequence
            &&& machine_part_of(id, bm) == machine_id
        }),
{
    let elapsed = internal - start;
    lemma_id_bounds(elapsed, sequence, machine_id, bs, bm);
    lemma_parts_of_id(elapsed, sequence, machine_id, bs, bm);
}

/// The parts of an ID that a generator state stands for are its time,
/// sequence and machine ID.
pub proof fn lemma_generated_parts(elapsed: int, sequence: int, machine: int, bs: int, bm: int)
    requires
        1 <= bs <= 30,
        1 <= bm <= 30,
        bs + bm <= 31,
        0 <= elapsed,
        0 <= sequence < p2(bs),
        0 <= machine < p2(bm),
        id_result(elapsed, sequence, machine, bs, bm) is Ok,
    ensures
        ({
            let id = id_result(elapsed, sequence, machine, bs, bm)->Ok_0 as int;
            &&& 0 <= id
            &&& time_part_of(id, bs, bm) == elapsed
            &&& sequence_part_of(id, bs, bm) == sequence
            &&& machine_part_of(id, bm) == machine
        }),
{
    lemma_id_bounds(elapsed, sequence, machine, bs, bm);
    lemma_parts_of_id(elapsed, sequence, machine, bs, bm);
}

/// Every ID `next_id` hands out is larger than the one before: the time and
/// sequence of a generator increase with every step, whatever the clock says,
/// and the ID grows with them.
pub proof fn lemma_next_id_increases(
    elapsed: int,
    sequence: int,
    machine: int,
    current: int,
    bs: int,
    bm: int,
)
    requires
        1 <= bs <= 30,
        1 <= bm <= 30,
        bs + bm <= 31,
        0 <= elapsed,
        0 <= sequence < p2(bs),
        0 <= machine < p2(bm),
    ensures
        ({
            let (e2, s2) = advance(elapsed, sequence, current, bs);
            &&& 0 <= s2 < p2(bs)
            &&& e2 * p2(bs) + s2 > elapsed * p2(bs) + sequence
            &&& (id_result(elapsed, sequence, machine, bs, bm) is Ok && id_result(
                e2,
                s2,
                machine,
                bs,
                bm,
            ) is Ok ==> id_result(elapsed, sequence, machine, bs, bm)->Ok_0 < id_result(
                e2,
                s2,
                machine,
                bs,
                bm,
            )->Ok_0)
        }),
{
    let pb = p2(bs);
    let pm = p2(bm);
    lemma_pow2_pos(bs as nat);
    lemma_pow2_pos(bm as nat);
    lemma_pow2_adds(bs as nat, bm as nat);
    let (e2, s2) = advance(elapsed, sequence, current, bs);
    if sequence + 1 == pb {
        vstd::arithmetic::div_mod::lemma_mod_self_0(pb);
    } else {
        vstd::arithmetic::div_mod::lemma_small_mod((sequence + 1) as nat, pb as nat);
    }
    assert(0 <= s2 < pb);
    assert(e2 * pb + s2 > elapsed * pb + sequence) by (nonlinear_arith)
        requires
            (e2 == current && s2 == 0 && elapsed < current) || (e2 == elapsed + 1 && s2 == 0
                && sequence < pb) || (e2 == elapsed && s2 == sequence + 1),
            0 <= sequence < pb,
    ;
    let lo = elapsed * pb + sequence;
    let hi = e2 * pb + s2;
    assert(id_of(elapsed, sequence, machine, bs, bm) == lo * pm + machine) by (nonlinear_arith)
        requires
            id_of(elapsed, sequence, machine, bs, bm) == elapsed * p2(bs + bm) + sequence * pm
                + machine,
            p2(bs + bm) == pb * pm,
            lo == elapsed * pb + sequence,
    ;
    assert(id_of(e2, s2, machine, bs, bm) == hi * pm + machine) by (nonlinear_arith)
        requires
            id_of(e2, s2, machine, bs, bm) == e2 * p2(bs + bm) + s2 * pm + machine,
            p2(bs + bm) == pb * pm,
            hi == e2 * pb + s2,
    ;
    assert(lo * pm < hi * pm) by (nonlinear_arith)
        requires
            lo < hi,
            pm >= 1,
    ;
    if id_result(elapsed, sequence, machine, bs, bm) is Ok && id_result(e2, s2, machine, bs, bm) is Ok {
        lemma_id_bounds(elapsed, sequence, machine, bs, bm);
        assert(e2 >= 0);
        lemma_id_bounds(e2, s2, machine, bs, bm);
    }
}

/// After a step the generator's time is never behind the current time, and it
/// moves at most one unit past the later of its own time and the current
/// time: that only when its sequence ran out, which is when `next_id` asks to
/// wait.
pub proof fn lemma_advance_not_behind(elapsed: int, sequence: int, current: int, bs: int)
    requires
        0 <= sequence < p2(bs),
    ensures
        ({
            let (e2, s2) = advance(elapsed, sequence, current, bs);
            let later = if elapsed > current {
                elapsed
            } else {
                current
            };
            &&& e2 >= current
            &&& e2 <= later + 1
            &&& e2 == later + 1 ==> s2 == 0 && elapsed >= current
        }),
{
}

/// The first ID of a new generator has sequence number 0, whatever the clock
/// says: a new generator starts at time 0 with its sequence run out.
pub proof fn lemma_first_id_has_sequence_zero(current: int, bs: int)
    requires
        1 <= bs <= 30,
    ensures
        advance(0, p2(bs) - 1, current, bs).1 == 0,
{
    lemma_pow2_pos(bs as nat);
    vstd::arithmetic::div_mod::lemma_mod_self_0(p2(bs));
}

/// The states a generator passes through when asked for IDs at the current
/// times `currents`, one after the other: its time and sequence after each step.
pub open spec fn states_after(elapsed: int, sequence: int, currents: Seq<int>, bs: int) -> Seq<
    (int, int),
>
    decreases currents.len(),
{
    if currents.len() == 0 {
        Seq::empty()
    } else {
        let next = advance(elapsed, sequence, currents[0], bs);
        seq![next] + states_after(next.0, next.1, currents.drop_first(), bs)
    }
}

/// Along a run the time and sequence, read as one number, strictly increase,
/// and stay within their bounds.
proof fn lemma_states_increase(elapsed: int, sequence: int, currents: Seq<int>, bs: int)
    requires
        1 <= bs <= 30,
        0 <= elapsed,
        0 <= sequence < p2(bs),
    ensures
        ({
            let st = states_after(elapsed, sequence, currents, bs);
            &&& st.len() == currents.len()
            &&& forall|k: int|
                0 <= k < st.len() ==> 0 <= (#[trigger] st[k]).0 && 0 <= st[k].1 < p2(bs) && st[k].0
                    * p2(bs) + st[k].1 > elapsed * p2(bs) + sequence
            &&& forall|i: int, j: int|
                0 <= i < j < st.len() ==> (#[trigger] st[i]).0 * p2(bs) + st[i].1 < (
                #[trigger] st[j]).0 * p2(bs) + st[j].1
        }),
    decreases currents.len(),
{
    if currents.len() > 0 {
        let next = advance(elapsed, sequence, currents[0], bs);
        lemma_pow2_pos(1);
        lemma_next_id_increases(elapsed, sequence, 0, currents[0], bs, 1);
        assert(next.0 >= 0);
        lemma_states_increase(next.0, next.1, currents.drop_first(), bs);
        let rest = states_after(next.0, next.1, currents.drop_first(), bs);
        let st = states_after(elapsed, sequence, currents, bs);
        assert(st == seq![next] + rest);
        assert forall|k: int| 0 <= k < st.len() implies 0 <= (#[trigger] st[k]).0 && 0 <= st[k].1
            < p2(bs) && st[k].0 * p2(bs) + st[k].1 > elapsed * p2(bs) + sequence by {
            if k > 0 {
                assert(st[k] == rest[k - 1]);
            }
        }
        assert forall|i: int, j: int| 0 <= i < j < st.len() implies (#[trigger] st[i]).0 * p2(bs)
            + st[i].1 < (#[trigger] st[j]).0 * p2(bs) + st[j].1 by {
            assert(st[j] == rest[j - 1]);
            if i > 0 {
                assert(st[i] == rest[i - 1]);
            }
        }
    }
}

/// The IDs one generator hands out, one call after another, strictly
/// increase, whatever the clock says at each call: of the states it passes
/// through, every two whose IDs are not over the time limit have IDs in the
/// order of the calls.
pub proof fn lemma_ids_increase_along_a_run(
    elapsed: int,
    sequence: int,
    machine: int,
    currents: Seq<int>,
    bs: int,
    bm: int,
)
    requires
        1 <= bs <= 30,
        1 <= bm <= 30,
        bs + bm <= 31,
        0 <= elapsed,
        0 <= sequence < p2(bs),
        0 <= machine < p2(bm),
    ensures
        ({
            let st = states_after(elapsed, sequence, currents, bs);
            forall|i: int, j: int|
                0 <= i < j < st.len() && id_result(st[i].0, st[i].1, machine, bs, bm) is Ok
                    && id_result(st[j].0, st[j].1, machine, bs, bm) is Ok ==> (#[trigger] id_result(
                    st[i].0,
                    st[i].1,
                    machine,
                    bs,
                    bm,
                ))->Ok_0 < (#[trigger] id_result(st[j].0, st[j].1, machine, bs, bm))->Ok_0
        }),
{
    let st = states_after(elapsed, sequence, currents, bs);
    lemma_states_increase(elapsed, sequence, currents, bs);
    let pb = p2(bs);
    let pm = p2(bm);
    lemma_pow2_pos(bm as nat);
    lemma_pow2_adds(bs as nat, bm as nat);
    assert forall|i: int, j: int|
        0 <= i < j < st.len() && id_result(st[i].0, st[i].1, machine, bs, bm) is Ok && id_result(
            st[j].0,
            st[j].1,
            machine,
            bs,
            bm,
        ) is Ok implies (#[trigger] id_result(st[i].0, st[i].1, machine, bs, bm))->Ok_0 < (
    #[trigger] id_result(st[j].0, st[j].1, machine, bs, bm))->Ok_0 by {
        let (e1, s1) = st[i];
        let (e2, s2) = st[j];
        assert(0 <= e1 && 0 <= s1 < pb && 0 <= e2 && 0 <= s2 < pb);
        assert(e1 * pb + s1 < e2 * pb + s2);
        lemma_id_bounds(e1, s1, machine, bs, bm);
        lemma_id_bounds(e2, s2, machine, bs, bm);
        let lo = e1 * pb + s1;
        let hi = e2 * pb + s2;
        assert(id_of(e1, s1, machine, bs, bm) == lo * pm + machine) by (nonlinear_arith)
            requires
                id_of(e1, s1, machine, bs, bm) == e1 * p2(bs + bm) + s1 * pm + machine,
                p2(bs + bm) == pb * pm,
                lo == e1 * pb + s1,
        ;
        assert(id_of(e2, s2, machine, bs, bm) == hi * pm + machine) by (nonlinear_arith)
            requires
                id_of(e2, s2, machine, bs, bm) == e2 * p2(bs + bm) + s2 * pm + machine,
                p2(bs + bm) == pb * pm,
                hi == e2 * pb + s2,
        ;
        assert(lo * pm < hi * pm) by (nonlinear_arith)
            requires
                lo < hi,
                pm >= 1,
        ;
    }
}

/// Two generators with different machine IDs never hand out the same ID.
pub proof fn lemma_machines_never_collide(
    e1: int,
    s1: int,
    m1: int,
    e2: int,
    s2: int,
    m2: int,
    bs: int,
    bm: int,
)
    requires
        1 <= bs <= 30,
        1 <= bm <= 30,
        bs + bm <= 31,
        0 <= e1,
        0 <= e2,
        0 <= s1 < p2(bs),
        0 <= s2 < p2(bs),
        0 <= m1 < p2(bm),
        0 <= m2 < p2(bm),
        m1 != m2,
        id_result(e1, s1, m1, bs, bm) is Ok,
        id_result(e2, s2, m2, bs, bm) is Ok,
    ensures
        id_result(e1, s1, m1, bs, bm) != id_result(e2, s2, m2, bs, bm),
{
    lemma_generated_parts(e1, s1, m1, bs, bm);
    lemma_generated_parts(e2, s2, m2, bs, bm);
}

/// Waiting as `next_id` says brings the clock to the start of the time unit
/// the ID was stamped with: reading the clock at `later`, no earlier than the
/// reading that gave `current`, and waiting `sleep_time_spec(overtime, ..)`
/// ends at the start of unit `internal_time(later) + overtime`, which is at or
/// after the ID's time `start + current + overtime`. The instant is taken
/// since 1970 and the wait within `i64`.
pub proof fn lemma_wait_reaches_id_time(
    start: int,
    current: int,
    overtime: int,
    time_unit: int,
    later: Time,
)
    requires
        time_unit >= 1,
        gotime::wrap_i64(later.total_nanos()) >= 0,
        0 <= overtime * time_unit <= i64::MAX,
        internal_time(time_unit, later) - start >= current,
    ensures
        ({
            let n = gotime::wrap_i64(later.total_nanos()) as int;
            let end = n + sleep_time_spec(overtime, time_unit, later);
            &&& end == (internal_time(time_unit, later) + overtime) * time_unit
            &&& (start + current + overtime) * time_unit <= end
        }),
{
    let n = gotime::wrap_i64(later.total_nanos()) as int;
    let o = overtime * time_unit;
    gotime::lemma_wrap_in_range(o);
    let r = gotime::truncated_rem(n, time_unit);
    let q = internal_time(time_unit, later);
    vstd::arithmetic::div_mod::lemma_fundamental_div_mod(n, time_unit);
    vstd::arithmetic::div_mod::lemma_mod_bound(n, time_unit);
    if n == 0 {
        assert(r == 0 && q == 0);
    } else {
        assert(r == n % time_unit && q == n / time_unit);
    }
    gotime::lemma_wrap_in_range(o - r);
    assert(n + (o - r) == (q + overtime) * time_unit) by (nonlinear_arith)
        requires
            n == time_unit * q + r,
            o == overtime * time_unit,
    ;
    assert((start + current + overtime) * time_unit <= (q + overtime) * time_unit) by (nonlinear_arith)
        requires
            q - start >= current,
            time_unit >= 1,
    ;
}

/// The time `to_time` gives for a composed ID is the instant it was composed
/// from, truncated toward zero to a whole number of time units; that product
/// always fits the nanoseconds `to_time` works in.
pub proof fn lemma_to_time_of_compose(
    start: int,
    t: Time,
    sequence: int,
    machine_id: int,
    bs: int,
    bm: int,
    time_unit: int,
)
    requires
        1 <= bs <= 30,
        1 <= bm <= 30,
        bs + bm <= 31,
        time_unit >= 1,
        compose_result(start, internal_time(time_unit, t), sequence, machine_id, bs, bm) is Ok,
    ensures
        ({
            let id = compose_result(
                start,
                internal_time(time_unit, t),
                sequence,
                machine_id,
                bs,
                bm,
            )->Ok_0 as int;
            let back = (start + time_part_of(id, bs, bm)) * time_unit;
            &&& back == gotime::truncated_div(gotime::wrap_i64(t.total_nanos()) as int, time_unit)
                * time_unit
            &&& i64::MIN <= back <= i64::MAX
        }),
{
    lemma_compose_decompose(start, internal_time(time_unit, t), sequence, machine_id, bs, bm);
    let n = gotime::wrap_i64(t.total_nanos()) as int;
    let q = gotime::truncated_div(n, time_unit);
    if n > 0 {
        vstd::arithmetic::div_mod::lemma_fundamental_div_mod(n, time_unit);
        vstd::arithmetic::div_mod::lemma_mod_bound(n, time_unit);
        assert(0 <= q * time_unit <= n) by (nonlinear_arith)
            requires
                n == time_unit * q + n % time_unit,
                0 <= n % time_unit < time_unit,
                q == n / time_unit,
                n > 0,
                time_unit >= 1,
        ;
    } else if n < 0 {
        let m = n * -1;
        vstd::arithmetic::div_mod::lemma_fundamental_div_mod(m, time_unit);
        vstd::arithmetic::div_mod::lemma_mod_bound(m, time_unit);
        assert(n <= q * time_unit <= 0) by (nonlinear_arith)
            requires
                m == time_unit * (m / time_unit) + m % time_unit,
                0 <= m % time_unit < time_unit,
                q == (m / time_unit) * -1,
                m == n * -1,
                m > 0,
                time_unit >= 1,
        ;
    }
}

/// The time `to_time` gives for a composed ID lies within one time unit at or
/// before the instant it was composed from, for an instant since 1970.
pub proof fn lemma_to_time_within_unit(
    start: int,
    t: Time,
    sequence: int,
    machine_id: int,
    bs: int,
    bm: int,
    time_unit: int,
)
    requires
        1 <= bs <= 30,
        1 <= bm <= 30,
        bs + bm <= 31,
        time_unit >= 1_000_000,
        gotime::wrap_i64(t.total_nanos()) >= 0,
        compose_result(start, internal_time(time_unit, t), sequence, machine_id, bs, bm) is Ok,
    ensures
        ({
            let id = compose_result(
                start,
                internal_time(time_unit, t),
                sequence,
                machine_id,
                bs,
                bm,
            )->Ok_0 as int;
            let back = (start + time_part_of(id, bs, bm)) * time_unit;
            back <= gotime::wrap_i64(t.total_nanos()) < back + time_unit
        }),
{
    let n = gotime::wrap_i64(t.total_nanos()) as int;
    lemma_compose_decompose(start, internal_time(time_unit, t), sequence, machine_id, bs, bm);
    let q = internal_time(time_unit, t);
    if n > 0 {
        vstd::arithmetic::div_mod::lemma_fundamental_div_mod(n, time_unit);
        vstd::arithmetic::div_mod::lemma_mod_bound(n, time_unit);
        assert(q == n / time_unit);
        assert(q * time_unit <= n < q * time_unit + time_unit) by (nonlinear_arith)
            requires
                n == time_unit * q + n % time_unit,
                0 <= n % time_unit < time_unit,
        ;
    }
}

/// How one step moves a generator, case by case: into a later time unit
/// with the sequence starting over at 0; within its own time unit to the next
/// sequence number; and, when that unit's `2^bs` sequence numbers are used
/// up, to the next unit with sequence 0.
pub proof fn lemma_step_cases(elapsed: int, sequence: int, current: int, bs: int)
    requires
        1 <= bs <= 30,
        0 <= sequence < p2(bs),
    ensures
        elapsed < current ==> advance(elapsed, sequence, current, bs) == (current, 0int),
        elapsed >= current && sequence + 1 < p2(bs) ==> advance(elapsed, sequence, current, bs)
            == (elapsed, sequence + 1),
        elapsed >= current && sequence + 1 == p2(bs) ==> advance(elapsed, sequence, current, bs)
            == (elapsed + 1, 0int),
{
    lemma_pow2_pos(bs as nat);
    if sequence + 1 == p2(bs) {
        vstd::arithmetic::div_mod::lemma_mod_self_0(p2(bs));
    } else {
        vstd::arithmetic::div_mod::lemma_small_mod((sequence + 1) as nat, p2(bs) as nat);
    }
}

/// The first ID of a time unit later than the generator's: its time part is
/// that unit, its sequence number 0, its machine part the machine ID, as long
/// as the unit fits the bits of the time part.
pub proof fn lemma_new_unit_id(
    elapsed: int,
    sequence: int,
    machine: int,
    current: int,
    bs: int,
    bm: int,
)
    requires
        1 <= bs <= 30,
        1 <= bm <= 30,
        bs + bm <= 31,
        0 <= elapsed < current < p2(63 - bs - bm),
        0 <= sequence < p2(bs),
        0 <= machine < p2(bm),
    ensures
        ({
            let (e2, s2) = advance(elapsed, sequence, current, bs);
            let id = id_result(e2, s2, machine, bs, bm)->Ok_0 as int;
            &&& id_result(e2, s2, machine, bs, bm) is Ok
            &&& time_part_of(id, bs, bm) == current
            &&& sequence_part_of(id, bs, bm) == 0
            &&& machine_part_of(id, bm) == machine
        }),
{
    lemma_step_cases(elapsed, sequence, current, bs);
    lemma_pow2_pos(bs as nat);
    lemma_generated_parts(current, 0, machine, bs, bm);
}

/// Without a start time the generator counts from 2025-01-01 00:00:00 UTC:
/// its start is the Unix nanoseconds of that instant, 1735689600 s, in whole
/// time units, for every time unit.
pub proof fn lemma_default_start(time_unit: int)
    requires
        time_unit >= 1,
    ensures
        start_units(time_unit, None) == 1_735_689_600_000_000_000int / time_unit,
        start_units(time_unit, None) * time_unit <= 1_735_689_600_000_000_000int < start_units(
            time_unit,
            None,
        ) * time_unit + time_unit,
{
    gotime::lemma_epoch_seconds();
    gotime::lemma_wrap_in_range(1_735_689_600_000_000_000);
    let n: int = 1_735_689_600_000_000_000;
    vstd::arithmetic::div_mod::lemma_fundamental_div_mod(n, time_unit);
    vstd::arithmetic::div_mod::lemma_mod_bound(n, time_unit);
    let q = n / time_unit;
    assert(q * time_unit <= n < q * time_unit + time_unit) by (nonlinear_arith)
        requires
            n == time_unit * q + n % time_unit,
            0 <= n % time_unit < time_unit,
    ;
}

/// `compose` succeeds on every input within range: a time from the start up
/// to `2^(63 - bs - bm)` units after it, a sequence number below `2^bs` and a
/// machine ID below `2^bm`; it is over the time limit exactly when the time
/// is that many units or more after the start.
pub proof fn lemma_compose_in_range(
    start: int,
    internal: int,
    sequence: int,
    machine_id: int,
    bs: int,
    bm: int,
)
    requires
        1 <= bs <= 30,
        1 <= bm <= 30,
        bs + bm <= 31,
    ensures
        0 <= internal - start < pow2((63 - bs - bm) as nat) && 0 <= sequence < pow2(bs as nat) && 0
            <= machine_id < pow2(bm as nat) ==> compose_result(
            start,
            internal,
            sequence,
            machine_id,
            bs,
            bm,
        ) is Ok,
        compose_result(start, internal, sequence, machine_id, bs, bm) == Err::<i64, Error>(
            Error::OverTimeLimit,
        ) <==> internal - start >= pow2((63 - bs - bm) as nat),
{
}

/// With the default layout the time part covers more than 174 years: 2^39
/// units of 10 msec.
pub proof fn lemma_default_lifetime()
    ensures
        p2(63 - 8 - 16) == 549_755_813_888,
        549_755_813_888 * DEFAULT_TIME_UNIT >= 174 * 365 * 86_400 * 1_000_000_000,
{
    lemma2_to64();
    lemma2_to64_rest();
}

/// The layout of an ID: the time in the high bits above `bs + bm`, then the
/// sequence number in `bs` bits, then the machine ID in the low `bm` bits.
pub proof fn lemma_layout(elapsed: int, sequence: int, machine: int, bs: int, bm: int)
    requires
        0 <= bs,
        0 <= bm,
    ensures
        id_of(elapsed, sequence, machine, bs, bm) == elapsed * pow2((bs + bm) as nat) + sequence
            * pow2(bm as nat) + machine,
        p2(24int) == 16_777_216 && p2(16int) == 65_536,
{
    lemma2_to64();
}

/// An instant since 1970 is, in whole time units, the number of units that
/// have fully passed: the start of its unit is at or before it, the next
/// unit's start after it.
pub proof fn lemma_internal_time_of_instant(time_unit: int, t: Time)
    requires
        time_unit >= 1,
        gotime::wrap_i64(t.total_nanos()) >= 0,
    ensures
        internal_time(time_unit, t) * time_unit <= gotime::wrap_i64(t.total_nanos())
            < internal_time(time_unit, t) * time_unit + time_unit,
{
    let n = gotime::wrap_i64(t.total_nanos()) as int;
    vstd::arithmetic::div_mod::lemma_fundamental_div_mod(n, time_unit);
    vstd::arithmetic::div_mod::lemma_mod_bound(n, time_unit);
    let q = internal_time(time_unit, t);
    if n > 0 {
        assert(q == n / time_unit);
    }
    assert(q * time_unit <= n < q * time_unit + time_unit) by (nonlinear_arith)
        requires
            n == time_unit * (n / time_unit) + n % time_unit,
            0 <= n % time_unit < time_unit,
            n == 0 ==> q == 0,
            n > 0 ==> q == n / time_unit,
            n >= 0,
    ;
}

/// The defaults: a setting of 0 means 8 bits of sequence, 16 bits of machine
/// ID and a time unit of 10 msec; any other setting is taken as it is.
pub proof fn lemma_defaults(bs: int, bm: int, tu: int)
    ensures
        effective_bits_sequence(0) == 8,
        effective_bits_machine(0) == 16,
        effective_time_unit(0) == 10_000_000,
        bs != 0 ==> effective_bits_sequence(bs) == bs,
        bm != 0 ==> effective_bits_machine(bm) == bm,
        tu != 0 ==> effective_time_unit(tu) == tu,
{
}

/// Settings within their bounds are accepted: bit lengths from 0 (the
/// default) to 30 that leave at least 32 bits of time, a time unit of 0 (the
/// default) or at least 1 msec, and a start time not after now. Each bound
/// broken is the error for it.
pub proof fn lemma_settings_accepted(bs: int, bm: int, tu: int, start_time: Option<Time>, now: Time)
    ensures
        (0 <= bs <= 30 && 0 <= bm <= 30 && (tu == 0 || tu >= 1_000_000) && !crate::starts_after(
            start_time,
            now,
        ) && effective_bits_sequence(bs) + effective_bits_machine(bm) <= 31) <==> settings_error(
            bs,
            bm,
            tu,
            start_time,
            now,
        ) is None,
        bs < 0 || bs > 30 ==> settings_error(bs, bm, tu, start_time, now) == Some(
            Error::InvalidBitsSequence,
        ),
        (0 <= bs <= 30 && (bm < 0 || bm > 30)) ==> settings_error(bs, bm, tu, start_time, now)
            == Some(Error::InvalidBitsMachineId),
        (0 <= bs <= 30 && 0 <= bm <= 30 && (tu < 0 || (0 < tu < 1_000_000))) ==> settings_error(
            bs,
            bm,
            tu,
            start_time,
            now,
        ) == Some(Error::InvalidTimeUnit),
{
}

// ---------------------------------------------------------------------------
// Formatting
// ---------------------------------------------------------------------------

/// `key:value` for one entry of a parts map.
pub open spec fn entry_text(e: (String, i64)) -> Seq<char> {
    e.0@ + seq![':'] + signed_decimal(e.1 as int)
}

/// The entries joined by single spaces.
pub open spec fn entries_text(e: Seq<(String, i64)>) -> Seq<char>
    decreases e.len(),
{
    if e.len() == 0 {
        Seq::empty()
    } else if e.len() == 1 {
        entry_text(e[0])
    } else {
        entries_text(e.drop_last()) + seq![' '] + entry_text(e.last())
    }
}

/// Go's `fmt` rendering of a `map[string]int64` whose entries, in key order,
/// are `e`: `map[k1:v1 k2:v2 ...]`.
pub open spec fn map_text(e: Seq<(String, i64)>) -> Seq<char> {
    "map["@ + entries_text(e) + "]"@
}

impl IdParts {
    /// The parts as the entries of Go's `Decompose` map, in key order:
    /// `id`, `machine`, `sequence`, `time`.
    pub fn entries(&self) -> (e: Vec<(String, i64)>)
        ensures
            e@.len() == 4,
            e@[0].0@ == "id"@ && e@[0].1 == self.id,
            e@[1].0@ == "machine"@ && e@[1].1 == self.machine,
            e@[2].0@ == "sequence"@ && e@[2].1 == self.sequence,
            e@[3].0@ == "time"@ && e@[3].1 == self.time,
            keys_ascending(e@),
    {
        let mut e: Vec<(String, i64)> = Vec::new();
        e.push(("id".to_string(), self.id));
        e.push(("machine".to_string(), self.machine));
        e.push(("sequence".to_string(), self.sequence));
        e.push(("time".to_string(), self.time));
        proof {
            reveal_strlit("id");
            reveal_strlit("machine");
            reveal_strlit("sequence");
            reveal_strlit("time");
            let k = e@;
            assert forall|i: int, j: int| 0 <= i < j < k.len() implies chars_less(
                #[trigger] k[i].0@,
                #[trigger] k[j].0@,
            ) by {
                assert(k[i].0@.take(0) =~= k[j].0@.take(0));
                lemma_chars_less_at(k[i].0@, k[j].0@, 0);
            }
        }
        e
    }
}

/// Renders a parts map, given as its entries in key order, the way Go's
/// `fmt` prints a `map[string]int64`.
pub fn format_decomposed(parts: &Vec<(String, i64)>) -> (s: String)
    requires
        keys_ascending(parts@),
    ensures
        s@ == map_text(parts@),
{
    let mut s = String::new();
    push_str(&mut s, "map[");
    let mut i: usize = 0;
    while i < parts.len()
        invariant
            i <= parts.len(),
            s@ == "map["@ + entries_text(parts@.take(i as int)),
        decreases parts.len() - i,
    {
        if i > 0 {
            push_char(&mut s, ' ');
        }
        let entry = &parts[i];
        push_str(&mut s, entry.0.as_str());
        push_char(&mut s, ':');
        push_signed_decimal(&mut s, entry.1);
        proof {
            let next = parts@.take(i + 1);
            assert(next.drop_last() =~= parts@.take(i as int));
            assert(next.last() == parts@[i as int]);
            assert(s@ =~= "map["@ + entries_text(next));
        }
        i = i + 1;
    }
    push_str(&mut s, "]");
    assert(parts@.take(parts.len() as int) =~= parts@);
    s
}

} // verus!
