//! Go-style time values: `Duration` is a signed nanosecond count whose
//! arithmetic wraps like Go's `int64`, and `Time` is an instant in UTC held as
//! seconds and nanoseconds since the Unix epoch. Calendar and clock work is done
//! by `chrono`.

use chrono::TimeZone;
use vstd::prelude::*;
use crate::text::{decimal, fmt_frac, push_char, push_decimal, trimmed_fraction};

verus! {

pub open spec fn nanos_per_second() -> int {
    1_000_000_000
}

/// Go's `time.Duration`: a count of nanoseconds.
#[derive(Clone, Copy, Debug, Default, PartialEq, Eq, PartialOrd, Ord, Hash, Structural)]
pub struct Duration(pub i64);

/// Wraps an integer into the range of `i64`, as two's complement arithmetic does.
pub open spec fn wrap_i64(x: int) -> i64 {
    vstd::wrapping::i64_specs::signed_crop(x)
}

/// Remainder of a division that truncates toward zero: it has the sign of `a`.
pub open spec fn truncated_rem(a: int, b: int) -> int {
    if a == 0 {
        0
    } else if a > 0 && b > 0 {
        a % b
    } else if a < 0 && b < 0 {
        ((a * -1) % (b * -1)) * -1
    } else if a < 0 {
        ((a * -1) % b) * -1
    } else {
        a % (b * -1)
    }
}

/// Quotient of a division that truncates toward zero.
pub open spec fn truncated_div(a: int, b: int) -> int {
    if a == 0 {
        0
    } else if a > 0 && b > 0 {
        a / b
    } else if a < 0 && b < 0 {
        (a * -1) / (b * -1)
    } else if a < 0 {
        ((a * -1) / b) * -1
    } else {
        (a / (b * -1)) * -1
    }
}

pub fn nanosecond() -> (d: Duration)
    ensures
        d.0 == 1,
{
    Duration(1)
}

pub fn microsecond() -> (d: Duration)
    ensures
        d.0 == 1_000,
{
    Duration(1_000)
}

pub fn millisecond() -> (d: Duration)
    ensures
        d.0 == 1_000_000,
{
    Duration(1_000_000)
}

pub fn second() -> (d: Duration)
    ensures
        d.0 == 1_000_000_000,
{
    Duration(1_000_000_000)
}

pub fn minute() -> (d: Duration)
    ensures
        d.0 == 60_000_000_000,
{
    Duration(60_000_000_000)
}

pub fn hour() -> (d: Duration)
    ensures
        d.0 == 3_600_000_000_000,
{
    Duration(3_600_000_000_000)
}

impl Duration {
    /// The underlying nanosecond count, Go's `int64(d)`.
    pub fn nanoseconds(self) -> (n: i64)
        ensures
            n == self.0,
    {
        self.0
    }

    pub fn from_nanos(n: i64) -> (d: Duration)
        ensures
            d.0 == n,
    {
        Duration(n)
    }

    /// Go's `Duration.String()`, e.g. `1.5ms`, `1m30s` or `-2s`.
    pub fn to_string(&self) -> (s: String)
        ensures
            s@ == duration_text(self.0 as int),
    {
        let d = self.0;
        let u: u64 = if d == i64::MIN {
            9_223_372_036_854_775_808u64
        } else if d < 0 {
            (-d) as u64
        } else {
            d as u64
        };
        let mut s = String::new();
        if d < 0 {
            push_char(&mut s, '-');
        }
        let ghost sign = s@;
        if u == 0 {
            push_char(&mut s, '0');
            push_char(&mut s, 's');
        } else if u < 1_000_000_000 {
            push_small_duration(&mut s, u);
        } else {
            push_large_duration(&mut s, u);
        }
        proof {
            if d < 0 {
                assert(sign == seq!['-']);
            } else {
                assert(sign == Seq::<char>::empty());
            }
        }
        s
    }
}


/// Appends the text of a positive duration shorter than a second.
fn push_small_duration(s: &mut String, u: u64)
    requires
        0 < u < 1_000_000_000,
    ensures
        final(s)@ == old(s)@ + small_duration_text(u as nat),
{
    let (prec, scale): (u32, u64) = if u < 1_000 {
        (0, 1)
    } else if u < 1_000_000 {
        (3, 1_000)
    } else {
        (6, 1_000_000)
    };
    push_decimal(s, u / scale);
    fmt_frac(s, u % scale, prec);
    if u < 1_000 {
        push_char(s, 'n');
    } else if u < 1_000_000 {
        push_char(s, '\u{b5}');
    } else {
        push_char(s, 'm');
    }
    push_char(s, 's');
    proof {
        let t = small_duration_text(u as nat);
        if u < 1_000 {
            assert(u % 1 == 0 && u / 1 == u);
            assert(fraction_text(0, 0) == Seq::<char>::empty());
        }
        assert(final(s)@ =~= old(s)@ + t);
    }
}

/// Appends the text of a duration of at least a second.
fn push_large_duration(s: &mut String, u: u64)
    requires
        u >= 1_000_000_000,
    ensures
        final(s)@ == old(s)@ + large_duration_text(u as nat),
{
    let secs = u / 1_000_000_000;
    let mins = secs / 60;
    let hours = mins / 60;
    let ghost s0 = s@;
    if hours > 0 {
        push_decimal(s, hours);
        push_char(s, 'h');
    }
    let ghost s1 = s@;
    if mins > 0 {
        push_decimal(s, mins % 60);
        push_char(s, 'm');
    }
    let ghost s2 = s@;
    push_decimal(s, secs % 60);
    fmt_frac(s, u % 1_000_000_000, 9);
    push_char(s, 's');
    proof {
        let hp = if hours > 0 { decimal(hours as nat) + seq!['h'] } else { Seq::<char>::empty() };
        let mp = if mins > 0 { decimal((mins % 60) as nat) + seq!['m'] } else { Seq::<char>::empty() };
        assert(s1 =~= s0 + hp);
        assert(s2 =~= s1 + mp);
        assert(final(s)@ =~= s2 + decimal((secs % 60) as nat) + fraction_text((u % 1_000_000_000) as nat, 9) + seq!['s']);
        assert(final(s)@ =~= old(s)@ + large_duration_text(u as nat));
    }
}

/// `.` followed by the trimmed fraction, or nothing when the fraction is zero.
pub open spec fn fraction_text(v: nat, width: nat) -> Seq<char> {
    if trimmed_fraction(v, width).len() == 0 {
        Seq::empty()
    } else {
        seq!['.'] + trimmed_fraction(v, width)
    }
}

/// Text of a positive duration shorter than a second, in the largest unit
/// among `ns`, `µs` and `ms` that it reaches.
pub open spec fn small_duration_text(u: nat) -> Seq<char> {
    if u < 1_000 {
        decimal(u) + fraction_text(0, 0) + seq!['n', 's']
    } else if u < 1_000_000 {
        decimal(u / 1_000) + fraction_text(u % 1_000, 3) + seq!['\u{b5}', 's']
    } else {
        decimal(u / 1_000_000) + fraction_text(u % 1_000_000, 6) + seq!['m', 's']
    }
}

/// Text of a duration of at least a second: hours, minutes and seconds with
/// the leading zero units left out.
pub open spec fn large_duration_text(u: nat) -> Seq<char> {
    let secs = u / 1_000_000_000;
    let mins = secs / 60;
    let hours = mins / 60;
    (if hours > 0 {
        decimal(hours) + seq!['h']
    } else {
        Seq::empty()
    }) + (if mins > 0 {
        decimal(mins % 60) + seq!['m']
    } else {
        Seq::empty()
    }) + decimal(secs % 60) + fraction_text(u % 1_000_000_000, 9) + seq!['s']
}

/// Go's rendering of a duration of `d` nanoseconds.
pub open spec fn duration_text(d: int) -> Seq<char> {
    let u: nat = if d < 0 {
        (-d) as nat
    } else {
        d as nat
    };
    let body = if u == 0 {
        seq!['0', 's']
    } else if u < 1_000_000_000 {
        small_duration_text(u)
    } else {
        large_duration_text(u)
    };
    if d < 0 {
        seq!['-'] + body
    } else {
        body
    }
}


/// Largest magnitude, in seconds from the Unix epoch, of an instant that
/// `chrono` can represent (its years run from -262143 to 262142).
pub open spec fn utc_seconds_bound() -> int {
    8_400_000_000_000
}

/// Days from 1970-01-01 to the given date of the proleptic Gregorian
/// calendar (negative before it).
pub open spec fn days_from_civil(year: int, month: int, day: int) -> int {
    let y = if month <= 2 {
        year - 1
    } else {
        year
    };
    let era = y / 400;
    let yoe = y - era * 400;
    let doy = (153 * ((month + 9) % 12) + 2) / 5 + day - 1;
    let doe = yoe * 365 + yoe / 4 - yoe / 100 + doy;
    era * 146_097 + doe - 719_468
}

/// The first day `chrono` represents, -262143-01-01, in days from 1970-01-01.
pub open spec fn first_day() -> int {
    -96_465_292
}

/// The last day `chrono` represents, 262142-12-31, in days from 1970-01-01.
pub open spec fn last_day() -> int {
    95_026_236
}

/// Whether `chrono` accepts `secs` seconds and `nanos` nanoseconds since the
/// Unix epoch as a UTC instant (`DateTime::<Utc>::from_timestamp`): the day
/// lies within its years, and the nanoseconds are below a second, or below two
/// in the last second of a minute (a leap second).
#[verifier::opaque]
pub open spec fn utc_timestamp_representable(secs: i64, nanos: u32) -> bool {
    &&& first_day() <= secs / 86_400 <= last_day()
    &&& (nanos < 1_000_000_000 || (nanos < 2_000_000_000 && (secs % 86_400) % 60 == 59))
}

/// The Unix time, in seconds, of a date and time of day of the proleptic
/// Gregorian calendar in UTC, or `None` for fields that do not name one within
/// `chrono`'s years (`TimeZone::with_ymd_and_hms`).
#[verifier::opaque]
pub open spec fn utc_civil_seconds(
    year: i32,
    month: u32,
    day: u32,
    hour: u32,
    min: u32,
    sec: u32,
) -> Option<i64> {
    if valid_civil(year, month, day, hour, min, sec) {
        Some(
            (days_from_civil(year as int, month as int, day as int) * 86_400 + hour * 3_600 + min
                * 60 + sec) as i64,
        )
    } else {
        None
    }
}

/// `chrono`'s `Utc.timestamp_opt(secs, nanos).single()`. The contract claims
/// that the result is present exactly where `utc_timestamp_representable` holds
/// (the day within `NaiveDate`'s years, the nanosecond rule of
/// `NaiveTime::from_num_seconds_from_midnight_opt`), that it round-trips the
/// arguments (as the `from_timestamp` documentation promises), that sub-second
/// nanoseconds within `utc_seconds_bound()` are always accepted, and that
/// accepted seconds lie within that bound.
#[verifier::external_body]
fn utc_from_timestamp(secs: i64, nanos: u32) -> (r: Option<(i64, u32)>)
    ensures
        r is Some == utc_timestamp_representable(secs, nanos),
        r matches Some(p) ==> p == (secs, nanos),
        r is Some ==> -utc_seconds_bound() <= secs <= utc_seconds_bound(),
        (nanos < 1_000_000_000 && -8_000_000_000_000 <= secs <= 8_000_000_000_000) ==> r is Some,
{
    match chrono::Utc.timestamp_opt(secs, nanos).single() {
        Some(t) => Some((t.timestamp(), t.timestamp_subsec_nanos())),
        None => None,
    }
}

/// `chrono`'s `Utc::now()`, read as seconds and nanoseconds since the Unix
/// epoch. The contract claims only what holds of every reading: the instant is
/// representable, not before the epoch (chrono panics otherwise) and its
/// nanoseconds are sub-second (they come from `SystemTime`).
#[verifier::external_body]
fn utc_now() -> (r: (i64, u32))
    ensures
        utc_timestamp_representable(r.0, r.1),
        0 <= r.0 <= utc_seconds_bound(),
        r.1 < 1_000_000_000,
{
    let t = chrono::Utc::now();
    (t.timestamp(), t.timestamp_subsec_nanos())
}

/// Days in a month of the proleptic Gregorian calendar.
pub open spec fn days_in_month(year: int, month: int) -> int {
    if month == 2 {
        if (year % 4 == 0 && year % 100 != 0) || year % 400 == 0 {
            29
        } else {
            28
        }
    } else if month == 4 || month == 6 || month == 9 || month == 11 {
        30
    } else {
        31
    }
}

/// A calendar date and time of day that exists, within `chrono`'s years.
pub open spec fn valid_civil(year: i32, month: u32, day: u32, hour: u32, min: u32, sec: u32) -> bool {
    &&& -262_143 <= year <= 262_142
    &&& 1 <= month <= 12
    &&& 1 <= day <= days_in_month(year as int, month as int)
    &&& hour < 24
    &&& min < 60
    &&& sec < 60
}

/// `chrono`'s `Utc.with_ymd_and_hms(..).single()`, read as Unix seconds. The
/// contract claims that the result is `utc_civil_seconds` of the fields: the
/// proleptic Gregorian day count times a day plus the time of day, for exactly
/// the fields `NaiveDate::from_ymd_opt` and `NaiveDate::and_hms_opt` accept
/// (UTC has a single offset), and that an accepted date is a representable
/// instant within `utc_seconds_bound()`.
#[verifier::external_body]
fn utc_ymd_hms(year: i32, month: u32, day: u32, hour: u32, min: u32, sec: u32) -> (r: Option<i64>)
    ensures
        r == utc_civil_seconds(year, month, day, hour, min, sec),
        r matches Some(s) ==> utc_timestamp_representable(s, 0) && -utc_seconds_bound() <= s
            <= utc_seconds_bound(),
        valid_civil(year, month, day, hour, min, sec) ==> r is Some,
{
    match chrono::Utc.with_ymd_and_hms(year, month, day, hour, min, sec).single() {
        Some(t) => Some(t.timestamp()),
        None => None,
    }
}

/// Go's `time.Time`, always in UTC: whole seconds since the Unix epoch and the
/// nanoseconds within that second.
#[derive(Clone, Copy, Debug, PartialEq, Eq, Structural)]
pub struct Time {
    secs: i64,
    nanos: u32,
}

impl Time {
    #[verifier::type_invariant]
    spec fn wf(self) -> bool {
        &&& utc_timestamp_representable(self.secs, self.nanos)
        &&& self.nanos < 1_000_000_000
        &&& -utc_seconds_bound() <= self.secs <= utc_seconds_bound()
    }

    /// Whole seconds since the Unix epoch.
    pub closed spec fn seconds(self) -> int {
        self.secs as int
    }

    /// Nanoseconds within the second.
    pub closed spec fn subsec(self) -> int {
        self.nanos as int
    }

    /// Nanoseconds since the Unix epoch.
    pub open spec fn total_nanos(self) -> int {
        self.seconds() * nanos_per_second() + self.subsec()
    }

    /// Two instants with the same seconds and nanoseconds are the same value.
    pub proof fn lemma_ext_equal(self, other: Time)
        ensures
            (self.seconds() == other.seconds() && self.subsec() == other.subsec()) <==> self
                == other,
    {
    }

    /// `chrono`'s `timestamp()`: whole seconds since the Unix epoch.
    pub fn timestamp(&self) -> (s: i64)
        ensures
            s == self.seconds(),
            -utc_seconds_bound() <= s <= utc_seconds_bound(),
    {
        proof {
            use_type_invariant(self);
        }
        self.secs
    }

    /// `chrono`'s `timestamp_subsec_nanos()`.
    pub fn timestamp_subsec_nanos(&self) -> (n: u32)
        ensures
            n == self.subsec(),
            n < 1_000_000_000,
    {
        proof {
            use_type_invariant(self);
        }
        self.nanos
    }

    /// The instant `secs` seconds and `nanos` nanoseconds after the Unix epoch,
    /// where `chrono` accepts it with a sub-second `nanos`.
    pub fn from_timestamp(secs: i64, nanos: u32) -> (r: Option<Time>)
        ensures
            r is Some <==> (utc_timestamp_representable(secs, nanos) && nanos < 1_000_000_000),
            r matches Some(t) ==> t.seconds() == secs && t.subsec() == nanos,
    {
        if nanos >= 1_000_000_000 {
            return None;
        }
        match utc_from_timestamp(secs, nanos) {
            Some((s, n)) => Some(Time { secs: s, nanos: n }),
            None => None,
        }
    }
}

/// Go's `time.Now()`.
pub fn now() -> (t: Time)
    ensures
        t.seconds() >= 0,
{
    let (secs, nanos) = utc_now();
    Time { secs, nanos }
}

/// The seconds and nanoseconds of `nanos` nanoseconds since the Unix epoch,
/// the seconds wrapped into `i64` as Go's conversion does.
pub open spec fn split_nanos(total: int) -> (i64, u32) {
    (wrap_i64(total / nanos_per_second()), (total % nanos_per_second()) as u32)
}

/// Whether the instant `total` nanoseconds after the Unix epoch is a `Time`.
pub open spec fn nanos_representable(total: int) -> bool {
    utc_timestamp_representable(split_nanos(total).0, split_nanos(total).1)
}

/// Builds the instant `total` nanoseconds after the Unix epoch.
fn from_total_nanos(total: i128) -> (t: Time)
    requires
        nanos_representable(total as int),
    ensures
        t.seconds() == split_nanos(total as int).0,
        t.subsec() == split_nanos(total as int).1,
        i64::MIN <= total as int / nanos_per_second() <= i64::MAX ==> t.total_nanos() == total,
{
    let mut q = total / 1_000_000_000;
    let mut r = total % 1_000_000_000;
    if r < 0 {
        q = q - 1;
        r = r + 1_000_000_000;
    }
    assert(q == total as int / nanos_per_second() && r == total as int % nanos_per_second());
    let secs = wrap_to_i64(q);
    match Time::from_timestamp(secs, r as u32) {
        Some(t) => {
            t
        },
        None => {
            proof {
                assert(false);
            }
            now()
        },
    }
}

/// Two's complement truncation of an `i128` to `i64`.
fn wrap_to_i64(x: i128) -> (r: i64)
    ensures
        r == wrap_i64(x as int),
{
    let m: i128 = 18_446_744_073_709_551_616;
    let mut v = x % m;
    if v < 0 {
        v = v + m;
    }
    assert(v == x as int % 18_446_744_073_709_551_616int);
    if v > 9_223_372_036_854_775_807 {
        (v - m) as i64
    } else {
        v as i64
    }
}

/// Go's `time.Unix(sec, nsec)`: `sec` seconds plus `nsec` nanoseconds after the
/// Unix epoch, `nsec` taken outside `[0, 1e9)` as well.
pub fn unix(sec: i64, nsec: i64) -> (t: Time)
    requires
        nanos_representable(sec * nanos_per_second() + nsec),
    ensures
        t.seconds() == split_nanos(sec * nanos_per_second() + nsec).0,
        t.subsec() == split_nanos(sec * nanos_per_second() + nsec).1,
{
    let total: i128 = (sec as i128) * 1_000_000_000 + (nsec as i128);
    from_total_nanos(total)
}

/// `unix`, or `None` where the instant is outside what `chrono` represents.
pub fn checked_unix(sec: i64, nsec: i64) -> (t: Option<Time>)
    ensures
        t is Some <==> nanos_representable(sec * nanos_per_second() + nsec),
        -8_000_000_000_000 <= (sec * nanos_per_second() + nsec) / nanos_per_second()
            <= 8_000_000_000_000 ==> t is Some,
        t matches Some(t) ==> t.seconds() == split_nanos(sec * nanos_per_second() + nsec).0
            && t.subsec() == split_nanos(sec * nanos_per_second() + nsec).1,
{
    let total: i128 = (sec as i128) * 1_000_000_000 + (nsec as i128);
    if representable_total(total) {
        Some(unix(sec, nsec))
    } else {
        None
    }
}

/// Whether the instant `total` nanoseconds after the Unix epoch is representable.
fn representable_total(total: i128) -> (b: bool)
    ensures
        b == nanos_representable(total as int),
        -8_000_000_000_000 <= total as int / nanos_per_second() <= 8_000_000_000_000 ==> b,
{
    let mut q = total / 1_000_000_000;
    let mut r = total % 1_000_000_000;
    if r < 0 {
        q = q - 1;
        r = r + 1_000_000_000;
    }
    assert(q == total as int / nanos_per_second() && r == total as int % nanos_per_second());
    utc_from_timestamp(wrap_to_i64(q), r as u32).is_some()
}

/// Go's `Time.UnixNano()`: nanoseconds since the Unix epoch, wrapped into
/// `i64` as Go does outside the years 1678 to 2262.
pub fn unix_nano(t: Time) -> (n: i64)
    ensures
        n == wrap_i64(t.total_nanos()),
{
    let total: i128 = (t.secs as i128) * 1_000_000_000 + (t.nanos as i128);
    wrap_to_i64(total)
}

/// Go's `Time.Add(d)`.
pub fn add(t: Time, d: Duration) -> (r: Time)
    requires
        nanos_representable(t.total_nanos() + d.0),
    ensures
        r.total_nanos() == t.total_nanos() + d.0,
{
    proof {
        use_type_invariant(&t);
    }
    let total: i128 = (t.secs as i128) * 1_000_000_000 + (t.nanos as i128) + (d.0 as i128);
    from_total_nanos(total)
}

/// `add`, or `None` where the sum is outside what `chrono` represents.
pub fn checked_add(t: Time, d: Duration) -> (r: Option<Time>)
    ensures
        r is Some <==> nanos_representable(t.total_nanos() + d.0),
        -8_000_000_000_000 <= (t.total_nanos() + d.0) / nanos_per_second() <= 8_000_000_000_000
            ==> r is Some,
        r matches Some(r) ==> r.total_nanos() == t.total_nanos() + d.0,
{
    proof {
        use_type_invariant(&t);
    }
    let total: i128 = (t.secs as i128) * 1_000_000_000 + (t.nanos as i128) + (d.0 as i128);
    if representable_total(total) {
        Some(self::add(t, d))
    } else {
        None
    }
}

/// Go's `Time.Sub(u)`: the duration from `u` to `t`, wrapping like Go.
pub fn sub(t: Time, u: Time) -> (d: Duration)
    ensures
        d.0 == wrap_i64(wrap_i64(t.total_nanos()) - wrap_i64(u.total_nanos())),
{
    Duration(unix_nano(t).wrapping_sub(unix_nano(u)))
}

/// Go's `Time.After(u)`: whether `t` is later than `u`.
pub fn after(t: Time, u: Time) -> (b: bool)
    ensures
        b == (t.total_nanos() > u.total_nanos()),
{
    proof {
        use_type_invariant(&t);
        use_type_invariant(&u);
    }
    t.secs > u.secs || (t.secs == u.secs && t.nanos > u.nanos)
}

/// Whether `date` accepts these fields: a valid UTC calendar date and time of
/// day whose instant, moved on by `nsec` nanoseconds, `chrono` represents.
pub open spec fn date_defined(
    year: i32,
    month: u32,
    day: u32,
    hour: u32,
    min: u32,
    sec: u32,
    nsec: u32,
) -> bool {
    match utc_civil_seconds(year, month, day, hour, min, sec) {
        Some(s) => nanos_representable(s * nanos_per_second() + nsec),
        None => false,
    }
}

/// Go's `time.Date(year, month, day, hour, min, sec, nsec, time.UTC)`.
pub fn date(year: i32, month: u32, day: u32, hour: u32, min: u32, sec: u32, nsec: u32) -> (t: Time)
    requires
        date_defined(year, month, day, hour, min, sec, nsec),
    ensures
        t.total_nanos() == utc_civil_seconds(year, month, day, hour, min, sec).unwrap()
            * nanos_per_second() + nsec,
{
    match utc_ymd_hms(year, month, day, hour, min, sec) {
        Some(s) => {
            let total: i128 = (s as i128) * 1_000_000_000 + (nsec as i128);
            from_total_nanos(total)
        },
        None => {
            proof {
                assert(false);
            }
            now()
        },
    }
}

/// `date`, or `None` where it is not defined.
pub fn checked_date(
    year: i32,
    month: u32,
    day: u32,
    hour: u32,
    min: u32,
    sec: u32,
    nsec: u32,
) -> (t: Option<Time>)
    ensures
        t is Some <==> date_defined(year, month, day, hour, min, sec, nsec),
        valid_civil(year, month, day, hour, min, sec) && nsec < 1_000_000_000 ==> t is Some,
        t matches Some(t) ==> t.total_nanos() == utc_civil_seconds(
            year,
            month,
            day,
            hour,
            min,
            sec,
        ).unwrap() * nanos_per_second() + nsec,
{
    match utc_ymd_hms(year, month, day, hour, min, sec) {
        Some(s) => {
            let total: i128 = (s as i128) * 1_000_000_000 + (nsec as i128);
            proof {
                if nsec < 1_000_000_000 {
                    vstd::arithmetic::div_mod::lemma_fundamental_div_mod_converse(
                        total as int,
                        nanos_per_second(),
                        s as int,
                        nsec as int,
                    );
                    lemma_wrap_in_range(s as int);
                    reveal(utc_timestamp_representable);
                    assert(nanos_representable(total as int));
                }
            }
            if representable_total(total) {
                Some(date(year, month, day, hour, min, sec, nsec))
            } else {
                None
            }
        },
        None => None,
    }
}

impl core::ops::Add for Duration {
    type Output = Duration;

    fn add(self, rhs: Duration) -> (r: Duration) {
        Duration(self.0.wrapping_add(rhs.0))
    }
}

impl vstd::std_specs::ops::AddSpecImpl for Duration {
    open spec fn obeys_add_spec() -> bool {
        true
    }

    open spec fn add_req(self, rhs: Duration) -> bool {
        true
    }

    open spec fn add_spec(self, rhs: Duration) -> Duration {
        Duration(wrap_i64(self.0 + rhs.0))
    }
}

impl core::ops::Sub for Duration {
    type Output = Duration;

    fn sub(self, rhs: Duration) -> (r: Duration) {
        Duration(self.0.wrapping_sub(rhs.0))
    }
}

impl vstd::std_specs::ops::SubSpecImpl for Duration {
    open spec fn obeys_sub_spec() -> bool {
        true
    }

    open spec fn sub_req(self, rhs: Duration) -> bool {
        true
    }

    open spec fn sub_spec(self, rhs: Duration) -> Duration {
        Duration(wrap_i64(self.0 - rhs.0))
    }
}

impl core::ops::Neg for Duration {
    type Output = Duration;

    fn neg(self) -> (r: Duration) {
        Duration(0i64.wrapping_sub(self.0))
    }
}

impl vstd::std_specs::ops::NegSpecImpl for Duration {
    open spec fn obeys_neg_spec() -> bool {
        true
    }

    open spec fn neg_req(self) -> bool {
        true
    }

    open spec fn neg_spec(self) -> Duration {
        Duration(wrap_i64(-self.0))
    }
}

/// Go allows the count on the left of the unit: `3 * SECOND`.
impl core::ops::Mul<Duration> for i64 {
    type Output = Duration;

    fn mul(self, rhs: Duration) -> (r: Duration) {
        Duration(self.wrapping_mul(rhs.0))
    }
}

impl vstd::std_specs::ops::MulSpecImpl<Duration> for i64 {
    open spec fn obeys_mul_spec() -> bool {
        true
    }

    open spec fn mul_req(self, rhs: Duration) -> bool {
        true
    }

    open spec fn mul_spec(self, rhs: Duration) -> Duration {
        Duration(wrap_i64(self * rhs.0))
    }
}

impl core::ops::Mul<i64> for Duration {
    type Output = Duration;

    fn mul(self, rhs: i64) -> (r: Duration) {
        Duration(self.0.wrapping_mul(rhs))
    }
}

impl vstd::std_specs::ops::MulSpecImpl<i64> for Duration {
    open spec fn obeys_mul_spec() -> bool {
        true
    }

    open spec fn mul_req(self, rhs: i64) -> bool {
        true
    }

    open spec fn mul_spec(self, rhs: i64) -> Duration {
        Duration(wrap_i64(self.0 * rhs))
    }
}

impl core::ops::Rem<i64> for Duration {
    type Output = Duration;

    fn rem(self, rhs: i64) -> (r: Duration) {
        match self.0.checked_rem(rhs) {
            Some(r) => Duration(r),
            None => Duration(0),
        }
    }
}

impl vstd::std_specs::ops::RemSpecImpl<i64> for Duration {
    open spec fn obeys_rem_spec() -> bool {
        true
    }

    open spec fn rem_req(self, rhs: i64) -> bool {
        rhs != 0 && !(self.0 == i64::MIN && rhs == -1)
    }

    open spec fn rem_spec(self, rhs: i64) -> Duration {
        Duration(truncated_rem(self.0 as int, rhs as int) as i64)
    }
}


// ---------------------------------------------------------------------------
// Laws
// ---------------------------------------------------------------------------

/// Wrapping leaves a value within `i64` as it is.
pub proof fn lemma_wrap_in_range(x: int)
    requires
        i64::MIN <= x <= i64::MAX,
    ensures
        wrap_i64(x) == x,
{
    let m = 0x1_0000_0000_0000_0000int;
    if x >= 0 {
        vstd::arithmetic::div_mod::lemma_small_mod(x as nat, m as nat);
    } else {
        vstd::arithmetic::div_mod::lemma_fundamental_div_mod_converse(x, m, -1, x + m);
    }
}

/// Moving an instant by a duration and measuring from where it started gives
/// back the duration, where both instants lie within the span `UnixNano`
/// counts without wrapping.
pub proof fn lemma_sub_after_add(t: Time, d: Duration)
    requires
        i64::MIN <= t.total_nanos() <= i64::MAX,
        i64::MIN <= t.total_nanos() + d.0 <= i64::MAX,
    ensures
        wrap_i64(wrap_i64(t.total_nanos() + d.0) - wrap_i64(t.total_nanos())) == d.0,
{
    lemma_wrap_in_range(t.total_nanos());
    lemma_wrap_in_range(t.total_nanos() + d.0);
    lemma_wrap_in_range(d.0 as int);
}

/// The two epochs the generators count from, as Unix seconds: 2014-09-01 and
/// 2025-01-01, both at 00:00:00 UTC.
pub proof fn lemma_epoch_seconds()
    ensures
        utc_civil_seconds(2014, 9, 1, 0, 0, 0) == Some(1_409_529_600i64),
        utc_civil_seconds(2025, 1, 1, 0, 0, 0) == Some(1_735_689_600i64),
{
    reveal(utc_civil_seconds);
    assert(days_from_civil(2014, 9, 1) == 16_314);
    assert(days_from_civil(2025, 1, 1) == 20_089);
    assert(valid_civil(2014, 9, 1, 0, 0, 0));
    assert(valid_civil(2025, 1, 1, 0, 0, 0));
}

} // verus!
