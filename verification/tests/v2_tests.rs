//! The second generation of the generator. Each test builds its own generator;
//! the host's addresses are those of the stand-ins in `v2::mock`.

use sonyflake::gonet::{ip_to_string, Addr, Ip};
use sonyflake::gotime::{self, add, after, hour, microsecond, millisecond, minute, now, second, sub, Duration, Time};
use sonyflake::v2::awsutil::{
    amazon_ec2_machine_id, amazon_ec2_private_ipv4, find_offset_seconds, http_body_start, ntpdate_offset,
};
use sonyflake::v2::mock;
use sonyflake::v2::{
    format_decomposed, lower16_bit_private_ip, private_ipv4, Error, Settings, Sonyflake,
    DEFAULT_BITS_MACHINE,
};

type MachineId = Box<dyn Fn() -> Result<i32, Error>>;
type CheckMachineId = Box<dyn Fn(i32) -> bool>;
type Config = Settings<MachineId, CheckMachineId>;

/// Waits until `d` has passed on the clock.
fn wait(d: Duration) {
    let end = add(now(), d);
    while !after(now(), end) {}
}

fn new_sonyflake(st: Config) -> Sonyflake {
    match Sonyflake::new(st, &mock::new_successful_interface_addrs()) {
        Ok(sf) => sf,
        Err(err) => panic!("failed to create sonyflake: {}", err.to_string()),
    }
}

fn next_id(sf: &mut Sonyflake) -> i64 {
    let g = sf.next_id();
    if let Some(d) = g.sleep {
        wait(d);
    }
    match g.id {
        Ok(id) => id,
        Err(err) => panic!("failed to generate id: {}", err.to_string()),
    }
}

/// The machine ID of the stand-in host, 192.168.0.1.
fn default_machine_id() -> i32 {
    match lower16_bit_private_ip(&mock::new_successful_interface_addrs()) {
        Ok(ip) => ip,
        Err(err) => panic!("failed to get private ip address: {}", err.to_string()),
    }
}

// ---------------------------------------------------------------------------
// TestNew
// ---------------------------------------------------------------------------

fn assert_new(name: &str, settings: Config, want: Option<Error>) {
    let result = Sonyflake::new(settings, &mock::new_successful_interface_addrs());
    let err = result.as_ref().err().cloned();
    assert!(err == want, "{name}: unexpected error: {err:?}");
    assert!(!(want.is_none() && result.is_err()), "{name}: sonyflake instance must be created");
}

#[test]
fn test_new_invalid_bit_length_for_time() {
    assert_new(
        "invalid bit length for time",
        Settings { bits_sequence: 16, bits_machine_id: 16, ..Default::default() },
        Some(Error::InvalidBitsTime),
    );
}

#[test]
fn test_new_invalid_bit_length_for_sequence_number() {
    assert_new(
        "invalid bit length for sequence number",
        Settings { bits_sequence: -1, ..Default::default() },
        Some(Error::InvalidBitsSequence),
    );
}

#[test]
fn test_new_invalid_bit_length_for_machine_id() {
    assert_new(
        "invalid bit length for machine id",
        Settings { bits_machine_id: 31, ..Default::default() },
        Some(Error::InvalidBitsMachineId),
    );
}

#[test]
fn test_new_invalid_time_unit() {
    assert_new(
        "invalid time unit",
        Settings { time_unit: microsecond(), ..Default::default() },
        Some(Error::InvalidTimeUnit),
    );
}

#[test]
fn test_new_start_time_ahead() {
    assert_new(
        "start time ahead",
        Settings { start_time: Some(add(now(), minute())), ..Default::default() },
        Some(Error::StartTimeAhead),
    );
}

#[test]
fn test_new_cannot_get_machine_id() {
    let err_get_machine_id = Error::message("failed to get machine id");
    let err = err_get_machine_id.clone();
    assert_new(
        "cannot get machine id",
        Settings { machine_id: Some(Box::new(move || Err(err.clone()))), ..Default::default() },
        Some(err_get_machine_id),
    );
}

#[test]
fn test_new_too_large_machine_id() {
    assert_new(
        "too large machine id",
        Settings { machine_id: Some(Box::new(|| Ok(1 << DEFAULT_BITS_MACHINE))), ..Default::default() },
        Some(Error::InvalidMachineId),
    );
}

#[test]
fn test_new_negative_machine_id() {
    assert_new(
        "negative machine id",
        Settings { machine_id: Some(Box::new(|| Ok(-1))), ..Default::default() },
        Some(Error::InvalidMachineId),
    );
}

#[test]
fn test_new_invalid_machine_id() {
    assert_new(
        "invalid machine id",
        Settings { check_machine_id: Some(Box::new(|_| false)), ..Default::default() },
        Some(Error::InvalidMachineId),
    );
}

#[test]
fn mod_test_new_success() {
    assert_new("success", Settings::default(), None);
}

/// The checks come in Go's order: the bit lengths before the time unit, the
/// time unit before the start time, and the sum of the bit lengths last.
#[test]
fn new_reports_the_first_error() {
    assert_new(
        "bits and unit",
        Settings { bits_sequence: 31, time_unit: Duration(-1), ..Default::default() },
        Some(Error::InvalidBitsSequence),
    );
    assert_new(
        "unit and start",
        Settings { time_unit: Duration(1), start_time: Some(add(now(), hour())), ..Default::default() },
        Some(Error::InvalidTimeUnit),
    );
    assert_new(
        "start and bits",
        Settings {
            bits_sequence: 20,
            bits_machine_id: 20,
            start_time: Some(add(now(), hour())),
            ..Default::default()
        },
        Some(Error::StartTimeAhead),
    );
    let r = Sonyflake::new(Config::default(), &mock::new_nil_interface_addrs());
    assert_eq!(r.err(), Some(Error::NoPrivateAddress));
    let r = Sonyflake::new(Config::default(), &mock::new_failing_interface_addrs());
    assert_eq!(r.err(), Some(mock::err_failed_to_get_addresses()));
}

// ---------------------------------------------------------------------------
// Generation
// ---------------------------------------------------------------------------

#[test]
fn test_next_id() {
    let start = now();
    let mut sf = new_sonyflake(Settings { start_time: Some(start), ..Default::default() });

    let sleep_time: i64 = 50;
    let time_unit = sf.time_unit().nanoseconds();
    let clock = add(start, Duration(sleep_time * time_unit));
    let current = sf.to_internal_time(clock) - sf.start_time();

    let id = sf.next_id_at(current).id.expect("failed to generate id");

    let actual_time = sf.time_part(id);
    if actual_time != sleep_time {
        panic!("unexpected time: {actual_time}");
    }

    let actual_sequence = sf.sequence_part(id);
    if actual_sequence != 0 {
        panic!("unexpected sequence: {actual_sequence}");
    }

    let actual_machine = sf.machine_part(id);
    if actual_machine != default_machine_id() as i64 {
        panic!("unexpected machine: {actual_machine}");
    }

    println!("sonyflake id: {id}");
    println!("decompose: {}", format_decomposed(&sf.decompose(id).entries()));
}

#[test]
fn test_next_id_in_sequence() {
    let start = now();
    let mut sf = new_sonyflake(Settings {
        time_unit: millisecond(),
        start_time: Some(start),
        ..Default::default()
    });
    let start_time = sf.to_internal_time(start);
    let machine_id = default_machine_id() as i64;

    let mut num_id: i32 = 0;
    let mut last_id: i64 = 0;
    let mut max_seq: i64 = 0;

    let mut current_time = start_time;
    while current_time - start_time < 100 {
        let id = next_id(&mut sf);
        current_time = sf.to_internal_time(now());
        num_id += 1;

        if id == last_id {
            panic!("duplicated id");
        }
        if id < last_id {
            panic!("must increase with time");
        }
        last_id = id;

        let parts = sf.decompose(id);

        let overtime = start_time + parts.time - current_time;
        if overtime > 0 {
            panic!("unexpected overtime: {overtime}");
        }

        if parts.sequence > max_seq {
            max_seq = parts.sequence;
        }

        if parts.machine != machine_id {
            panic!("unexpected machine: {}", parts.machine);
        }
    }

    if max_seq > (1i64 << sf.bits_sequence()) - 1 {
        panic!("unexpected max sequence: {max_seq}");
    }
    println!("max sequence: {max_seq}");
    println!("number of id: {num_id}");
}

fn pseudo_sleep(sf: &mut Sonyflake, period: Duration) {
    let time_unit = sf.time_unit().nanoseconds();
    sf.sub_start_time(period.nanoseconds() / time_unit);
}

fn year() -> Duration {
    Duration(365 * 24 * hour().nanoseconds())
}

#[test]
fn test_next_id_returns_error() {
    let mut sf = new_sonyflake(Settings { start_time: Some(now()), ..Default::default() });

    pseudo_sleep(&mut sf, 174 * year());
    next_id(&mut sf);

    pseudo_sleep(&mut sf, year());
    let g = sf.next_id();
    if g.id.is_ok() {
        panic!("time is not over");
    }
    assert_eq!(g.id.err(), Some(Error::OverTimeLimit));
}

/// With 2 sequence bits the sequence runs out after four IDs in a time unit,
/// and the next ID is stamped one unit ahead.
#[test]
fn next_id_at_with_a_short_sequence() {
    let mut sf = new_sonyflake(Settings {
        bits_sequence: 2,
        start_time: Some(now()),
        machine_id: Some(Box::new(|| Ok(5))),
        ..Default::default()
    });
    let mut last = -1i64;
    for i in 0..4i64 {
        let step = sf.next_id_at(7);
        assert_eq!(step.overtime, None);
        let id = step.id.unwrap();
        assert_eq!(sf.decompose(id).sequence, i);
        assert_eq!(sf.decompose(id).time, 7);
        assert_eq!(sf.decompose(id).machine, 5);
        assert!(id > last);
        last = id;
    }
    let step = sf.next_id_at(7);
    assert_eq!(step.overtime, Some(1));
    let id = step.id.unwrap();
    assert!(id > last);
    assert_eq!(sf.decompose(id).time, 8);
    assert_eq!(sf.decompose(id).sequence, 0);
}

// ---------------------------------------------------------------------------
// TestPrivateIPv4
// ---------------------------------------------------------------------------

fn assert_private_ipv4<F: Fn() -> Result<Vec<Addr>, Error>>(
    description: &str,
    interface_addrs: F,
    expected: Option<Ip>,
    error: Option<Error>,
) {
    let (actual, err) = match private_ipv4(&interface_addrs) {
        Ok(ip) => (Some(ip), None),
        Err(err) => (None, Some(err)),
    };

    assert!(err == error, "{description}: unexpected error: {err:?}");

    let equal = match (&actual, &expected) {
        (Some(a), Some(e)) => a.equal(e),
        (None, None) => true,
        _ => false,
    };
    if !equal {
        panic!("{description}: unexpected ip: {}", ip_to_string(&actual));
    }
}

#[test]
fn test_private_ipv4_returns_an_error() {
    assert_private_ipv4(
        "returns an error",
        mock::new_failing_interface_addrs(),
        None,
        Some(mock::err_failed_to_get_addresses()),
    );
}

#[test]
fn test_private_ipv4_empty_address_list() {
    assert_private_ipv4(
        "empty address list",
        mock::new_nil_interface_addrs(),
        None,
        Some(Error::NoPrivateAddress),
    );
}

#[test]
fn test_private_ipv4_success() {
    assert_private_ipv4(
        "success",
        mock::new_successful_interface_addrs(),
        Some(Ip(vec![192, 168, 0, 1])),
        None,
    );
}

// ---------------------------------------------------------------------------
// TestLower16BitPrivateIP
// ---------------------------------------------------------------------------

fn assert_lower16_bit_private_ip<F: Fn() -> Result<Vec<Addr>, Error>>(
    description: &str,
    interface_addrs: F,
    expected: i32,
    error: Option<Error>,
) {
    let (actual, err) = match lower16_bit_private_ip(&interface_addrs) {
        Ok(ip) => (ip, None),
        Err(err) => (0, Some(err)),
    };

    assert!(err == error, "{description}: unexpected error: {err:?}");

    if actual != expected {
        panic!("{description}: unexpected ip: {actual}");
    }
}

#[test]
fn test_lower16_bit_private_ip_returns_an_error() {
    assert_lower16_bit_private_ip(
        "returns an error",
        mock::new_failing_interface_addrs(),
        0,
        Some(mock::err_failed_to_get_addresses()),
    );
}

#[test]
fn test_lower16_bit_private_ip_empty_address_list() {
    assert_lower16_bit_private_ip(
        "empty address list",
        mock::new_nil_interface_addrs(),
        0,
        Some(Error::NoPrivateAddress),
    );
}

#[test]
fn test_lower16_bit_private_ip_success() {
    assert_lower16_bit_private_ip("success", mock::new_successful_interface_addrs(), 1, None);
}

// ---------------------------------------------------------------------------
// TestToTime
// ---------------------------------------------------------------------------

#[test]
fn test_to_time() {
    let start = now();
    let mut sf = new_sonyflake(Settings {
        time_unit: millisecond(),
        start_time: Some(start),
        ..Default::default()
    });

    let current = sf.to_internal_time(start) - sf.start_time();
    let id = sf.next_id_at(current).id.expect("failed to generate id");

    let tm = sf.to_time(id);
    let diff = sub(tm, start);
    if diff.0 < 0 || diff.0 >= sf.time_unit().0 {
        panic!("unexpected time: {}", diff.to_string());
    }
}

/// The time of an ID is the start plus its time part, in whole units.
#[test]
fn to_time_of_a_composed_id() {
    let start = gotime::date(2025, 1, 1, 0, 0, 0, 0);
    let sf = new_sonyflake(Settings {
        time_unit: 100 * millisecond(),
        start_time: Some(start),
        ..Default::default()
    });
    let t = gotime::date(2025, 1, 1, 0, 0, 1, 250_000_000);
    let id = sf.compose(t, 3, 4).unwrap();
    assert_eq!(sf.time_part(id), 12);
    assert_eq!(sf.to_time(id), gotime::date(2025, 1, 1, 0, 0, 1, 200_000_000));
}

// ---------------------------------------------------------------------------
// TestComposeAndDecompose
// ---------------------------------------------------------------------------

fn compose_fixture() -> (Sonyflake, Time) {
    let now = now();
    let sf = new_sonyflake(Settings {
        time_unit: millisecond(),
        start_time: Some(now),
        ..Default::default()
    });
    (sf, now)
}

fn assert_compose_and_decompose(name: &str, sf: &Sonyflake, t: Time, sequence: i32, machine_id: i32) {
    let id = match sf.compose(t, sequence, machine_id) {
        Ok(id) => id,
        Err(err) => panic!("{name}: unexpected error: {}", err.to_string()),
    };

    let parts = sf.decompose(id);

    let expected_time = sf.to_internal_time(t) - sf.start_time();
    if parts.time != expected_time {
        panic!("{name}: time mismatch: got {}, want {}", parts.time, expected_time);
    }
    if parts.sequence != sequence as i64 {
        panic!("{name}: sequence mismatch: got {}, want {}", parts.sequence, sequence);
    }
    if parts.machine != machine_id as i64 {
        panic!("{name}: machine id mismatch: got {}, want {}", parts.machine, machine_id);
    }
    if parts.id != id {
        panic!("{name}: id mismatch: got {}, want {}", parts.id, id);
    }
}

#[test]
fn test_compose_and_decompose_zero_values() {
    let (sf, now) = compose_fixture();
    assert_compose_and_decompose("zero values", &sf, now, 0, 0);
}

#[test]
fn test_compose_and_decompose_max_sequence() {
    let (sf, now) = compose_fixture();
    let sequence = (1i32 << sf.bits_sequence()) - 1;
    assert_compose_and_decompose("max sequence", &sf, now, sequence, 0);
}

#[test]
fn test_compose_and_decompose_max_machine_id() {
    let (sf, now) = compose_fixture();
    let machine_id = (1i32 << sf.bits_machine()) - 1;
    assert_compose_and_decompose("max machine id", &sf, now, 0, machine_id);
}

#[test]
fn test_compose_and_decompose_future_time() {
    let (sf, now) = compose_fixture();
    assert_compose_and_decompose("future time", &sf, add(now, hour()), 0, 0);
}

// ---------------------------------------------------------------------------
// TestCompose_ReturnsError
// ---------------------------------------------------------------------------

fn compose_error_fixture() -> (Sonyflake, Time) {
    let start = now();
    let sf = new_sonyflake(Settings { start_time: Some(start), ..Default::default() });
    (sf, start)
}

fn assert_compose_error(name: &str, sf: &Sonyflake, t: Time, sequence: i32, machine_id: i32, want: Error) {
    let err = sf.compose(t, sequence, machine_id).err();
    if err != Some(want) {
        panic!("{name}: unexpected error: {err:?}");
    }
}

#[test]
fn test_compose_returns_error_start_time_ahead() {
    let (sf, start) = compose_error_fixture();
    assert_compose_error("start time ahead", &sf, add(start, -second()), 0, 0, Error::StartTimeAhead);
}

#[test]
fn test_compose_returns_error_over_time_limit() {
    let (sf, start) = compose_error_fixture();
    assert_compose_error("over time limit", &sf, add(start, 175 * year()), 0, 0, Error::OverTimeLimit);
}

#[test]
fn test_compose_returns_error_invalid_sequence() {
    let (sf, start) = compose_error_fixture();
    let sequence = 1 << sf.bits_sequence();
    assert_compose_error("invalid sequence", &sf, start, sequence, 0, Error::InvalidSequence);
}

#[test]
fn test_compose_returns_error_invalid_machine_id() {
    let (sf, start) = compose_error_fixture();
    let machine_id = 1 << sf.bits_machine();
    assert_compose_error("invalid machine id", &sf, start, 0, machine_id, Error::InvalidMachineId);
}

/// Negative parts are refused too.
#[test]
fn compose_refuses_negative_parts() {
    let (sf, start) = compose_error_fixture();
    assert_compose_error("negative sequence", &sf, start, -1, 0, Error::InvalidSequence);
    assert_compose_error("negative machine id", &sf, start, 0, -1, Error::InvalidMachineId);
}

// ---------------------------------------------------------------------------
// AWS
// ---------------------------------------------------------------------------

fn parse_ipv6(s: &str) -> Option<Vec<u8>> {
    if s == "::ffff:10.1.2.3" {
        Some(vec![0, 0, 0, 0, 0, 0, 0, 0, 0, 0, 0xff, 0xff, 10, 1, 2, 3])
    } else if s == "2001:db8::1" {
        Some(vec![0x20, 0x01, 0xd, 0xb8, 0, 0, 0, 0, 0, 0, 0, 0, 0, 0, 0, 1])
    } else {
        None
    }
}

/// Go's `regexp` `offset (.*) sec`: greedy within one line.
#[test]
fn test_find_offset_seconds() {
    assert_eq!(
        find_offset_seconds("server 1.2.3.4, stratum 2, offset -0.012345 sec\n"),
        Some("-0.012345")
    );
    assert_eq!(find_offset_seconds("offset 1 sec and 2 sec"), Some("1 sec and 2"));
    assert_eq!(find_offset_seconds("offset 1\nsec"), None);
    assert_eq!(find_offset_seconds("no match here"), None);
}

/// The leftmost match counts, which may lie on a later line than the first
/// `offset `; an empty run is a match.
#[test]
fn find_offset_seconds_edges() {
    assert_eq!(find_offset_seconds("a\noffset 0.5 sec\noffset 9 sec"), Some("0.5"));
    assert_eq!(find_offset_seconds("offset  sec"), Some(""));
    assert_eq!(find_offset_seconds("offset x\noffset 2 sec"), Some("2"));
    assert_eq!(find_offset_seconds("offset x\noffset 1 sec"), Some("1"));
    assert_eq!(find_offset_seconds("offset a offset b sec"), Some("a offset b"));
    assert_eq!(find_offset_seconds("offset sec"), None);
    assert_eq!(find_offset_seconds("offset é sec"), Some("é"));
}

/// The machine ID is the lower 16 bits of the address the metadata service
/// names; anything that is no IPv4 address is an error.
#[test]
fn amazon_ec2_machine_id_from_the_metadata_answer() {
    assert_eq!(amazon_ec2_machine_id(Ok("10.0.3.4".to_string()), &parse_ipv6), Ok(3 * 256 + 4));
    assert_eq!(amazon_ec2_machine_id(Ok("::ffff:10.1.2.3".to_string()), &parse_ipv6), Ok(2 * 256 + 3));
    let e = amazon_ec2_machine_id(Ok("2001:db8::1".to_string()), &parse_ipv6).unwrap_err();
    assert_eq!(e.to_string(), "invalid ip address");
    let e = amazon_ec2_machine_id(Ok("garbage".to_string()), &parse_ipv6).unwrap_err();
    assert_eq!(e.to_string(), "invalid ip address");
    let failed = Error::message("connection refused");
    assert_eq!(amazon_ec2_machine_id(Err(failed.clone()), &parse_ipv6), Err(failed));
}

#[test]
fn amazon_ec2_private_ipv4_from_the_metadata_answer() {
    assert_eq!(
        amazon_ec2_private_ipv4(Ok("172.31.0.9".to_string()), &parse_ipv6),
        Ok(Some(Ip::v4(172, 31, 0, 9)))
    );
    assert_eq!(amazon_ec2_private_ipv4(Ok("2001:db8::1".to_string()), &parse_ipv6), Ok(None));
    let e = amazon_ec2_private_ipv4(Ok("1.2.3".to_string()), &parse_ipv6).unwrap_err();
    assert_eq!(e.to_string(), "invalid ip address");
}

/// Two generators with different machine IDs stepping through the same time
/// units never hand out the same ID.
#[test]
fn machines_never_collide() {
    let start = now();
    let mut a = new_sonyflake(Settings {
        start_time: Some(start),
        machine_id: Some(Box::new(|| Ok(1))),
        ..Default::default()
    });
    let mut b = new_sonyflake(Settings {
        start_time: Some(start),
        machine_id: Some(Box::new(|| Ok(2))),
        ..Default::default()
    });
    let mut seen = std::collections::BTreeSet::new();
    for current in [3i64, 3, 3, 4, 4, 9] {
        for sf in [&mut a, &mut b] {
            let id = sf.next_id_at(current).id.unwrap();
            assert!(seen.insert(id), "duplicated id {id}");
        }
    }
}

/// A failed `ntpdate` run is its exit status; a run without an offset is an
/// error of its own; otherwise the offset text.
#[test]
fn ntpdate_offset_decisions() {
    let e = ntpdate_offset(false, Some(2), "offset 1 sec").unwrap_err();
    assert_eq!(e.to_string(), "exit status 2");
    let e = ntpdate_offset(false, None, "").unwrap_err();
    assert_eq!(e.to_string(), "exit status -1");
    let e = ntpdate_offset(true, Some(0), "no offset").unwrap_err();
    assert_eq!(e.to_string(), "invalid ntpdate output");
    assert_eq!(ntpdate_offset(true, Some(0), "server 1.2.3.4, offset -0.25 sec\n"), Ok("-0.25"));
}

/// The body of an HTTP response starts after the first blank line.
#[test]
fn http_body_starts_after_the_header() {
    let response = b"HTTP/1.1 200 OK\r\nA: b\r\n\r\n10.0.0.1\r\n\r\nx".to_vec();
    assert_eq!(http_body_start(&response), Some(25));
    assert_eq!(http_body_start(&b"HTTP/1.1 200 OK\r\n".to_vec()), None);
    assert_eq!(http_body_start(&b"\r\n\r\n".to_vec()), Some(4));
    assert_eq!(http_body_start(&Vec::new()), None);
}
