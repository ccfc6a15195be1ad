//! The first generation of the generator: creating it, generating IDs, and the
//! machine ID from the host's private address. Each test builds its own
//! generator; the host's addresses are those of the stand-ins in `mock`.

use sonyflake::error::Error;
use sonyflake::gonet::{ip_to_string, Addr, Ip, IpNet};
use sonyflake::gotime::{self, add, after, hour, minute, now, Duration, Time};
use sonyflake::mock;
use sonyflake::{
    compose, decompose, elapsed_time, format_decomposed, lower16_bit_private_ip, machine_id,
    private_ipv4, sequence_number, to_sonyflake_time, Settings, Sonyflake, BIT_LEN_SEQUENCE,
    SONYFLAKE_TIME_UNIT,
};

type MachineId = Box<dyn Fn() -> Result<u16, Error>>;
type CheckMachineId = Box<dyn Fn(u16) -> bool>;
type Config = Settings<MachineId, CheckMachineId>;

/// Waits until `d` has passed on the clock.
fn wait(d: Duration) {
    let end = add(now(), d);
    while !after(now(), end) {}
}

fn new_sonyflake(st: Config) -> Option<Sonyflake> {
    Sonyflake::new_sonyflake(st, &mock::new_successful_interface_addrs())
}

/// Go's `nextID(t)`, waiting as the generator says before the ID is used.
fn next_id(sf: &mut Sonyflake) -> u64 {
    let g = sf.next_id();
    if let Some(d) = g.sleep {
        wait(d);
    }
    match g.id {
        Ok(id) => id,
        Err(_) => panic!("id not generated"),
    }
}

fn current_time() -> i64 {
    to_sonyflake_time(now())
}

fn pseudo_sleep(sf: &mut Sonyflake, period: Duration) {
    sf.sub_start_time(period.nanoseconds() / SONYFLAKE_TIME_UNIT);
}

/// The machine ID of the stand-in host, 192.168.0.1.
const MACHINE_ID: u64 = 1;

// ---------------------------------------------------------------------------
// TestNew
// ---------------------------------------------------------------------------

fn assert_new(name: &str, settings: Config, want: Option<Error>) {
    let result = Sonyflake::new(settings, &mock::new_successful_interface_addrs());
    let err = result.as_ref().err().cloned();
    assert!(err == want, "{name}: unexpected value, want {want:?}, got {err:?}");
    assert!(
        !(result.is_err() && want.is_none()),
        "{name}: unexpected value, sonyflake should not be nil"
    );
}

#[test]
fn test_new_failure_time_ahead() {
    assert_new(
        "failure: time ahead",
        Settings { start_time: Some(add(now(), minute())), ..Default::default() },
        Some(Error::StartTimeAhead),
    );
}

#[test]
fn test_new_failure_machine_id() {
    let gen_error = Error::message("an error occurred while generating ID");
    let inner = gen_error.clone();
    assert_new(
        "failure: machine ID",
        Settings { machine_id: Some(Box::new(move || Err(inner.clone()))), ..Default::default() },
        Some(gen_error),
    );
}

#[test]
fn test_new_failure_invalid_machine_id() {
    assert_new(
        "failure: invalid machine ID",
        Settings { check_machine_id: Some(Box::new(|_| false)), ..Default::default() },
        Some(Error::InvalidMachineId),
    );
}

#[test]
fn test_new_success() {
    assert_new("success", Settings::default(), None);
}

/// Without a private address there is no default machine ID.
#[test]
fn new_without_private_address_fails() {
    let r = Sonyflake::new(Config::default(), &mock::new_nil_interface_addrs());
    assert_eq!(r.err(), Some(Error::NoPrivateAddress));
    let r = Sonyflake::new_sonyflake(Config::default(), &mock::new_failing_interface_addrs());
    assert!(r.is_none());
}

// ---------------------------------------------------------------------------
// Generation
// ---------------------------------------------------------------------------

#[test]
fn test_sonyflake_once() {
    let start = now();
    let mut sf = new_sonyflake(Settings { start_time: Some(start), ..Default::default() })
        .expect("sonyflake not created");

    let sleep_time = Duration(50 * SONYFLAKE_TIME_UNIT);
    wait(sleep_time);

    let id = next_id(&mut sf);

    let actual_time = elapsed_time(id);
    if actual_time.0 < sleep_time.0 || actual_time.0 > sleep_time.0 + SONYFLAKE_TIME_UNIT {
        panic!("unexpected time: {}", actual_time.nanoseconds());
    }

    let actual_sequence = sequence_number(id);
    if actual_sequence != 0 {
        panic!("unexpected sequence: {actual_sequence}");
    }

    let actual_machine_id = machine_id(id);
    if actual_machine_id != MACHINE_ID {
        panic!("unexpected machine id: {actual_machine_id}");
    }

    println!("sonyflake id: {id}");
    println!("decompose: {}", format_decomposed(&decompose(id).entries()));
}

#[test]
fn test_sonyflake_for_10_sec() {
    let start = now();
    let start_time = to_sonyflake_time(start);
    let mut sf = new_sonyflake(Settings { start_time: Some(start), ..Default::default() })
        .expect("sonyflake not created");

    let mut num_id: u32 = 0;
    let mut last_id: u64 = 0;
    let mut max_sequence: u64 = 0;

    let initial = current_time();
    let mut current = initial;
    while current - initial < 1000 {
        let id = next_id(&mut sf);
        let parts = decompose(id);
        num_id += 1;

        if id == last_id {
            panic!("duplicated id");
        }
        if id < last_id {
            panic!("must increase with time");
        }
        last_id = id;

        current = current_time();

        if parts.msb != 0 {
            panic!("unexpected msb: {}", parts.msb);
        }

        let overtime = start_time + parts.time as i64 - current;
        if overtime > 0 {
            panic!("unexpected overtime: {overtime}");
        }

        if max_sequence < parts.sequence {
            max_sequence = parts.sequence;
        }

        if parts.machine_id != MACHINE_ID {
            panic!("unexpected machine id: {}", parts.machine_id);
        }
    }

    if max_sequence != (1u64 << BIT_LEN_SEQUENCE) - 1 {
        panic!("unexpected max sequence: {max_sequence}");
    }
    println!("max sequence: {max_sequence}");
    println!("number of id: {num_id}");
}

#[test]
fn test_next_id_error() {
    let mut sf = new_sonyflake(Settings { start_time: Some(now()), ..Default::default() })
        .expect("sonyflake not created");
    let year = 365 * 24 * hour();
    pseudo_sleep(&mut sf, 174 * year);
    next_id(&mut sf);

    pseudo_sleep(&mut sf, year);
    let g = sf.next_id();
    if g.id.is_ok() {
        panic!("time is not over");
    }
    assert_eq!(g.id.err(), Some(Error::OverTimeLimit));
}

/// Within one time unit the sequence counts up; when it runs out the ID is
/// stamped with the next unit and the generator says how long to wait.
#[test]
fn next_id_at_steps_through_the_sequence() {
    let mut sf = new_sonyflake(Settings { start_time: Some(now()), ..Default::default() })
        .expect("sonyflake not created");
    let first = sf.next_id_at(10);
    assert_eq!(first.overtime, None);
    let first = first.id.unwrap();
    assert_eq!(decompose(first).time, 10);
    assert_eq!(decompose(first).sequence, 0);
    let mut last = first;
    for i in 1..256u64 {
        let step = sf.next_id_at(10);
        let id = step.id.unwrap();
        assert_eq!(decompose(id).sequence, i);
        assert!(id > last);
        last = id;
    }
    let step = sf.next_id_at(10);
    assert_eq!(step.overtime, Some(1));
    let id = step.id.unwrap();
    assert_eq!(decompose(id).time, 11);
    assert_eq!(decompose(id).sequence, 0);
    // A clock that went back leaves the time where it was.
    let id = sf.next_id_at(3).id.unwrap();
    assert_eq!(decompose(id).time, 11);
    assert_eq!(decompose(id).sequence, 1);
}

// ---------------------------------------------------------------------------
// TestPrivateIPv4
// ---------------------------------------------------------------------------

fn assert_private_ipv4<F: Fn() -> Result<Vec<sonyflake::gonet::Addr>, Error>>(
    description: &str,
    interface_addrs: F,
    expected: Option<Ip>,
    error: &str,
) {
    let (actual, err) = match private_ipv4(&interface_addrs) {
        Ok(ip) => (Some(ip), None),
        Err(err) => (None, Some(err)),
    };

    if let Some(err) = err {
        if error.is_empty() {
            panic!("{description}: expected no error, but got: {}", err.to_string());
        }
        assert_eq!(err.to_string(), error);
        return;
    }

    let equal = match (&actual, &expected) {
        (Some(a), Some(e)) => a.equal(e),
        (None, None) => true,
        _ => false,
    };
    if !equal {
        panic!(
            "{description}: error: expected: {}, but got: {}",
            ip_to_string(&expected),
            ip_to_string(&actual)
        );
    }
}

#[test]
fn test_private_ipv4_interface_addrs_returns_an_error() {
    assert_private_ipv4(
        "InterfaceAddrs returns an error",
        mock::new_failing_interface_addrs(),
        None,
        "test error",
    );
}

#[test]
fn test_private_ipv4_interface_addrs_returns_an_empty_or_nil_list() {
    assert_private_ipv4(
        "InterfaceAddrs returns an empty or nil list",
        mock::new_nil_interface_addrs(),
        None,
        "no private ip address",
    );
}

#[test]
fn test_private_ipv4_interface_addrs_returns_one_or_more_ips() {
    assert_private_ipv4(
        "InterfaceAddrs returns one or more IPs",
        mock::new_successful_interface_addrs(),
        Some(Ip(vec![192, 168, 0, 1])),
        "",
    );
}

/// Loopback and public addresses are passed over; the first private one wins,
/// in either width.
#[test]
fn private_ipv4_skips_loopback_and_public_addresses() {
    let net = |ip: Vec<u8>| Addr::IpNet(IpNet { ip: Ip(ip), mask: vec![255, 0, 0, 0] });
    let addrs = vec![
        Addr::IpAddr(Ip::v4(10, 0, 0, 1)),
        net(vec![127, 0, 0, 1]),
        net(vec![8, 8, 8, 8]),
        net(vec![172, 32, 0, 1]),
        net(vec![0, 0, 0, 0, 0, 0, 0, 0, 0, 0, 0xff, 0xff, 172, 16, 3, 4]),
        net(vec![10, 1, 2, 3]),
    ];
    let listed = addrs.clone();
    let ip = private_ipv4(&move || Ok(listed.clone())).unwrap();
    assert_eq!(ip, Ip::v4(172, 16, 3, 4));
    let listed = addrs.clone();
    assert_eq!(lower16_bit_private_ip(&move || Ok(listed.clone())), Ok(3 * 256 + 4));
    let link_local = vec![net(vec![169, 254, 9, 9])];
    assert_eq!(lower16_bit_private_ip(&move || Ok(link_local.clone())), Ok(9 * 256 + 9));
}

// ---------------------------------------------------------------------------
// TestLower16BitPrivateIP
// ---------------------------------------------------------------------------

fn assert_lower16_bit_private_ip<F: Fn() -> Result<Vec<sonyflake::gonet::Addr>, Error>>(
    description: &str,
    interface_addrs: F,
    expected: u16,
    error: &str,
) {
    let (actual, err) = match lower16_bit_private_ip(&interface_addrs) {
        Ok(ip) => (ip, None),
        Err(err) => (0, Some(err)),
    };

    if let Some(err) = err {
        if error.is_empty() {
            panic!("{description}: expected no error, but got: {}", err.to_string());
        }
        assert_eq!(err.to_string(), error);
        return;
    }

    if actual != expected {
        panic!("{description}: error: expected: {expected}, but got: {actual}");
    }
}

#[test]
fn test_lower16_bit_private_ip_interface_addrs_returns_an_empty_or_nil_list() {
    assert_lower16_bit_private_ip(
        "InterfaceAddrs returns an empty or nil list",
        mock::new_nil_interface_addrs(),
        0,
        "no private ip address",
    );
}

#[test]
fn test_lower16_bit_private_ip_interface_addrs_returns_one_or_more_ips() {
    assert_lower16_bit_private_ip(
        "InterfaceAddrs returns one or more IPs",
        mock::new_successful_interface_addrs(),
        1,
        "",
    );
}

// ---------------------------------------------------------------------------
// Compose
// ---------------------------------------------------------------------------

#[test]
fn test_compose() {
    let start_time = gotime::date(2023, 1, 1, 0, 0, 0, 0);
    let st: Config = Settings { start_time: Some(start_time), ..Default::default() };
    let sf = match Sonyflake::new(st, &mock::new_successful_interface_addrs()) {
        Ok(sf) => sf,
        Err(err) => panic!("{}", err.to_string()),
    };

    let now: Time = now();
    let sequence: u16 = 123;
    let machine_id: u16 = 456;

    let id = match compose(&sf, now, sequence, machine_id) {
        Ok(id) => id,
        Err(err) => panic!("{}", err.to_string()),
    };

    let parts = decompose(id);

    let actual_time = to_sonyflake_time(now) - to_sonyflake_time(start_time);
    if parts.time != actual_time as u64 {
        panic!("unexpected time: {}", parts.time);
    }

    if parts.sequence != sequence as u64 {
        panic!("unexpected sequence: {}", parts.sequence);
    }

    if parts.machine_id != machine_id as u64 {
        panic!("unexpected machine id: {}", parts.machine_id);
    }
}

/// Decomposing what was composed gives back the parts, on the edges of each.
#[test]
fn compose_decompose_round_trip_edges() {
    let start = gotime::date(2014, 9, 1, 0, 0, 0, 0);
    let sf = Sonyflake::new(
        Config { start_time: Some(start), machine_id: Some(Box::new(|| Ok(7))), ..Default::default() },
        &mock::new_nil_interface_addrs(),
    )
    .unwrap();
    let last = add(start, Duration(((1i64 << 39) - 1) * SONYFLAKE_TIME_UNIT));
    for (t, seq, mid) in [(start, 0u16, 0u16), (last, 255, 65535), (last, 0, 1)] {
        let id = compose(&sf, t, seq, mid).unwrap();
        let p = decompose(id);
        assert_eq!(p.id, id);
        assert_eq!(p.msb, 0);
        assert_eq!(p.time as i64, to_sonyflake_time(t) - to_sonyflake_time(start));
        assert_eq!(p.sequence, seq as u64);
        assert_eq!(p.machine_id, mid as u64);
    }
    let over = add(start, Duration((1i64 << 39) * SONYFLAKE_TIME_UNIT));
    assert_eq!(compose(&sf, over, 0, 0), Err(Error::OverTimeLimit));
}
