//! Golden values of the Go implementation for the second generation: the bit
//! layouts, the time arithmetic and the error messages.

use sonyflake::gotime::{self, millisecond, second, Duration};
use sonyflake::v2::mock;
use sonyflake::v2::{format_decomposed, Error, Settings, Sonyflake};

type Config = Settings<Box<dyn Fn() -> Result<i32, Error>>, Box<dyn Fn(i32) -> bool>>;

fn new(st: Config) -> Result<Sonyflake, Error> {
    Sonyflake::new(st, &mock::new_successful_interface_addrs())
}

/// A fixed start time and machine ID, so every composed ID is deterministic.
fn fixture(bits_sequence: i32, bits_machine_id: i32, time_unit: Duration) -> Sonyflake {
    new(Settings {
        bits_sequence,
        bits_machine_id,
        time_unit,
        start_time: Some(gotime::date(2025, 1, 1, 0, 0, 0, 0)),
        machine_id: Some(Box::new(|| Ok(1))),
        ..Default::default()
    })
    .expect("failed to create sonyflake")
}

#[test]
fn compose_matches_go_across_bit_layouts() {
    let tm = gotime::date(2026, 3, 4, 5, 6, 7, 890_000_000);

    let cases = [
        (
            0,
            0,
            Duration(0),
            61_926_663_650_344_961i64,
            "map[id:61926663650344961 machine:1 sequence:1 time:3691116789]",
            gotime::date(2026, 3, 4, 5, 6, 7, 890_000_000),
        ),
        (
            10,
            12,
            millisecond(),
            154_816_659_125_702_657,
            "map[id:154816659125702657 machine:1 sequence:1 time:36911167890]",
            gotime::date(2026, 3, 4, 5, 6, 7, 890_000_000),
        ),
        (
            4,
            8,
            100 * millisecond(),
            1_511_881_433_345,
            "map[id:1511881433345 machine:1 sequence:1 time:369111678]",
            gotime::date(2026, 3, 4, 5, 6, 7, 800_000_000),
        ),
        (
            30,
            1,
            second(),
            79_266_127_561_097_219,
            "map[id:79266127561097219 machine:1 sequence:1 time:36911167]",
            gotime::date(2026, 3, 4, 5, 6, 7, 0),
        ),
    ];

    for (bs, bm, unit, want_id, want_parts, want_time) in cases {
        let sf = fixture(bs, bm, unit);
        let id = sf.compose(tm, 1, 1).expect("compose failed");
        let label = format!("({bs},{bm},{})", unit.to_string());
        assert_eq!(id, want_id, "id for {label}");
        assert_eq!(format_decomposed(&sf.decompose(id).entries()), want_parts, "parts for {label}");
        assert_eq!(sf.to_time(id), want_time, "to_time for {label}");
    }
}

#[test]
fn go_parity_compose_errors_match_go() {
    let sf = fixture(0, 0, Duration(0));

    let cases = [
        (gotime::date(2024, 1, 1, 0, 0, 0, 0), 0i32, 0i32, Error::StartTimeAhead, "start time is ahead"),
        // Go's UnixNano wraps past the year 2262, which turns a far-future time
        // into a negative elapsed time rather than a limit error.
        (gotime::date(2400, 1, 1, 0, 0, 0, 0), 0, 0, Error::StartTimeAhead, "start time is ahead"),
        (gotime::date(2026, 1, 1, 0, 0, 0, 0), 256, 0, Error::InvalidSequence, "invalid sequence number"),
        (gotime::date(2026, 1, 1, 0, 0, 0, 0), 0, 65536, Error::InvalidMachineId, "invalid machine id"),
    ];

    for (t, seq, mid, want, want_message) in cases {
        let err = sf.compose(t, seq, mid).expect_err("expected an error");
        assert_eq!(err, want);
        assert_eq!(err.to_string(), want_message);
    }
}

#[test]
fn new_errors_match_go() {
    let cases: Vec<(Config, Error, &str)> = vec![
        (
            Settings { bits_sequence: 16, bits_machine_id: 16, ..Default::default() },
            Error::InvalidBitsTime,
            "bit length for time must be 32 or more",
        ),
        (
            Settings { bits_sequence: 31, ..Default::default() },
            Error::InvalidBitsSequence,
            "invalid bit length for sequence number",
        ),
        (
            Settings { bits_machine_id: -1, ..Default::default() },
            Error::InvalidBitsMachineId,
            "invalid bit length for machine id",
        ),
        (
            Settings { time_unit: Duration(-1), ..Default::default() },
            Error::InvalidTimeUnit,
            "invalid time unit",
        ),
    ];

    for (settings, want, want_message) in cases {
        let err = new(settings).err().expect("expected an error");
        assert_eq!(err, want);
        assert_eq!(err.to_string(), want_message);
    }

    assert_eq!(Error::NoPrivateAddress.to_string(), "no private ip address");
    assert_eq!(Error::OverTimeLimit.to_string(), "over the time limit");
}

/// A time unit of exactly 1 msec is the documented lower bound and is accepted.
#[test]
fn time_unit_boundary_matches_go() {
    assert!(new(Settings {
        time_unit: millisecond(),
        machine_id: Some(Box::new(|| Ok(1))),
        ..Default::default()
    })
    .is_ok());
    assert_eq!(
        new(Settings {
            time_unit: millisecond() - Duration(1),
            machine_id: Some(Box::new(|| Ok(1))),
            ..Default::default()
        })
        .err(),
        Some(Error::InvalidTimeUnit)
    );
}

/// Go's default start time is "2025-01-01 00:00:00 +0000 UTC".
#[test]
fn go_parity_default_start_time_matches_go() {
    let default = new(Settings { machine_id: Some(Box::new(|| Ok(1))), ..Default::default() })
        .expect("failed to create sonyflake");

    let t = gotime::date(2026, 3, 4, 5, 6, 7, 890_000_000);
    assert_eq!(default.compose(t, 1, 1), Ok(61_926_663_650_344_961));
}

/// The default bit lengths are part of the wire format and must not drift.
#[test]
fn default_bit_lengths_match_go() {
    let sf = fixture(0, 0, Duration(0));
    assert_eq!(sf.bits_sequence(), 8);
    assert_eq!(sf.bits_machine(), 16);
    assert_eq!(sf.bits_time(), 39);
    assert_eq!(sf.time_unit(), 10 * millisecond());
}

/// The widest layouts the settings allow: one bit of machine ID with thirty of
/// sequence, and the reverse, both leaving 32 bits of time.
#[test]
fn extreme_bit_layouts() {
    let sf = fixture(30, 1, second());
    assert_eq!(sf.bits_time(), 32);
    let sf = fixture(1, 30, second());
    assert_eq!(sf.bits_time(), 32);
    let t = gotime::date(2025, 1, 1, 0, 0, 5, 0);
    let id = sf.compose(t, 1, (1 << 30) - 1).unwrap();
    let p = sf.decompose(id);
    assert_eq!((p.time, p.sequence, p.machine), (5, 1, (1 << 30) - 1));
    assert_eq!(id, (5 << 31) | (1 << 30) | ((1 << 30) - 1));
}

/// Any map renders in key order, an empty one as `map[]`, negative values
/// with their sign.
#[test]
fn v2_format_decomposed_of_any_map() {
    assert_eq!(format_decomposed(&Vec::new()), "map[]");
    let parts = std::collections::BTreeMap::from([
        ("id".to_string(), 61_926_663_650_344_961i64),
        ("machine".to_string(), 1),
        ("sequence".to_string(), 1),
        ("time".to_string(), 3_691_116_789),
    ]);
    let entries: Vec<(String, i64)> = parts.into_iter().collect();
    assert_eq!(
        format_decomposed(&entries),
        "map[id:61926663650344961 machine:1 sequence:1 time:3691116789]"
    );
    assert_eq!(format_decomposed(&vec![("x".to_string(), -5)]), "map[x:-5]");
}
