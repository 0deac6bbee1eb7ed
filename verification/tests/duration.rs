use opp::binary64::fractional_nanos;
use opp::duration::{parse_ascii_integer, parse_duration};
use std::time::Duration;

fn parsed(text: &str) -> Option<Duration> {
    parse_duration(text).map(Duration::from_nanos)
}

#[test]
fn parses_go_style_durations() {
    assert_eq!(parsed("1.5s"), Some(Duration::from_millis(1500)));
    assert_eq!(parsed("1m30s"), Some(Duration::from_secs(90)));
    assert_eq!(parsed("600s"), Some(Duration::from_secs(600)));
    assert_eq!(parsed("999ms"), None);
    assert_eq!(parsed("10m1ns"), None);
    assert_eq!(parsed("-2s"), None);
    assert_eq!(parsed("+1s"), Some(Duration::from_secs(1)));
    assert_eq!(parsed("1.s"), Some(Duration::from_secs(1)));
    assert_eq!(parsed("1000000us"), Some(Duration::from_secs(1)));
    assert_eq!(parsed("1000000µs"), Some(Duration::from_secs(1)));
    assert_eq!(parsed("1000000μs"), Some(Duration::from_secs(1)));
    assert_eq!(
        parsed("1.0000000000000000000000000000000000000000000000001s"),
        Some(Duration::from_secs(1))
    );
    for invalid in ["", "0", "+", ".s", "1", "1e3s", "1ss", "--1s"] {
        assert_eq!(parsed(invalid), None, "accepted {invalid}");
    }
}

#[test]
fn sums_segments_of_every_unit() {
    assert_eq!(parse_duration("1s2ms3us4ns"), Some(1_002_003_004));
    assert_eq!(parse_duration("0.1h"), Some(360_000_000_000));
    assert_eq!(parse_duration(".5m.5m"), Some(60_000_000_000));
    assert_eq!(parse_duration("1.9999999999s"), Some(1_999_999_999));
    assert_eq!(parse_duration("1h"), None);
    assert_eq!(parse_duration("1 s"), None);
    assert_eq!(parse_duration("1s "), None);
    assert_eq!(
        parse_duration("340282366920938463463374607431768211456ns"),
        None
    );
    assert_eq!(
        parse_duration("340282366920938463463374607431768211455h"),
        None
    );
}

#[test]
fn integers_overflow_to_none() {
    assert_eq!(parse_ascii_integer(b""), Some(0));
    assert_eq!(parse_ascii_integer(b"00123"), Some(123));
    assert_eq!(
        parse_ascii_integer(b"340282366920938463463374607431768211455"),
        Some(u128::MAX)
    );
    assert_eq!(
        parse_ascii_integer(b"340282366920938463463374607431768211456"),
        None
    );
}

fn in_floating_point(fraction: u64, digits: usize, unit: u128) -> u128 {
    let mut scale = 1_f64;
    for _ in 0..digits {
        scale *= 10_f64;
    }
    (fraction as f64 * (unit as f64 / scale)).trunc() as u128
}

#[test]
fn fractions_are_rounded_as_in_floating_point() {
    let units: [u128; 6] = [
        1,
        1_000,
        1_000_000,
        1_000_000_000,
        60_000_000_000,
        3_600_000_000_000,
    ];
    let mut state = 0x9e37_79b9_7f4a_7c15_u64;
    for round in 0..200_000_u32 {
        state ^= state << 13;
        state ^= state >> 7;
        state ^= state << 17;
        let digits = (state % 40) as usize;
        let bits = (state >> 32) % 64;
        let mut fraction = (state.wrapping_mul(0xd134_2543_de82_ef95)) >> bits;
        if fraction > 1 << 63 {
            fraction >>= 1;
        }
        let unit = units[(round % 6) as usize];
        assert_eq!(
            fractional_nanos(fraction, digits, unit),
            in_floating_point(fraction, digits, unit),
            "{fraction} in {digits} digits of {unit}"
        );
    }
    for unit in units {
        for digits in 0..400 {
            for fraction in [0, 1, 9, 999_999_999, 1 << 53, (1 << 53) + 1, 1 << 63] {
                assert_eq!(
                    fractional_nanos(fraction, digits, unit),
                    in_floating_point(fraction, digits, unit),
                    "{fraction} in {digits} digits of {unit}"
                );
            }
        }
    }
}
