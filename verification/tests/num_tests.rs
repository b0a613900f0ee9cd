use nmea_player::clock::{bandwidth_delay_ms, compute_delay_ms};
use nmea_player::datetime::{dt_epoch_seconds, format_utc, DateTime};
use nmea_player::net::broadcast_addr_v4;
use nmea_player::num::parse_field;
use nmea_player::split::{split_fields, split_lines};

#[test]
fn parse_plain_decimal() {
    assert_eq!(parse_field(&b"10.38"[..]), 10_380_000);
    assert_eq!(parse_field(&b"0"[..]), 0);
    assert_eq!(parse_field(&b"359.5"[..]), 359_500_000);
}

#[test]
fn parse_signed_decimal() {
    assert_eq!(parse_field(&b"-0.5"[..]), -500_000);
    assert_eq!(parse_field(&b"+3"[..]), 3_000_000);
    assert_eq!(parse_field(&b"-123.4567"[..]), -123_456_700);
}

#[test]
fn parse_dot_edge_forms() {
    assert_eq!(parse_field(&b".5"[..]), 500_000);
    assert_eq!(parse_field(&b"5."[..]), 5_000_000);
    assert_eq!(parse_field(&b"."[..]), 0);
}

#[test]
fn parse_fraction_truncates_after_six_digits() {
    assert_eq!(parse_field(&b"0.12345678"[..]), 123_456);
}

#[test]
fn parse_failures_are_zero() {
    assert_eq!(parse_field(&b""[..]), 0);
    assert_eq!(parse_field(&b"abc"[..]), 0);
    assert_eq!(parse_field(&b"1.2.3"[..]), 0);
    assert_eq!(parse_field(&b"12a"[..]), 0);
    assert_eq!(parse_field(&b"--1"[..]), 0);
    // more than twelve integer digits is out of range
    assert_eq!(parse_field(&b"1000000000000"[..]), 0);
}

#[test]
fn split_fields_keeps_empty_fields() {
    let fs = split_fields(&b"a,,b,"[..]);
    let fs: Vec<&[u8]> = fs.iter().map(|f| f.as_slice()).collect();
    assert_eq!(fs, vec![&b"a"[..], &b""[..], &b"b"[..], &b""[..]]);
}

#[test]
fn split_fields_of_empty_is_one_empty_field() {
    let fs = split_fields(&b""[..]);
    assert_eq!(fs.len(), 1);
    assert_eq!(fs[0].as_slice(), &b""[..]);
}

#[test]
fn split_lines_drops_unterminated_tail() {
    let ls = split_lines(&b"one\r\ntwo\r\npartial"[..]);
    let ls: Vec<&[u8]> = ls.iter().map(|l| l.as_slice()).collect();
    assert_eq!(ls, vec![&b"one"[..], &b"two"[..]]);
}

#[test]
fn split_lines_keeps_empty_lines_and_bare_cr() {
    let ls = split_lines(&b"a\rb\r\n\r\nc\r\n"[..]);
    let ls: Vec<&[u8]> = ls.iter().map(|l| l.as_slice()).collect();
    assert_eq!(ls, vec![&b"a\rb"[..], &b""[..], &b"c"[..]]);
}

#[test]
fn epoch_seconds_of_known_instants() {
    let epoch = DateTime {
        year: 1970,
        month: 1,
        day: 1,
        hour: 0,
        minute: 0,
        second: 0,
    };
    assert_eq!(dt_epoch_seconds(&epoch), 0);
    let t = DateTime {
        year: 2021,
        month: 2,
        day: 22,
        hour: 23,
        minute: 46,
        second: 26,
    };
    assert_eq!(dt_epoch_seconds(&t), 1_614_037_586);
    let leap_day = DateTime {
        year: 2020,
        month: 2,
        day: 29,
        hour: 12,
        minute: 0,
        second: 0,
    };
    assert_eq!(dt_epoch_seconds(&leap_day), 1_582_977_600);
}

#[test]
fn format_utc_pads_fields() {
    let t = DateTime {
        year: 2021,
        month: 2,
        day: 22,
        hour: 23,
        minute: 46,
        second: 26,
    };
    assert_eq!(format_utc(&t), b"2021-02-22 23:46:26".to_vec());
    let sentinel = DateTime {
        year: 0,
        month: 0,
        day: 0,
        hour: 0,
        minute: 0,
        second: 0,
    };
    assert_eq!(format_utc(&sentinel), b"0000-00-00 00:00:00".to_vec());
}

#[test]
fn delay_is_target_minus_actual_clamped_at_zero() {
    assert_eq!(compute_delay_ms(2000, 50), 1950);
    assert_eq!(compute_delay_ms(1000, 2000), 0);
    assert_eq!(compute_delay_ms(0, 0), 0);
    assert_eq!(compute_delay_ms(-500, -2500), 2000);
}

#[test]
fn bandwidth_delay_matches_38400_baud() {
    // 48 bytes * 8 bits / 38400 bits per second = 10 ms
    assert_eq!(bandwidth_delay_ms(48), 10);
    assert_eq!(bandwidth_delay_ms(0), 0);
    assert_eq!(bandwidth_delay_ms(1), 0);
    assert_eq!(bandwidth_delay_ms(4800), 1000);
}

#[test]
fn broadcast_address_sets_host_bits() {
    assert_eq!(broadcast_addr_v4(0xC0A80105, 24), 0xC0A801FF);
    assert_eq!(broadcast_addr_v4(0x0A000001, 8), 0x0AFFFFFF);
    assert_eq!(broadcast_addr_v4(0xC0A80105, 32), 0xC0A80105);
    assert_eq!(broadcast_addr_v4(0x00000000, 0), 0xFFFFFFFF);
}
