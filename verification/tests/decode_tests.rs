use nmea_player::datetime::DateTime;
use nmea_player::decode::{decode_line, NavUpdate};

#[test]
fn gga_example_west_longitude() {
    let u = decode_line(&b"$GPGGA,020659.21,4937.8509,N,12401.4384,W,2,9,0.83,,M,,M*44"[..]);
    // 4937.8509 -> 49 degrees + 37.8509/60 degrees = 49.630848 degrees
    // 12401.4384 -> 124 degrees + 1.4384/60 degrees, negated for west
    assert_eq!(
        u,
        NavUpdate::Position {
            lat_udeg: 49_630_848,
            lon_udeg: -124_023_973,
        }
    );
}

#[test]
fn gga_south_is_negative() {
    let u = decode_line(&b"$GPGGA,020659.21,4937.8509,S,12401.4384,E,2,9,0.83,,M,,M*44"[..]);
    assert_eq!(
        u,
        NavUpdate::Position {
            lat_udeg: -49_630_848,
            lon_udeg: 124_023_973,
        }
    );
}

#[test]
fn gga_lowercase_hemisphere_matches() {
    let u = decode_line(&b"$GPGGA,020659.21,4937.8509,s,12401.4384,w,2,9"[..]);
    assert_eq!(
        u,
        NavUpdate::Position {
            lat_udeg: -49_630_848,
            lon_udeg: -124_023_973,
        }
    );
}

#[test]
fn gga_unparsable_coordinates_are_zero() {
    let u = decode_line(&b"$GPGGA,020659.21,xyz,N,,W,2,9"[..]);
    assert_eq!(
        u,
        NavUpdate::Position {
            lat_udeg: 0,
            lon_udeg: 0,
        }
    );
}

#[test]
fn vwr_left_side_negates_angle() {
    let u = decode_line(&b"$WIVWR,31.7,L,0.5,N,0.3,M,0.9,K*73"[..]);
    assert_eq!(
        u,
        NavUpdate::Wind {
            awa_udeg: -31_700_000,
            aws_uknots: 500_000,
        }
    );
}

#[test]
fn vwr_right_side_keeps_angle() {
    let u = decode_line(&b"$WIVWR,31.7,R,0.5,N,0.3,M,0.9,K*73"[..]);
    assert_eq!(
        u,
        NavUpdate::Wind {
            awa_udeg: 31_700_000,
            aws_uknots: 500_000,
        }
    );
}

#[test]
fn vwr_lowercase_r_keeps_angle() {
    let u = decode_line(&b"$WIVWR,10.0,r,2.5,N"[..]);
    assert_eq!(
        u,
        NavUpdate::Wind {
            awa_udeg: 10_000_000,
            aws_uknots: 2_500_000,
        }
    );
}

#[test]
fn dpt_depth_is_sum_of_fields() {
    let u = decode_line(&b"$SDDPT,10.38,0,*6F"[..]);
    assert_eq!(
        u,
        NavUpdate::Depth {
            depth_umeters: 10_380_000,
        }
    );
}

#[test]
fn dpt_negative_offset_subtracts() {
    let u = decode_line(&b"$SDDPT,10.38,-0.5,*6F"[..]);
    assert_eq!(
        u,
        NavUpdate::Depth {
            depth_umeters: 9_880_000,
        }
    );
}

#[test]
fn dpt_offset_with_glued_checksum_is_zero() {
    // the second numeric field carries the checksum, so it does not parse
    let u = decode_line(&b"$SDDPT,10.38,0*6F"[..]);
    assert_eq!(
        u,
        NavUpdate::Depth {
            depth_umeters: 10_380_000,
        }
    );
}

#[test]
fn vtg_course_and_speed() {
    let u = decode_line(&b"$IIVTG,359.5,T,,M,0.1,N,0.1,K,D*15"[..]);
    assert_eq!(
        u,
        NavUpdate::CourseSpeed {
            cog_udeg: 359_500_000,
            sog_uknots: 100_000,
        }
    );
}

#[test]
fn vtg_empty_fields_default_to_zero() {
    let u = decode_line(&b"$IIVTG,,T,,M,,N,,K,D*15"[..]);
    assert_eq!(
        u,
        NavUpdate::CourseSpeed {
            cog_udeg: 0,
            sog_uknots: 0,
        }
    );
}

#[test]
fn zda_composes_date_time() {
    let u = decode_line(&b"$GPZDA,234626.99,22,02,2021,08,00*6A"[..]);
    assert_eq!(
        u,
        NavUpdate::Time {
            dt: DateTime {
                year: 2021,
                month: 2,
                day: 22,
                hour: 23,
                minute: 46,
                second: 26,
            }
        }
    );
}

#[test]
fn zda_unparsable_subfields_default() {
    // year, month, day unreadable: they default to 1970-01-01, and the
    // short time field leaves hour/minute/second at zero
    let u = decode_line(&b"$GPZDA,xx,aa,bb,cc,08,00"[..]);
    assert_eq!(
        u,
        NavUpdate::Time {
            dt: DateTime {
                year: 1970,
                month: 1,
                day: 1,
                hour: 0,
                minute: 0,
                second: 0,
            }
        }
    );
}

#[test]
fn zda_impossible_date_falls_back() {
    // February 31st is not a calendar date
    let u = decode_line(&b"$GPZDA,234626.99,31,02,2021,08,00"[..]);
    assert_eq!(u, NavUpdate::TimeFallback);
}

#[test]
fn zda_too_few_fields_is_ignored() {
    let u = decode_line(&b"$GPZDA,234626.99,22"[..]);
    assert_eq!(u, NavUpdate::Ignore);
}

#[test]
fn unrecognized_code_is_ignored() {
    let u = decode_line(&b"$XXFOO,garbage"[..]);
    assert_eq!(u, NavUpdate::Ignore);
}

#[test]
fn missing_dollar_is_ignored() {
    let u = decode_line(&b"GPGGA,020659.21,4937.8509,N,12401.4384,W"[..]);
    assert_eq!(u, NavUpdate::Ignore);
}

#[test]
fn short_tag_is_ignored() {
    let u = decode_line(&b"$GGA,1,2,3,4,5,6"[..]);
    assert_eq!(u, NavUpdate::Ignore);
}

#[test]
fn empty_line_is_ignored() {
    let u = decode_line(&b""[..]);
    assert_eq!(u, NavUpdate::Ignore);
}
