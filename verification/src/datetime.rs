//! Calendar date-times on plain integer fields.
//!
//! Time sentences carry a civil date and a time of day.  For pacing, a
//! date-time is mapped to seconds since 1970-01-01 00:00:00; for display it
//! is formatted as `YYYY-MM-DD HH:MM:SS`.  The all-zero value is the
//! sentinel shown before the first time sentence arrives.

use vstd::prelude::*;

verus! {

#[derive(Clone, Copy, PartialEq, Eq, Structural, Debug)]
pub struct DateTime {
    pub year: u32,
    pub month: u32,
    pub day: u32,
    pub hour: u32,
    pub minute: u32,
    pub second: u32,
}

/// The value shown before any time sentence has been decoded; it formats
/// as `0000-00-00 00:00:00`.
pub open spec fn dt_sentinel() -> DateTime {
    DateTime { year: 0, month: 0, day: 0, hour: 0, minute: 0, second: 0 }
}

pub open spec fn is_leap_year(y: int) -> bool {
    (y % 4 == 0 && y % 100 != 0) || y % 400 == 0
}

pub open spec fn days_in_month(y: int, m: int) -> int {
    if m == 2 {
        if is_leap_year(y) {
            29
        } else {
            28
        }
    } else if m == 4 || m == 6 || m == 9 || m == 11 {
        30
    } else {
        31
    }
}

/// A calendar date-time the pacing clock can anchor on.
pub open spec fn valid_dt(dt: DateTime) -> bool {
    &&& 1970 <= dt.year <= 9999
    &&& 1 <= dt.month <= 12
    &&& 1 <= dt.day <= days_in_month(dt.year as int, dt.month as int)
    &&& dt.hour < 24
    &&& dt.minute < 60
    &&& dt.second < 60
}

/// Leap years in `[1, y)`.
pub open spec fn leap_years_before(y: int) -> int {
    (y - 1) / 4 - (y - 1) / 100 + (y - 1) / 400
}

/// Days of the months before month `m` of year `y`.
pub open spec fn days_before_month(y: int, m: int) -> int {
    let base: int = if m == 1 {
        0
    } else if m == 2 {
        31
    } else if m == 3 {
        59
    } else if m == 4 {
        90
    } else if m == 5 {
        120
    } else if m == 6 {
        151
    } else if m == 7 {
        181
    } else if m == 8 {
        212
    } else if m == 9 {
        243
    } else if m == 10 {
        273
    } else if m == 11 {
        304
    } else {
        334
    };
    if m > 2 && is_leap_year(y) {
        base + 1
    } else {
        base
    }
}

/// Days from 1970-01-01 to the given date; day 0 is the epoch itself.
pub open spec fn days_from_epoch(y: int, m: int, d: int) -> int {
    365 * (y - 1) + leap_years_before(y) + days_before_month(y, m) + (d - 1) - 719162
}

/// Seconds from 1970-01-01 00:00:00 to the given date-time.
pub open spec fn epoch_seconds(dt: DateTime) -> int {
    days_from_epoch(dt.year as int, dt.month as int, dt.day as int) * 86400 + dt.hour * 3600
        + dt.minute * 60 + dt.second
}

/// One more than the largest epoch second a valid date-time can map to
/// (the second after 9999-12-31 23:59:59).
pub const MAX_EPOCH_SECONDS: i64 = 253402300800;

pub proof fn lemma_epoch_seconds_bounds(dt: DateTime)
    requires
        valid_dt(dt),
    ensures
        0 <= epoch_seconds(dt) < MAX_EPOCH_SECONDS,
{
    let y = dt.year as int;
    assert((y - 1) / 4 >= (1970 - 1) / 4 && (y - 1) / 4 <= (9999 - 1) / 4) by (nonlinear_arith)
        requires
            1970 <= y <= 9999,
    ;
    assert((y - 1) / 100 >= (1970 - 1) / 100 && (y - 1) / 100 <= (9999 - 1) / 100)
        by (nonlinear_arith)
        requires
            1970 <= y <= 9999,
    ;
    assert((y - 1) / 400 >= (1970 - 1) / 400 && (y - 1) / 400 <= (9999 - 1) / 400)
        by (nonlinear_arith)
        requires
            1970 <= y <= 9999,
    ;
}

/// Checks whether the fields form a real calendar date-time in the range
/// the replay clock supports.
pub fn check_valid_dt(dt: &DateTime) -> (r: bool)
    ensures
        r == valid_dt(*dt),
{
    if !(1970 <= dt.year && dt.year <= 9999) {
        return false;
    }
    if !(1 <= dt.month && dt.month <= 12) {
        return false;
    }
    let leap = (dt.year % 4 == 0 && dt.year % 100 != 0) || dt.year % 400 == 0;
    let dim: u32 = if dt.month == 2 {
        if leap {
            29
        } else {
            28
        }
    } else if dt.month == 4 || dt.month == 6 || dt.month == 9 || dt.month == 11 {
        30
    } else {
        31
    };
    1 <= dt.day && dt.day <= dim && dt.hour < 24 && dt.minute < 60 && dt.second < 60
}

/// Seconds since the epoch of a valid date-time, for pacing arithmetic.
pub fn dt_epoch_seconds(dt: &DateTime) -> (r: i64)
    requires
        valid_dt(*dt),
    ensures
        r as int == epoch_seconds(*dt),
        0 <= r < MAX_EPOCH_SECONDS,
{
    proof {
        lemma_epoch_seconds_bounds(*dt);
    }
    let y = dt.year as i64;
    let m = dt.month as i64;
    let leaps = (y - 1) / 4 - (y - 1) / 100 + (y - 1) / 400;
    let leap = (y % 4 == 0 && y % 100 != 0) || y % 400 == 0;
    proof {
        assert(leap == is_leap_year(y as int));
    }
    let base: i64 = if m == 1 {
        0
    } else if m == 2 {
        31
    } else if m == 3 {
        59
    } else if m == 4 {
        90
    } else if m == 5 {
        120
    } else if m == 6 {
        151
    } else if m == 7 {
        181
    } else if m == 8 {
        212
    } else if m == 9 {
        243
    } else if m == 10 {
        273
    } else if m == 11 {
        304
    } else {
        334
    };
    let dbm = if m > 2 && leap {
        base + 1
    } else {
        base
    };
    let days = 365 * (y - 1) + leaps + dbm + (dt.day as i64 - 1) - 719162;
    days * 86400 + (dt.hour as i64) * 3600 + (dt.minute as i64) * 60 + dt.second as i64
}

/// The byte of a decimal digit.
pub open spec fn digit_byte(v: int) -> u8 {
    (48 + v) as u8
}

/// `YYYY-MM-DD HH:MM:SS`, two-digit fields zero-padded.
pub open spec fn fmt_utc(dt: DateTime) -> Seq<u8> {
    let y = dt.year as int;
    let m = dt.month as int;
    let d = dt.day as int;
    let h = dt.hour as int;
    let mi = dt.minute as int;
    let s = dt.second as int;
    seq![
        digit_byte(y / 1000 % 10),
        digit_byte(y / 100 % 10),
        digit_byte(y / 10 % 10),
        digit_byte(y % 10),
        45u8,
        digit_byte(m / 10 % 10),
        digit_byte(m % 10),
        45u8,
        digit_byte(d / 10 % 10),
        digit_byte(d % 10),
        32u8,
        digit_byte(h / 10 % 10),
        digit_byte(h % 10),
        58u8,
        digit_byte(mi / 10 % 10),
        digit_byte(mi % 10),
        58u8,
        digit_byte(s / 10 % 10),
        digit_byte(s % 10),
    ]
}

/// Formats a date-time for display, `YYYY-MM-DD HH:MM:SS`.
pub fn format_utc(dt: &DateTime) -> (r: Vec<u8>)
    ensures
        r@ == fmt_utc(*dt),
{
    let mut r: Vec<u8> = Vec::new();
    r.push((48 + dt.year / 1000 % 10) as u8);
    r.push((48 + dt.year / 100 % 10) as u8);
    r.push((48 + dt.year / 10 % 10) as u8);
    r.push((48 + dt.year % 10) as u8);
    r.push(45);
    r.push((48 + dt.month / 10 % 10) as u8);
    r.push((48 + dt.month % 10) as u8);
    r.push(45);
    r.push((48 + dt.day / 10 % 10) as u8);
    r.push((48 + dt.day % 10) as u8);
    r.push(32);
    r.push((48 + dt.hour / 10 % 10) as u8);
    r.push((48 + dt.hour % 10) as u8);
    r.push(58);
    r.push((48 + dt.minute / 10 % 10) as u8);
    r.push((48 + dt.minute % 10) as u8);
    r.push(58);
    r.push((48 + dt.second / 10 % 10) as u8);
    r.push((48 + dt.second % 10) as u8);
    proof {
        assert(r@ =~= fmt_utc(*dt));
    }
    r
}

} // verus!
