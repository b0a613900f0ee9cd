//! Decoding one NMEA sentence into a typed navigation update.
//!
//! A sentence is recognized by its first field: it must start with `$` and
//! be at least six bytes long, and bytes three to five (after the two-letter
//! talker id) name the sentence type.  Five types are decoded: `ZDA` (time),
//! `GGA` (position), `VTG` (course and speed over ground), `VWR` (apparent
//! wind) and `DPT` (depth).  Anything else, and any recognized sentence with
//! too few fields, decodes to `Ignore` and leaves the state untouched.

use vstd::prelude::*;
use crate::datetime::{check_valid_dt, valid_dt, DateTime};
use crate::num::{
    field_micro, lemma_digits_val_bound, lemma_parse_micro_bound, lemma_pow10_le,
    lemma_pow10_values, parse_field, parse_uint, parse_uint_range, uint_or, FIELD_MICRO_BOUND,
};
use crate::split::{lemma_split_commas_len, seqs_of, split_commas, split_fields};

verus! {

#[derive(Clone, Copy, PartialEq, Eq, Structural, Debug)]
pub enum SentenceKind {
    Zda,
    Gga,
    Vtg,
    Vwr,
    Dpt,
    Other,
}

/// The sentence type named by a first field: `$` plus at least five more
/// bytes, of which bytes three to five are the type code.
pub open spec fn kind_of_tag(f0: Seq<u8>) -> SentenceKind {
    if f0.len() >= 6 && f0[0] == 36 {
        if f0[3] == 90 && f0[4] == 68 && f0[5] == 65 {
            SentenceKind::Zda
        } else if f0[3] == 71 && f0[4] == 71 && f0[5] == 65 {
            SentenceKind::Gga
        } else if f0[3] == 86 && f0[4] == 84 && f0[5] == 71 {
            SentenceKind::Vtg
        } else if f0[3] == 86 && f0[4] == 87 && f0[5] == 82 {
            SentenceKind::Vwr
        } else if f0[3] == 68 && f0[4] == 80 && f0[5] == 84 {
            SentenceKind::Dpt
        } else {
            SentenceKind::Other
        }
    } else {
        SentenceKind::Other
    }
}

/// The sentence type of a whole line.
pub open spec fn line_kind(line: Seq<u8>) -> SentenceKind {
    kind_of_tag(split_commas(line)[0])
}

/// What one decoded sentence changes.  `TimeFallback` is a time sentence
/// whose composed date is not a real calendar date: the player substitutes
/// the wall-clock date-time it saw when pacing began, so that one bad line
/// never aborts a replay.
#[derive(Clone, Copy, PartialEq, Eq, Structural, Debug)]
pub enum NavUpdate {
    Time { dt: DateTime },
    TimeFallback,
    Position { lat_udeg: i64, lon_udeg: i64 },
    CourseSpeed { cog_udeg: i64, sog_uknots: i64 },
    Wind { awa_udeg: i64, aws_uknots: i64 },
    Depth { depth_umeters: i64 },
    Ignore,
}

/// `s` contains byte `a` or byte `b`: the case-insensitive "contains"
/// test on hemisphere fields.
pub open spec fn contains_byte2(s: Seq<u8>, a: u8, b: u8) -> bool {
    exists|i: int| 0 <= i < s.len() && (s[i] == a || s[i] == b)
}

/// The side field equals `R` or `r`: wind on the starboard side.
pub open spec fn is_side_r(s: Seq<u8>) -> bool {
    s.len() == 1 && (s[0] == 82 || s[0] == 114)
}

/// A coordinate field value `DDMM.MMMM` (in micro-units) as micro-degrees:
/// whole hundreds are degrees, the rest are minutes, sixty to the degree.
/// The fractional micro-degree is truncated toward zero.
pub open spec fn gga_coord(x: int) -> int {
    if x >= 0 {
        (x / 100000000) * 1000000 + (x % 100000000) / 60
    } else {
        -((-x / 100000000) * 1000000 + (-x % 100000000) / 60)
    }
}

/// Micro-degrees latitude of a position sentence: negative in the
/// southern hemisphere.
pub open spec fn gga_lat(fs: Seq<Seq<u8>>) -> int {
    let v = gga_coord(field_micro(fs[2]));
    if contains_byte2(fs[3], 83, 115) {
        -v
    } else {
        v
    }
}

/// Micro-degrees longitude of a position sentence: negative in the
/// western hemisphere.
pub open spec fn gga_lon(fs: Seq<Seq<u8>>) -> int {
    let v = gga_coord(field_micro(fs[4]));
    if contains_byte2(fs[5], 87, 119) {
        -v
    } else {
        v
    }
}

pub open spec fn gga_update(fs: Seq<Seq<u8>>) -> NavUpdate {
    NavUpdate::Position { lat_udeg: gga_lat(fs) as i64, lon_udeg: gga_lon(fs) as i64 }
}

pub open spec fn vtg_update(fs: Seq<Seq<u8>>) -> NavUpdate {
    NavUpdate::CourseSpeed {
        cog_udeg: field_micro(fs[1]) as i64,
        sog_uknots: field_micro(fs[5]) as i64,
    }
}

/// Micro-degrees of apparent wind angle: negated when the wind is not on
/// the starboard side.
pub open spec fn vwr_awa(fs: Seq<Seq<u8>>) -> int {
    if is_side_r(fs[2]) {
        field_micro(fs[1])
    } else {
        -field_micro(fs[1])
    }
}

pub open spec fn vwr_update(fs: Seq<Seq<u8>>) -> NavUpdate {
    NavUpdate::Wind { awa_udeg: vwr_awa(fs) as i64, aws_uknots: field_micro(fs[3]) as i64 }
}

/// Depth is the transducer reading plus the (possibly negative) offset.
pub open spec fn dpt_update(fs: Seq<Seq<u8>>) -> NavUpdate {
    NavUpdate::Depth { depth_umeters: (field_micro(fs[1]) + field_micro(fs[2])) as i64 }
}

/// The hour/minute/second subfields are fixed-width slices of the first
/// time field; a subfield that is missing or does not parse is zero.
pub open spec fn zda_sub(t: Seq<u8>, from: int, to: int) -> int {
    if t.len() >= to {
        uint_or(t.subrange(from, to), 0)
    } else {
        0
    }
}

/// The composed date-time of a time sentence; fields that do not parse
/// fall back to the epoch date, and a composition that is not a real
/// calendar date becomes `TimeFallback`.
pub open spec fn zda_update(fs: Seq<Seq<u8>>) -> NavUpdate {
    let dt = DateTime {
        year: uint_or(fs[4], 1970) as u32,
        month: uint_or(fs[3], 1) as u32,
        day: uint_or(fs[2], 1) as u32,
        hour: zda_sub(fs[1], 0, 2) as u32,
        minute: zda_sub(fs[1], 2, 4) as u32,
        second: zda_sub(fs[1], 4, 6) as u32,
    };
    if valid_dt(dt) {
        NavUpdate::Time { dt }
    } else {
        NavUpdate::TimeFallback
    }
}

/// What one line of the log changes: the update of its sentence type, or
/// `Ignore` for an unrecognized line or one with too few fields.
pub open spec fn decode_spec(line: Seq<u8>) -> NavUpdate {
    let fs = split_commas(line);
    match kind_of_tag(fs[0]) {
        SentenceKind::Zda => if fs.len() >= 5 {
            zda_update(fs)
        } else {
            NavUpdate::Ignore
        },
        SentenceKind::Gga => if fs.len() >= 6 {
            gga_update(fs)
        } else {
            NavUpdate::Ignore
        },
        SentenceKind::Vtg => if fs.len() >= 6 {
            vtg_update(fs)
        } else {
            NavUpdate::Ignore
        },
        SentenceKind::Vwr => if fs.len() >= 4 {
            vwr_update(fs)
        } else {
            NavUpdate::Ignore
        },
        SentenceKind::Dpt => if fs.len() >= 3 {
            dpt_update(fs)
        } else {
            NavUpdate::Ignore
        },
        SentenceKind::Other => NavUpdate::Ignore,
    }
}

/// A time update always carries a real calendar date-time.
pub proof fn lemma_decode_time_valid(line: Seq<u8>)
    ensures
        decode_spec(line) matches NavUpdate::Time { dt } ==> valid_dt(dt),
{
}

pub proof fn lemma_gga_coord_bounds(x: int)
    requires
        -FIELD_MICRO_BOUND < x < FIELD_MICRO_BOUND,
    ensures
        -20000000000000000 < gga_coord(x) < 20000000000000000,
        x >= 0 ==> gga_coord(x) >= 0,
{
    if x >= 0 {
        lemma_gga_coord_nonneg_bounds(x);
    } else {
        lemma_gga_coord_nonneg_bounds(-x);
    }
}

proof fn lemma_gga_coord_nonneg_bounds(x: int)
    requires
        0 <= x < FIELD_MICRO_BOUND,
    ensures
        0 <= (x / 100000000) * 1000000 + (x % 100000000) / 60 < 20000000000000000,
{
    let d = x / 100000000;
    let r = x % 100000000;
    assert(0 <= d <= 10000000000 && 0 <= r < 100000000) by (nonlinear_arith)
        requires
            0 <= x < 1000000000000000000,
            d == x / 100000000,
            r == x % 100000000,
    ;
    assert(d * 1000000 <= 10000000000 * 1000000) by (nonlinear_arith)
        requires
            0 <= d <= 10000000000,
    ;
    assert(d * 1000000 >= 0) by (nonlinear_arith)
        requires
            d >= 0,
    ;
}

/// Classifies a first field into a sentence kind.
pub fn classify_tag(f0: &[u8]) -> (k: SentenceKind)
    ensures
        k == kind_of_tag(f0@),
{
    if f0.len() >= 6 && f0[0] == 36 {
        let a = f0[3];
        let b = f0[4];
        let c = f0[5];
        if a == 90 && b == 68 && c == 65 {
            SentenceKind::Zda
        } else if a == 71 && b == 71 && c == 65 {
            SentenceKind::Gga
        } else if a == 86 && b == 84 && c == 71 {
            SentenceKind::Vtg
        } else if a == 86 && b == 87 && c == 82 {
            SentenceKind::Vwr
        } else if a == 68 && b == 80 && c == 84 {
            SentenceKind::Dpt
        } else {
            SentenceKind::Other
        }
    } else {
        SentenceKind::Other
    }
}

/// Tests whether `s` contains byte `a` or byte `b`.
#[verifier::loop_isolation(false)]
fn contains_either(s: &[u8], a: u8, b: u8) -> (r: bool)
    ensures
        r == contains_byte2(s@, a, b),
{
    let n = s.len();
    let mut i: usize = 0;
    while i < n
        invariant
            0 <= i <= n,
            forall|k: int| 0 <= k < i ==> !(s@[k] == a || s@[k] == b),
        decreases n - i,
    {
        if s[i] == a || s[i] == b {
            return true;
        }
        i = i + 1;
    }
    false
}

/// The truncating DDMM.MMMM-to-micro-degrees conversion.
fn gga_coord_exec(x: i64) -> (r: i64)
    requires
        -FIELD_MICRO_BOUND < x < FIELD_MICRO_BOUND,
    ensures
        r as int == gga_coord(x as int),
        -20000000000000000 < r < 20000000000000000,
{
    proof {
        lemma_gga_coord_bounds(x as int);
    }
    if x >= 0 {
        (x / 100000000) * 1000000 + (x % 100000000) / 60
    } else {
        let y = -x;
        proof {
            lemma_gga_coord_bounds(y as int);
        }
        -((y / 100000000) * 1000000 + (y % 100000000) / 60)
    }
}

/// Parses an unsigned integer subfield, with a default for one that is
/// missing or malformed.
fn uint_field_or(f: &Vec<u8>, default: u64) -> (r: u64)
    requires
        default <= 999999999,
    ensures
        r as int == uint_or(f@, default as int),
        r <= 999999999,
{
    proof {
        assert(f@.subrange(0, f@.len() as int) =~= f@);
    }
    match parse_uint_range(f.as_slice(), 0, f.len()) {
        Some(v) => {
            proof {
                lemma_uint_bound(f@);
            }
            v
        },
        None => default,
    }
}

proof fn lemma_uint_bound(s: Seq<u8>)
    ensures
        parse_uint(s) matches Some(v) ==> 0 <= v <= 999999999,
{
    if parse_uint(s) is Some {
        lemma_digits_val_bound(s);
        lemma_pow10_le(s.len() as nat, 9);
        lemma_pow10_values();
    }
}

/// Decodes the time sentence fields into a `Time` update, or into
/// `TimeFallback` when the composed date is not a real calendar date.
fn decode_zda(fields: &Vec<Vec<u8>>) -> (u: NavUpdate)
    requires
        fields@.len() >= 5,
    ensures
        u == zda_update(seqs_of(fields@)),
{
    let ghost fs = seqs_of(fields@);
    let t = &fields[1];
    let hour: u64 = if t.len() >= 2 {
        match parse_uint_range(t.as_slice(), 0, 2) {
            Some(v) => {
                proof {
                    lemma_uint_bound(t@.subrange(0, 2));
                }
                v
            },
            None => 0,
        }
    } else {
        0
    };
    let minute: u64 = if t.len() >= 4 {
        match parse_uint_range(t.as_slice(), 2, 4) {
            Some(v) => {
                proof {
                    lemma_uint_bound(t@.subrange(2, 4));
                }
                v
            },
            None => 0,
        }
    } else {
        0
    };
    let second: u64 = if t.len() >= 6 {
        match parse_uint_range(t.as_slice(), 4, 6) {
            Some(v) => {
                proof {
                    lemma_uint_bound(t@.subrange(4, 6));
                }
                v
            },
            None => 0,
        }
    } else {
        0
    };
    let year = uint_field_or(&fields[4], 1970);
    let month = uint_field_or(&fields[3], 1);
    let day = uint_field_or(&fields[2], 1);
    let dt = DateTime {
        year: year as u32,
        month: month as u32,
        day: day as u32,
        hour: hour as u32,
        minute: minute as u32,
        second: second as u32,
    };
    if check_valid_dt(&dt) {
        NavUpdate::Time { dt }
    } else {
        NavUpdate::TimeFallback
    }
}

/// Decodes one line of the log into the update it carries.
pub fn decode_line(line: &[u8]) -> (u: NavUpdate)
    ensures
        u == decode_spec(line@),
{
    let fields = split_fields(line);
    let ghost fs = split_commas(line@);
    proof {
        lemma_split_commas_len(line@);
        lemma_parse_micro_bound(fs[1]);
        lemma_parse_micro_bound(fs[2]);
        lemma_parse_micro_bound(fs[3]);
        lemma_parse_micro_bound(fs[4]);
        lemma_parse_micro_bound(fs[5]);
    }
    let kind = classify_tag(fields[0].as_slice());
    match kind {
        SentenceKind::Zda => {
            if fields.len() >= 5 {
                decode_zda(&fields)
            } else {
                NavUpdate::Ignore
            }
        },
        SentenceKind::Gga => {
            if fields.len() >= 6 {
                let latv = parse_field(fields[2].as_slice());
                let mut lat = gga_coord_exec(latv);
                if contains_either(fields[3].as_slice(), 83, 115) {
                    lat = -lat;
                }
                let lonv = parse_field(fields[4].as_slice());
                let mut lon = gga_coord_exec(lonv);
                if contains_either(fields[5].as_slice(), 87, 119) {
                    lon = -lon;
                }
                NavUpdate::Position { lat_udeg: lat, lon_udeg: lon }
            } else {
                NavUpdate::Ignore
            }
        },
        SentenceKind::Vtg => {
            if fields.len() >= 6 {
                NavUpdate::CourseSpeed {
                    cog_udeg: parse_field(fields[1].as_slice()),
                    sog_uknots: parse_field(fields[5].as_slice()),
                }
            } else {
                NavUpdate::Ignore
            }
        },
        SentenceKind::Vwr => {
            if fields.len() >= 4 {
                let a = parse_field(fields[1].as_slice());
                let side_r = fields[2].len() == 1 && (fields[2][0] == 82 || fields[2][0] == 114);
                let awa = if side_r {
                    a
                } else {
                    -a
                };
                NavUpdate::Wind { awa_udeg: awa, aws_uknots: parse_field(fields[3].as_slice()) }
            } else {
                NavUpdate::Ignore
            }
        },
        SentenceKind::Dpt => {
            if fields.len() >= 3 {
                let d = parse_field(fields[1].as_slice());
                let o = parse_field(fields[2].as_slice());
                NavUpdate::Depth { depth_umeters: d + o }
            } else {
                NavUpdate::Ignore
            }
        },
        SentenceKind::Other => NavUpdate::Ignore,
    }
}

/// For a position sentence whose coordinate fields decode non-negative (as
/// the unsigned DDMM.MMMM layout yields), a south or west hemisphere marker
/// makes the decoded coordinate non-positive, and its absence leaves it
/// non-negative; the marker changes only the sign.
pub proof fn lemma_gga_hemisphere(fs: Seq<Seq<u8>>)
    requires
        fs.len() >= 6,
        field_micro(fs[2]) >= 0,
        field_micro(fs[4]) >= 0,
    ensures
        gga_update(fs) matches NavUpdate::Position { lat_udeg, lon_udeg }
            && (contains_byte2(fs[3], 83, 115) ==> lat_udeg == -gga_coord(field_micro(fs[2]))
            && lat_udeg <= 0) && (!contains_byte2(fs[3], 83, 115) ==> lat_udeg == gga_coord(
            field_micro(fs[2]),
        ) && lat_udeg >= 0) && (contains_byte2(fs[5], 87, 119) ==> lon_udeg == -gga_coord(
            field_micro(fs[4]),
        ) && lon_udeg <= 0) && (!contains_byte2(fs[5], 87, 119) ==> lon_udeg == gga_coord(
            field_micro(fs[4]),
        ) && lon_udeg >= 0),
{
    lemma_parse_micro_bound(fs[2]);
    lemma_parse_micro_bound(fs[4]);
    lemma_gga_coord_bounds(field_micro(fs[2]));
    lemma_gga_coord_bounds(field_micro(fs[4]));
}

/// Two wind sentences that differ only in the side field decode to the
/// same wind speed and to angles that are negations of each other: side
/// `R` keeps the field's sign, any other side negates it.
pub proof fn lemma_vwr_side(fs_r: Seq<Seq<u8>>, fs_l: Seq<Seq<u8>>)
    requires
        fs_r.len() >= 4,
        fs_l.len() >= 4,
        fs_r[1] == fs_l[1],
        fs_r[3] == fs_l[3],
        is_side_r(fs_r[2]),
        !is_side_r(fs_l[2]),
    ensures
        vwr_update(fs_r) matches NavUpdate::Wind { awa_udeg: ar, aws_uknots: sr }
            && vwr_update(fs_l) matches NavUpdate::Wind { awa_udeg: al, aws_uknots: sl } && al
            == -ar && sl == sr,
{
    lemma_parse_micro_bound(fs_r[1]);
    lemma_parse_micro_bound(fs_r[3]);
}

/// A depth sentence decodes to exactly the sum of its two numeric fields:
/// transducer depth plus mounting offset, unclamped.
pub proof fn lemma_dpt_sum(fs: Seq<Seq<u8>>)
    requires
        fs.len() >= 3,
    ensures
        dpt_update(fs) matches NavUpdate::Depth { depth_umeters } && depth_umeters == field_micro(
            fs[1],
        ) + field_micro(fs[2]),
{
    lemma_parse_micro_bound(fs[1]);
    lemma_parse_micro_bound(fs[2]);
}

/// A line whose sentence type is not one of the five recognized codes
/// decodes to `Ignore`.
pub proof fn lemma_unrecognized_ignored(line: Seq<u8>)
    requires
        line_kind(line) == SentenceKind::Other,
    ensures
        decode_spec(line) == NavUpdate::Ignore,
{
}

} // verus!
