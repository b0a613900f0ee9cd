//! Parsing of the plain decimal numbers that NMEA fields carry.
//!
//! Numeric fields are decoded into fixed-point `i64` values in micro-units
//! (one millionth of the nominal unit).  A field that does not parse as a
//! plain decimal number decodes to zero, mirroring the best-effort decoding
//! rule of the protocol subset: a bad field never fails the whole line.

use vstd::prelude::*;

verus! {

/// One micro-unit per nominal unit: all navigation values are scaled by this.
pub const MICRO: i64 = 1000000;

/// Largest number of integer digits a decimal field may carry.
pub const MAX_INT_DIGITS: usize = 12;

pub open spec fn is_digit(b: u8) -> bool {
    48 <= b <= 57
}

pub open spec fn all_digits(s: Seq<u8>) -> bool {
    forall|i: int| 0 <= i < s.len() ==> is_digit(s[i])
}

/// Value of a digit string, most significant digit first.
pub open spec fn digits_val(s: Seq<u8>) -> int
    decreases s.len(),
{
    if s.len() == 0 {
        0
    } else {
        digits_val(s.drop_last()) * 10 + (s.last() - 48)
    }
}

pub open spec fn pow10(n: nat) -> int
    decreases n,
{
    if n == 0 {
        1
    } else {
        10 * pow10((n - 1) as nat)
    }
}

pub proof fn lemma_pow10_pos(n: nat)
    ensures
        pow10(n) >= 1,
    decreases n,
{
    if n > 0 {
        lemma_pow10_pos((n - 1) as nat);
    }
}

pub proof fn lemma_digits_val_bound(s: Seq<u8>)
    requires
        all_digits(s),
    ensures
        0 <= digits_val(s) < pow10(s.len() as nat),
    decreases s.len(),
{
    if s.len() == 0 {
    } else {
        assert(all_digits(s.drop_last()));
        lemma_digits_val_bound(s.drop_last());
        assert(is_digit(s.last()));
    }
}

/// Index of the first `.` in `s`, or `s.len()` when there is none.
pub open spec fn first_dot(s: Seq<u8>) -> int
    decreases s.len(),
{
    if s.len() == 0 {
        0
    } else if s[0] == 46 {
        0
    } else {
        1 + first_dot(s.drop_first())
    }
}

pub proof fn lemma_first_dot_at(s: Seq<u8>, j: int)
    requires
        0 <= j <= s.len(),
        forall|k: int| 0 <= k < j ==> s[k] != 46,
        j < s.len() ==> s[j] == 46,
    ensures
        first_dot(s) == j,
    decreases j,
{
    if j == 0 {
    } else {
        lemma_first_dot_at(s.drop_first(), j - 1);
    }
}

pub proof fn lemma_first_dot_range(s: Seq<u8>)
    ensures
        0 <= first_dot(s) <= s.len(),
        first_dot(s) < s.len() ==> s[first_dot(s)] == 46,
    decreases s.len(),
{
    if s.len() == 0 {
    } else if s[0] == 46 {
    } else {
        lemma_first_dot_range(s.drop_first());
    }
}

/// Micro-unit value of the fractional digits `f`: the first six digits,
/// scaled so that e.g. `85` stands for 0.85 units, i.e. 850000 micro-units.
pub open spec fn frac_micro(f: Seq<u8>) -> int {
    if f.len() >= 6 {
        digits_val(f.take(6))
    } else {
        digits_val(f) * pow10((6 - f.len()) as nat)
    }
}

/// Parses an unsigned decimal (`digits`, `digits.digits`, `digits.` or
/// `.digits`) into micro-units; `None` when the text is not of that shape
/// or carries more than `MAX_INT_DIGITS` integer digits.
pub open spec fn parse_unsigned_micro(s: Seq<u8>) -> Option<int> {
    let i = first_dot(s);
    if i == s.len() {
        if 1 <= s.len() <= MAX_INT_DIGITS && all_digits(s) {
            Some(digits_val(s) * (MICRO as int))
        } else {
            None
        }
    } else {
        if s.len() >= 2 && i <= MAX_INT_DIGITS && all_digits(s.take(i)) && all_digits(
            s.skip(i + 1),
        ) {
            Some(digits_val(s.take(i)) * (MICRO as int) + frac_micro(s.skip(i + 1)))
        } else {
            None
        }
    }
}

/// Parses a decimal number with an optional leading sign into micro-units.
pub open spec fn parse_micro(s: Seq<u8>) -> Option<int> {
    if s.len() > 0 && (s[0] == 45 || s[0] == 43) {
        match parse_unsigned_micro(s.drop_first()) {
            Some(v) => Some(if s[0] == 45 { -v } else { v }),
            None => None,
        }
    } else {
        parse_unsigned_micro(s)
    }
}

/// Micro-unit value of a numeric field: a field that does not parse is zero.
pub open spec fn field_micro(s: Seq<u8>) -> int {
    match parse_micro(s) {
        Some(v) => v,
        None => 0,
    }
}

/// Every field value is below one quintillion micro-units in magnitude,
/// so sums of two field values always fit in an `i64`.
pub const FIELD_MICRO_BOUND: i64 = 0x0de0b6b3a7640000;

pub proof fn lemma_pow10_values()
    ensures
        pow10(6) == 1000000,
        pow10(9) == 1000000000,
        pow10(12) == 1000000000000,
{
    reveal_with_fuel(pow10, 13);
}

pub proof fn lemma_frac_micro_bound(f: Seq<u8>)
    requires
        all_digits(f),
    ensures
        0 <= frac_micro(f) < 1000000,
{
    lemma_pow10_values();
    if f.len() >= 6 {
        assert(all_digits(f.take(6)));
        lemma_digits_val_bound(f.take(6));
    } else {
        lemma_digits_val_bound(f);
        lemma_pow10_pos((6 - f.len()) as nat);
        let d = digits_val(f);
        let p = pow10(f.len() as nat);
        let q = pow10((6 - f.len()) as nat);
        assert(p * q == 1000000) by {
            lemma_pow10_mul(f.len() as nat, (6 - f.len()) as nat);
        }
        assert(d * q >= 0) by (nonlinear_arith)
            requires
                d >= 0,
                q >= 1,
        ;
        assert(d * q <= (p - 1) * q) by (nonlinear_arith)
            requires
                d <= p - 1,
                q >= 1,
        ;
        assert((p - 1) * q == p * q - q) by (nonlinear_arith);
    }
}

pub proof fn lemma_pow10_mul(a: nat, b: nat)
    ensures
        pow10(a) * pow10(b) == pow10(a + b),
    decreases a,
{
    if a == 0 {
    } else {
        lemma_pow10_mul((a - 1) as nat, b);
        assert(pow10(a) * pow10(b) == 10 * (pow10((a - 1) as nat) * pow10(b)))
            by (nonlinear_arith)
            requires
                pow10(a) == 10 * pow10((a - 1) as nat),
        ;
    }
}

pub proof fn lemma_parse_micro_bound(s: Seq<u8>)
    ensures
        -FIELD_MICRO_BOUND < field_micro(s) < FIELD_MICRO_BOUND,
{
    lemma_pow10_values();
    lemma_unsigned_micro_bound(s);
    if s.len() > 0 && (s[0] == 45 || s[0] == 43) {
        lemma_unsigned_micro_bound(s.drop_first());
    }
}

proof fn lemma_unsigned_micro_bound(s: Seq<u8>)
    ensures
        parse_unsigned_micro(s) matches Some(v) ==> 0 <= v < FIELD_MICRO_BOUND,
{
    lemma_pow10_values();
    lemma_first_dot_range(s);
    let i = first_dot(s);
    if parse_unsigned_micro(s) is Some {
        if i == s.len() {
            lemma_digits_val_bound(s);
            lemma_pow10_le(s.len() as nat, 12);
            let d = digits_val(s);
            assert(d * 1000000 < 1000000000000 * 1000000) by (nonlinear_arith)
                requires
                    0 <= d < 1000000000000,
            ;
        } else {
            lemma_digits_val_bound(s.take(i));
            lemma_pow10_le(s.take(i).len() as nat, 12);
            lemma_frac_micro_bound(s.skip(i + 1));
            let d = digits_val(s.take(i));
            assert(d * 1000000 <= (1000000000000 - 1) * 1000000) by (nonlinear_arith)
                requires
                    0 <= d <= 1000000000000 - 1,
            ;
        }
    }
}

pub proof fn lemma_pow10_le(a: nat, b: nat)
    requires
        a <= b,
    ensures
        pow10(a) <= pow10(b),
    decreases b,
{
    if a < b {
        lemma_pow10_le(a, (b - 1) as nat);
        lemma_pow10_pos((b - 1) as nat);
    }
}

/// A short run of digits read as an unsigned integer: `None` unless `s` is
/// one to nine digits.  Date and time subfields are parsed with this.
pub open spec fn parse_uint(s: Seq<u8>) -> Option<int> {
    if 1 <= s.len() <= 9 && all_digits(s) {
        Some(digits_val(s))
    } else {
        None
    }
}

/// `parse_uint` with a default for fields that do not parse.
pub open spec fn uint_or(s: Seq<u8>, default: int) -> int {
    match parse_uint(s) {
        Some(v) => v,
        None => default,
    }
}

proof fn lemma_take_one_more(s: Seq<u8>, i: int)
    requires
        0 <= i < s.len(),
    ensures
        s.take(i + 1).drop_last() == s.take(i),
        s.take(i + 1).last() == s[i],
        digits_val(s.take(i + 1)) == digits_val(s.take(i)) * 10 + (s[i] - 48),
{
    assert(s.take(i + 1).drop_last() =~= s.take(i));
}

/// Reads the digit run `s[from..to]` as an integer; `None` when the range
/// is not all digits or is longer than `MAX_INT_DIGITS`.
#[verifier::loop_isolation(false)]
fn scan_digits(s: &[u8], from: usize, to: usize) -> (r: Option<u64>)
    requires
        from <= to <= s@.len(),
    ensures
        match r {
            Some(v) => to - from <= MAX_INT_DIGITS && all_digits(s@.subrange(from as int, to as int))
                && v == digits_val(s@.subrange(from as int, to as int)),
            None => !(to - from <= MAX_INT_DIGITS && all_digits(
                s@.subrange(from as int, to as int),
            )),
        },
{
    if to - from > MAX_INT_DIGITS {
        return None;
    }
    let ghost sub = s@.subrange(from as int, to as int);
    let mut acc: u64 = 0;
    let mut i: usize = from;
    proof {
        assert(sub.take(0) =~= Seq::<u8>::empty());
    }
    while i < to
        invariant
            from <= i <= to <= s@.len(),
            to - from <= MAX_INT_DIGITS,
            sub == s@.subrange(from as int, to as int),
            all_digits(sub.take(i - from)),
            acc == digits_val(sub.take(i - from)),
            acc < pow10((i - from) as nat),
        decreases to - i,
    {
        let b = s[i];
        if b < 48 || b > 57 {
            proof {
                assert(sub[i - from] == b);
                assert(!all_digits(sub)) by {
                    assert(!is_digit(sub[i - from]));
                }
            }
            return None;
        }
        proof {
            lemma_take_one_more(sub, i - from);
            lemma_pow10_values();
            lemma_pow10_le(((i - from) + 1) as nat, 12);
            assert(pow10(((i - from) + 1) as nat) == 10 * pow10((i - from) as nat));
        }
        acc = acc * 10 + ((b - 48) as u64);
        i = i + 1;
    }
    proof {
        assert(sub.take(to - from) =~= sub);
    }
    Some(acc)
}

/// Reads the digit run `s[from..to]` as an unsigned integer of at most nine
/// digits, as the date and time subfields of a time sentence are read.
pub fn parse_uint_range(s: &[u8], from: usize, to: usize) -> (r: Option<u64>)
    requires
        from <= to <= s@.len(),
    ensures
        match r {
            Some(v) => parse_uint(s@.subrange(from as int, to as int)) == Some(v as int),
            None => parse_uint(s@.subrange(from as int, to as int)) is None,
        },
{
    if to - from < 1 || to - from > 9 {
        return None;
    }
    scan_digits(s, from, to)
}

/// Decodes a numeric field into micro-units; a field that is not a plain
/// decimal number (optional sign, digits, optional point and fraction)
/// decodes to zero.
pub fn parse_field(s: &[u8]) -> (r: i64)
    ensures
        r as int == field_micro(s@),
        -FIELD_MICRO_BOUND < r < FIELD_MICRO_BOUND,
{
    proof {
        lemma_parse_micro_bound(s@);
    }
    let n = s.len();
    let (neg, off): (bool, usize) = if n > 0 && (s[0] == 45 || s[0] == 43) {
        (s[0] == 45, 1)
    } else {
        (false, 0)
    };
    let ghost body = s@.skip(off as int);
    let v = parse_unsigned_field(s, off);
    proof {
        if off == 1 {
            assert(body =~= s@.drop_first());
        } else {
            assert(body =~= s@);
        }
    }
    match v {
        Some(v) => {
            if neg {
                -(v as i64)
            } else {
                v as i64
            }
        },
        None => 0,
    }
}

/// Decodes the unsigned part `s[off..]` into micro-units.
#[verifier::loop_isolation(false)]
fn parse_unsigned_field(s: &[u8], off: usize) -> (r: Option<u64>)
    requires
        off <= s@.len(),
    ensures
        match r {
            Some(v) => parse_unsigned_micro(s@.skip(off as int)) == Some(v as int) && v
                < FIELD_MICRO_BOUND,
            None => parse_unsigned_micro(s@.skip(off as int)) is None,
        },
{
    let ghost body = s@.skip(off as int);
    proof {
        lemma_unsigned_micro_bound(body);
        lemma_pow10_values();
    }
    let n = s.len();
    // find the first dot in s[off..]
    let mut j: usize = off;
    while j < n && s[j] != 46
        invariant
            off <= j <= n,
            n == s@.len(),
            forall|k: int| off <= k < j ==> s@[k] != 46,
        decreases n - j,
    {
        j = j + 1;
    }
    proof {
        lemma_first_dot_at(body, j - off);
        assert(forall|k: int| 0 <= k < j - off ==> body[k] == s@[k + off]);
        if j < n {
            assert(body[j - off] == s@[j as int]);
        }
    }
    if j == n {
        // no dot: plain digit run
        if n - off < 1 {
            return None;
        }
        let d = scan_digits(s, off, n);
        proof {
            assert(s@.subrange(off as int, n as int) =~= body);
        }
        match d {
            Some(d) => {
                proof {
                    lemma_digits_val_bound(body);
                    lemma_pow10_le(body.len() as nat, 12);
                    assert(d * 1000000 <= (1000000000000 - 1) * 1000000) by (nonlinear_arith)
                        requires
                            0 <= d <= 1000000000000 - 1,
                    ;
                }
                Some(d * (MICRO as u64))
            },
            None => None,
        }
    } else {
        // digits, a dot, then fraction digits
        if n - off < 2 {
            proof {
                assert(body.len() < 2);
            }
            return None;
        }
        let d = scan_digits(s, off, j);
        proof {
            assert(s@.subrange(off as int, j as int) =~= body.take(j - off));
        }
        let d = match d {
            Some(d) => d,
            None => {
                return None;
            },
        };
        // the whole fraction must be digits; only the first six carry value
        let fstart = j + 1;
        let flen = n - fstart;
        let fkeep = if flen > 6 {
            6
        } else {
            flen
        };
        let fd = scan_digits(s, fstart, fstart + fkeep);
        let fd = match fd {
            Some(fd) => fd,
            None => {
                proof {
                    let frac = body.skip(j - off + 1);
                    assert(frac =~= s@.subrange(fstart as int, n as int));
                    if fkeep == 6 {
                        assert(s@.subrange(fstart as int, (fstart + fkeep) as int) =~= frac.take(
                            6,
                        ));
                        assert(all_digits(frac) ==> all_digits(frac.take(6)));
                    } else {
                        assert(s@.subrange(fstart as int, (fstart + fkeep) as int) =~= frac);
                    }
                }
                return None;
            },
        };
        // validate the rest of the fraction beyond the first six digits
        let mut k: usize = fstart + fkeep;
        while k < n
            invariant
                fstart + fkeep <= k <= n,
                n == s@.len(),
                forall|t: int| fstart + fkeep <= t < k ==> is_digit(s@[t]),
            decreases n - k,
        {
            let b = s[k];
            if b < 48 || b > 57 {
                proof {
                    let frac = body.skip(j - off + 1);
                    assert(frac =~= s@.subrange(fstart as int, n as int));
                    assert(frac[k - fstart] == s@[k as int]);
                    assert(!all_digits(frac)) by {
                        assert(!is_digit(frac[k - fstart]));
                    }
                }
                return None;
            }
            k = k + 1;
        }
        let ghost frac = body.skip(j - off + 1);
        proof {
            assert(frac =~= s@.subrange(fstart as int, n as int));
            assert(s@.subrange(fstart as int, (fstart + fkeep) as int) =~= frac.take(
                fkeep as int,
            ));
            assert(all_digits(frac)) by {
                assert(forall|t: int| 0 <= t < fkeep ==> is_digit(frac[t]) && frac[t] == s@[
                    t + fstart]) by {
                    assert(all_digits(s@.subrange(fstart as int, (fstart + fkeep) as int)));
                }
            }
            lemma_frac_micro_bound(frac);
        }
        // scale a short fraction up to six digits
        let scale: u64 = match 6 - fkeep {
            0 => 1,
            1 => 10,
            2 => 100,
            3 => 1000,
            4 => 10000,
            5 => 100000,
            _ => 1000000,
        };
        proof {
            reveal_with_fuel(pow10, 8);
            if fkeep == 6 {
                assert(frac.take(6) =~= frac.take(fkeep as int));
            } else {
                assert(frac.take(fkeep as int) =~= frac);
            }
            lemma_digits_val_bound(body.take(j - off));
            lemma_pow10_le(body.take(j - off).len() as nat, 12);
            assert(d * 1000000 <= (1000000000000 - 1) * 1000000) by (nonlinear_arith)
                requires
                    0 <= d <= 1000000000000 - 1,
            ;
            if fkeep < 6 {
                lemma_digits_val_bound(frac);
                let dv = digits_val(frac);
                let p = pow10(frac.len() as nat);
                assert(0 <= dv * scale && dv * scale == frac_micro(frac) && frac_micro(frac)
                    < 1000000) by {
                    lemma_frac_micro_bound(frac);
                }
            }
        }
        Some(d * (MICRO as u64) + fd * scale)
    }
}

} // verus!
