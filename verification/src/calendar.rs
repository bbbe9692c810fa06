//! The proleptic Gregorian calendar arithmetic behind timestamps: calendar
//! fields to seconds since the Unix epoch (reading DuckDB timestamps) and
//! seconds back to fields (stamping output), which undo each other.
use vstd::prelude::*;

use crate::text::{decimal, pad_zeros, push_str_chars, string_from_chars, u64_digits, zero_padded};

verus! {

/// Month shifted so the year starts in March (March = 0, February = 11).
pub open spec fn march_month(m: int) -> int {
    if m > 2 {
        m - 3
    } else {
        m + 9
    }
}

/// Day of the March-based year for month `m`, day `d`.
pub open spec fn day_of_year(m: int, d: int) -> int {
    (153 * march_month(m) + 2) / 5 + d - 1
}

/// Days from 1970-01-01 to the proleptic Gregorian date `y-m-d` (Howard
/// Hinnant's `days_from_civil`: 400-year eras of 146 097 days, years
/// starting in March so the leap day falls last).
pub open spec fn days_from_civil(y: int, m: int, d: int) -> int {
    let y2 = if m <= 2 {
        y - 1
    } else {
        y
    };
    let era = y2 / 400;
    let yoe = y2 - era * 400;
    let doe = yoe * 365 + yoe / 4 - yoe / 100 + day_of_year(m, d);
    era * 146097 + doe - 719468
}

/// Seconds since the Unix epoch of the calendar fields.
pub open spec fn civil_seconds(y: int, m: int, d: int, h: int, mi: int, s: int) -> int {
    days_from_civil(y, m, d) * 86400 + h * 3600 + mi * 60 + s
}

/// Year of era (0..=399) of the March-based year holding `y-m`.
pub open spec fn year_of_era(y: int, m: int) -> int {
    let y2 = if m <= 2 {
        y - 1
    } else {
        y
    };
    y2 - (y2 / 400) * 400
}

/// Whether computing the seconds of these fields overflows the `u32`
/// day-of-year / day-of-era arithmetic (only absurd months or days reach
/// it; callers must rule it out).
pub open spec fn civil_overflows(y: int, m: int, d: int) -> bool {
    let yoe = year_of_era(y, m);
    ||| 153 * march_month(m) + 2 > u32::MAX
    ||| (153 * march_month(m) + 2) / 5 + d > u32::MAX
    ||| (153 * march_month(m) + 2) / 5 + d == 0
    ||| yoe * 365 + yoe / 4 - yoe / 100 + day_of_year(m, d) > u32::MAX
}

/// Whether the seconds of these fields would overflow.
pub fn fields_overflow(y: u32, mo: u32, d: u32) -> (r: bool)
    requires
        y <= i32::MAX,
    ensures
        r == civil_overflows(y as int, mo as int, d as int),
{
    let y2: i64 = if mo <= 2 {
        y as i64 - 1
    } else {
        y as i64
    };
    let era: i64 = if y2 >= 0 {
        y2 / 400
    } else {
        -1
    };
    assert(era == y2 / 400);
    let yoe: i64 = y2 - era * 400;
    assert(yoe == year_of_era(y as int, mo as int));
    let mp: u64 = if mo > 2 {
        (mo - 3) as u64
    } else {
        (mo + 9) as u64
    };
    let a: u64 = 153 * mp + 2;
    if a > 4294967295 {
        return true;
    }
    let b: u64 = a / 5 + d as u64;
    if b > 4294967295 || b == 0 {
        return true;
    }
    let yoe_days: i64 = yoe * 365 + yoe / 4 - yoe / 100;
    yoe_days + (b as i64 - 1) > 4294967295
}

/// Seconds since the epoch of the given calendar fields.
pub fn fields_to_secs(y: u32, mo: u32, d: u32, h: u32, mi: u32, se: u32) -> (r: i64)
    requires
        y <= i32::MAX,
        !civil_overflows(y as int, mo as int, d as int),
    ensures
        r == civil_seconds(y as int, mo as int, d as int, h as int, mi as int, se as int),
{
    let y2: i64 = if mo <= 2 {
        y as i64 - 1
    } else {
        y as i64
    };
    let era: i64 = if y2 >= 0 {
        y2 / 400
    } else {
        -1
    };
    assert(era == y2 / 400);
    let yoe: i64 = y2 - era * 400;
    let mp: i64 = if mo > 2 {
        mo as i64 - 3
    } else {
        mo as i64 + 9
    };
    let doy: i64 = (153 * mp + 2) / 5 + d as i64 - 1;
    let doe: i64 = yoe * 365 + yoe / 4 - yoe / 100 + doy;
    let days: i64 = era * 146097 + doe - 719468;
    assert(days == days_from_civil(y as int, mo as int, d as int));
    assert(-146097 - 719468 <= days <= 5368710 * 146097 + 4294967295);
    assert(days * 86400 <= (5368710 * 146097 + 4294967295) * 86400) by (nonlinear_arith)
        requires
            days <= 5368710 * 146097 + 4294967295,
    ;
    assert(days * 86400 >= (-146097 - 719468) * 86400) by (nonlinear_arith)
        requires
            days >= -146097 - 719468,
    ;
    days * 86400 + (h as i64) * 3600 + (mi as i64) * 60 + se as i64
}

/// Floor division and non-negative remainder (std `div_euclid` /
/// `rem_euclid` for a positive divisor).
fn floor_div_rem(a: i64, b: i64) -> (r: (i64, i64))
    requires
        b > 0,
    ensures
        r.0 == a / b,
        r.1 == a % b,
{
    if a >= 0 {
        let q = (a as u64 / b as u64) as i64;
        let m = (a as u64 % b as u64) as i64;
        proof {
            vstd::arithmetic::div_mod::lemma_fundamental_div_mod(a as int, b as int);
        }
        (q, m)
    } else {
        let t: u64 = (-(a + 1)) as u64;
        let tq: u64 = t / (b as u64);
        let tr: u64 = t % (b as u64);
        proof {
            vstd::arithmetic::div_mod::lemma_fundamental_div_mod(t as int, b as int);
            assert(a == -(tq + 1) * b + (b - 1 - tr)) by (nonlinear_arith)
                requires
                    t == tq * b + tr,
                    a == -(t + 1),
            ;
            vstd::arithmetic::div_mod::lemma_fundamental_div_mod_converse(
                a as int,
                b as int,
                -(tq + 1),
                b - 1 - tr,
            );
        }
        (-(tq as i64) - 1, b - 1 - tr as i64)
    }
}

/// The civil date `(year, month, day)` of the day `days` after 1970-01-01
/// (Howard Hinnant's `civil_from_days`, inverse of `days_from_civil`).
pub open spec fn civil_from_days(days: int) -> (int, int, int) {
    let z = days + 719468;
    let era = z / 146097;
    let doe = z - era * 146097;
    let yoe = (doe - doe / 1460 + doe / 36524 - doe / 146096) / 365;
    let doy = doe - (365 * yoe + yoe / 4 - yoe / 100);
    let mp = (5 * doy + 2) / 153;
    let d = doy - (153 * mp + 2) / 5 + 1;
    let m = if mp < 10 {
        mp + 3
    } else {
        mp - 9
    };
    let y = yoe + era * 400 + if m <= 2 {
        1int
    } else {
        0int
    };
    (y, m, d)
}

/// A year as `{:04}` renders it: zero-padded to four characters, the sign
/// counting towards the width.
pub open spec fn year_text(y: int) -> Seq<char> {
    if y >= 0 {
        pad_zeros(decimal(y as nat), 4)
    } else {
        seq!['-'] + pad_zeros(decimal((-y) as nat), 3)
    }
}

/// Two-digit zero-padded rendering.
pub open spec fn two_digits(n: int) -> Seq<char> {
    pad_zeros(decimal(n as nat), 2)
}

/// The UTC time `secs` seconds after the epoch as `YYYY-MM-DDTHH:MM:SSZ`.
pub open spec fn iso_text(secs: int) -> Seq<char> {
    let days = secs / 86400;
    let rem = secs % 86400;
    let (y, m, d) = civil_from_days(days);
    year_text(y) + seq!['-'] + two_digits(m) + seq!['-'] + two_digits(d) + seq!['T'] + two_digits(
        rem / 3600,
    ) + seq![':'] + two_digits((rem % 3600) / 60) + seq![':'] + two_digits(rem % 60) + seq!['Z']
}

/// Year of era of a day of era.
pub open spec fn yoe_of_doe(doe: int) -> int {
    (doe - doe / 1460 + doe / 36524 - doe / 146096) / 365
}

/// Day of the March-based year of a day of era.
pub open spec fn doy_of_doe(doe: int) -> int {
    let yoe = yoe_of_doe(doe);
    doe - (365 * yoe + yoe / 4 - yoe / 100)
}

proof fn lemma_era_split_century(doe: int, a: int, b: int, y: int, yq: int, yc: int)
    requires
        0 <= b <= 3,
        36524 * b <= doe < 36524 * b + 36524,
        1460 * a <= doe < 1460 * a + 1460,
        365 * y <= doe - a + b < 365 * y + 365,
        4 * yq <= y < 4 * yq + 4,
        100 * yc <= y < 100 * yc + 100,
    ensures
        0 <= y <= 399,
        0 <= doe - (365 * y + yq - yc) <= 365,
{
    let e = doe - 36524 * b;
    // Within a century: 25 four-year cycles of 1461 days, the last one
    // a day short.
    let q = e / 1461;
    let r = e % 1461;
    vstd::arithmetic::div_mod::lemma_fundamental_div_mod(e, 1461);
    assert(0 <= q <= 24);
    assert(y == 100 * b + 4 * q + (if r >= 1460 { 3 } else { r / 365 })) by {
        vstd::arithmetic::div_mod::lemma_fundamental_div_mod(r, 365);
    }
}

proof fn lemma_era_split_linear(doe: int, a: int, b: int, c: int, y: int, yq: int, yc: int)
    requires
        0 <= doe <= 146096,
        1460 * a <= doe < 1460 * a + 1460,
        36524 * b <= doe < 36524 * b + 36524,
        146096 * c <= doe < 146096 * c + 146096,
        365 * y <= doe - a + b - c < 365 * y + 365,
        4 * yq <= y < 4 * yq + 4,
        100 * yc <= y < 100 * yc + 100,
    ensures
        0 <= y <= 399,
        0 <= doe - (365 * y + yq - yc) <= 365,
{
    if doe == 146096 {
        assert(a == 100 && b == 4 && c == 1);
        assert(y == 399);
    } else {
        assert(c == 0);
        lemma_era_split_century(doe, a, b, y, yq, yc);
    }
}

/// Within one 400-year era, the year of era is in `0..=399` and the day of
/// the (March-based) year in `0..=365`.
proof fn lemma_era_split(doe: int)
    requires
        0 <= doe <= 146096,
    ensures
        0 <= yoe_of_doe(doe) <= 399,
        0 <= doy_of_doe(doe) <= 365,
{
    let a = doe / 1460;
    let b = doe / 36524;
    let c = doe / 146096;
    vstd::arithmetic::div_mod::lemma_fundamental_div_mod(doe, 1460);
    vstd::arithmetic::div_mod::lemma_fundamental_div_mod(doe, 36524);
    vstd::arithmetic::div_mod::lemma_fundamental_div_mod(doe, 146096);
    let k = doe - a + b - c;
    let y = k / 365;
    vstd::arithmetic::div_mod::lemma_fundamental_div_mod(k, 365);
    let yq = y / 4;
    let yc = y / 100;
    vstd::arithmetic::div_mod::lemma_fundamental_div_mod(y, 4);
    vstd::arithmetic::div_mod::lemma_fundamental_div_mod(y, 100);
    lemma_era_split_linear(doe, a, b, c, y, yq, yc);
}

/// The date fields of `days`, computed as `civil_from_days` states.
fn civil_fields(days: i64) -> (r: (i64, u32, u32))
    requires
        -106751991167301 <= days <= 106751991167300,
    ensures
        civil_from_days(days as int) == (r.0 as int, r.1 as int, r.2 as int),
{
    let z: i64 = days + 719468;
    let (era, doe_i) = floor_div_rem(z, 146097);
    assert(doe_i == z - era * 146097);
    let doe: u64 = doe_i as u64;
    proof {
        lemma_era_split(doe as int);
    }
    let yoe: u64 = (doe - doe / 1460 + doe / 36524 - doe / 146096) / 365;
    assert(yoe == yoe_of_doe(doe as int));
    let doy: u64 = doe - (365 * yoe + yoe / 4 - yoe / 100);
    let mp: u64 = (5 * doy + 2) / 153;
    let d: u64 = doy - (153 * mp + 2) / 5 + 1;
    let m: u64 = if mp < 10 {
        mp + 3
    } else {
        mp - 9
    };
    let y: i64 = yoe as i64 + era * 400 + if m <= 2 {
        1i64
    } else {
        0i64
    };
    (y, m as u32, d as u32)
}

/// Appends a two-digit zero-padded number.
fn push_two_digits(v: &mut Vec<char>, n: u64)
    ensures
        final(v)@ == old(v)@ + two_digits(n as int),
{
    let mut t = zero_padded(n, 2);
    v.append(&mut t);
}

/// Renders the UTC time `secs` seconds after the epoch as
/// `YYYY-MM-DDTHH:MM:SSZ`.
pub fn iso_timestamp(secs: i64) -> (r: String)
    ensures
        r@ == iso_text(secs as int),
{
    let (days, rem) = floor_div_rem(secs, 86400);
    assert(-106751991167301 <= days <= 106751991167300) by (nonlinear_arith)
        requires
            days == secs / 86400,
            i64::MIN <= secs <= i64::MAX,
    ;
    let (y, m, d) = civil_fields(days);
    let mut v: Vec<char> = Vec::new();
    if y >= 0 {
        let mut t = zero_padded(y as u64, 4);
        v.append(&mut t);
    } else {
        v.push('-');
        let mut t = zero_padded((-y) as u64, 3);
        v.append(&mut t);
    }
    v.push('-');
    push_two_digits(&mut v, m as u64);
    v.push('-');
    push_two_digits(&mut v, d as u64);
    v.push('T');
    push_two_digits(&mut v, (rem / 3600) as u64);
    v.push(':');
    push_two_digits(&mut v, ((rem % 3600) / 60) as u64);
    v.push(':');
    push_two_digits(&mut v, (rem % 60) as u64);
    v.push('Z');
    string_from_chars(&v)
}


/// Reading back the calendar fields that stamp a time gives the same time:
/// `civil_from_days` (used to stamp output) and `days_from_civil` (used to
/// read DuckDB timestamps) undo each other, and the stamped month and day
/// are a real month (1..=12) and day (1..=31).
pub proof fn law_calendar_round_trip(secs: int)
    ensures
        ({
            let days = secs / 86400;
            let rem = secs % 86400;
            let (y, m, d) = civil_from_days(days);
            &&& 1 <= m <= 12
            &&& 1 <= d <= 31
            &&& civil_seconds(y, m, d, rem / 3600, (rem % 3600) / 60, rem % 60) == secs
        }),
{
    let days = secs / 86400;
    let rem = secs % 86400;
    vstd::arithmetic::div_mod::lemma_fundamental_div_mod(secs, 86400);
    let z = days + 719468;
    let era = z / 146097;
    vstd::arithmetic::div_mod::lemma_fundamental_div_mod(z, 146097);
    let doe = z - era * 146097;
    lemma_era_split(doe);
    let yoe = yoe_of_doe(doe);
    let doy = doy_of_doe(doe);
    let mp = (5 * doy + 2) / 153;
    vstd::arithmetic::div_mod::lemma_fundamental_div_mod(5 * doy + 2, 153);
    assert(0 <= mp <= 11);
    let d = doy - (153 * mp + 2) / 5 + 1;
    vstd::arithmetic::div_mod::lemma_fundamental_div_mod(153 * mp + 2, 5);
    assert(1 <= d <= 31);
    let (y, m, dd) = civil_from_days(days);
    assert(dd == d);
    assert(march_month(m) == mp);
    assert(day_of_year(m, d) == doy);
    let y2 = if m <= 2 {
        y - 1
    } else {
        y
    };
    assert(y2 == yoe + era * 400);
    assert(y2 / 400 == era) by {
        vstd::arithmetic::div_mod::lemma_fundamental_div_mod_converse(y2, 400, era, yoe);
    }
    assert(days_from_civil(y, m, d) == days);
    vstd::arithmetic::div_mod::lemma_fundamental_div_mod(rem, 3600);
    vstd::arithmetic::div_mod::lemma_fundamental_div_mod(rem % 3600, 60);
}

pub proof fn lemma_decimal_len2(n: nat)
    requires
        n < 100,
    ensures
        decimal(n).len() <= 2,
{
    if n >= 10 {
        assert(decimal(n / 10).len() == 1);
    }
}

proof fn lemma_decimal_len3(n: nat)
    requires
        n < 1000,
    ensures
        decimal(n).len() <= 3,
{
    if n >= 10 {
        lemma_decimal_len2(n / 10);
    }
}

pub proof fn lemma_decimal_len4(n: nat)
    requires
        n < 10000,
    ensures
        decimal(n).len() <= 4,
{
    if n >= 10 {
        lemma_decimal_len3(n / 10);
    }
}

/// The rendering is always `YYYY-MM-DDTHH:MM:SSZ`, twenty characters, for
/// instants in the years 0 to 9999.
pub proof fn law_iso_text_is_fixed_width(secs: int)
    requires
        0 <= civil_from_days(secs / 86400).0 <= 9999,
    ensures
        iso_text(secs).len() == 20,
{
    law_calendar_round_trip(secs);
    let days = secs / 86400;
    let rem = secs % 86400;
    let (y, m, d) = civil_from_days(days);
    lemma_decimal_len4(y as nat);
    lemma_decimal_len2(m as nat);
    lemma_decimal_len2(d as nat);
    lemma_decimal_len2((rem / 3600) as nat);
    lemma_decimal_len2(((rem % 3600) / 60) as nat);
    lemma_decimal_len2((rem % 60) as nat);
}

/// Instants from the epoch to the end of the year 9999 fall in the years
/// 1970 to 9999.
pub proof fn lemma_year_in_range(secs: int)
    requires
        0 <= secs < 253402300800,
    ensures
        1970 <= civil_from_days(secs / 86400).0 <= 9999,
{
    let days = secs / 86400;
    vstd::arithmetic::div_mod::lemma_fundamental_div_mod(secs, 86400);
    assert(0 <= days <= 2932896);
    let z = days + 719468;
    let era = z / 146097;
    vstd::arithmetic::div_mod::lemma_fundamental_div_mod(z, 146097);
    assert(4 <= era <= 24);
    let doe = z - era * 146097;
    lemma_era_split(doe);
    let yoe = yoe_of_doe(doe);
    let doy = doy_of_doe(doe);
    let mp = (5 * doy + 2) / 153;
    vstd::arithmetic::div_mod::lemma_fundamental_div_mod(5 * doy + 2, 153);
    let (y, m, d) = civil_from_days(days);
    assert(y == yoe + era * 400 + if m <= 2 {
        1int
    } else {
        0int
    });
    if era == 4 {
        // 1970-01-01 is day 135080 of era 4, in its year of era 369.
        assert(doe >= 135080);
        assert(yoe >= 369) by {
            vstd::arithmetic::div_mod::lemma_fundamental_div_mod(doe, 1460);
            vstd::arithmetic::div_mod::lemma_fundamental_div_mod(doe, 36524);
            vstd::arithmetic::div_mod::lemma_fundamental_div_mod(doe, 146096);
            vstd::arithmetic::div_mod::lemma_fundamental_div_mod(
                doe - doe / 1460 + doe / 36524 - doe / 146096,
                365,
            );
        }
    }
    if era == 24 {
        assert(doe <= 146036);
        if yoe == 399 {
            assert(doy == doe - 145731);
            assert(mp <= 9);
        }
    }
}

} // verus!
