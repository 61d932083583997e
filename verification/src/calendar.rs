//! Proleptic Gregorian calendar arithmetic: from a count of days since the
//! Unix epoch to a calendar date, and the UTC timestamps built from it.

use vstd::prelude::*;
use vstd::arithmetic::div_mod::lemma_fundamental_div_mod_converse;
use crate::text::{digit_char, push_zero_padded, spec_decimal, string_from_chars, zero_padded};

verus! {

/// Leap years: divisible by 4, except centuries not divisible by 400.
pub open spec fn is_leap_year(y: int) -> bool {
    (y % 4 == 0 && y % 100 != 0) || y % 400 == 0
}

/// Number of days of month `m` (1 to 12) in year `y`.
pub open spec fn days_in_month(y: int, m: int) -> int {
    if m == 2 {
        if is_leap_year(y) { 29 } else { 28 }
    } else if m == 4 || m == 6 || m == 9 || m == 11 {
        30
    } else {
        31
    }
}

/// Days in year `y` before the first of month `m`.
pub open spec fn days_before_month(y: int, m: int) -> int
    decreases m,
{
    if m <= 1 {
        0
    } else {
        days_before_month(y, m - 1) + days_in_month(y, m - 1)
    }
}

/// Leap years among the years 1 to `y` (counted backwards for `y <= 0`).
pub open spec fn leap_years_through(y: int) -> int {
    y / 4 - y / 100 + y / 400
}

/// Days from 1970-01-01 to January 1st of year `y`.
pub open spec fn days_before_year(y: int) -> int {
    365 * (y - 1970) + leap_years_through(y - 1) - leap_years_through(1969)
}

/// Days from 1970-01-01 to the given date (negative before it).
pub open spec fn days_from_civil(y: int, m: int, d: int) -> int {
    days_before_year(y) + days_before_month(y, m) + d - 1
}

/// `m` is a month and `d` a day of it in year `y`.
pub open spec fn is_valid_date(y: int, m: int, d: int) -> bool {
    1 <= m <= 12 && 1 <= d <= days_in_month(y, m)
}

// ---------------------------------------------------------------------------
// Proof of the conversion
// ---------------------------------------------------------------------------

proof fn lemma_div_is(n: int, a: int, k: int)
    requires
        a > 0,
        a * k <= n < a * k + a,
    ensures
        n / a == k,
{
    assert(k * a == a * k) by (nonlinear_arith);
    lemma_fundamental_div_mod_converse(n, a, k, n - a * k);
}

/// Start of the year of era `y` (years counted from March 1st), in days
/// from the start of the era.
spec fn era_year_start(y: int) -> int {
    365 * y + y / 4 - y / 100
}

/// Year of era and day of that year for a day of a 400-year era.
proof fn lemma_year_of_era(doe: int)
    requires
        0 <= doe <= 146096,
    ensures
        ({
            let yoe = (doe - doe / 1460 + doe / 36524 - doe / 146096) / 365;
            let doy = doe - era_year_start(yoe);
            &&& 0 <= yoe <= 399
            &&& 0 <= doy <= 365
            &&& doy == 365 ==> is_leap_year(yoe + 1)
        }),
{
    let c: int = if doe < 4 * 36524 { doe / 36524 } else { 3 };
    if doe < 4 * 36524 {
        lemma_fundamental_div_mod_converse(doe, 36524, doe / 36524, doe % 36524);
    }
    assert(0 <= c <= 3);
    let r1 = doe - 36524 * c;
    assert(0 <= r1 <= 36524);
    assert(c < 3 ==> r1 <= 36523);
    let q = r1 / 1461;
    lemma_fundamental_div_mod_converse(r1, 1461, r1 / 1461, r1 % 1461);
    assert(0 <= q <= 24);
    let r2 = r1 - 1461 * q;
    assert(0 <= r2 <= 1460);
    let r: int = if r2 < 1460 { r2 / 365 } else { 3 };
    if r2 < 1460 {
        lemma_fundamental_div_mod_converse(r2, 365, r2 / 365, r2 % 365);
    }
    assert(0 <= r <= 3);
    let t = r2 - 365 * r;
    assert(0 <= t <= 365);
    assert(t == 365 ==> r == 3 && r2 == 1460);
    let y = 100 * c + 4 * q + r;
    assert(doe == 36524 * c + 1461 * q + 365 * r + t);
    // doe / 1460
    let low = 24 * c + q + 365 * r + t;
    let e: int = if low >= 1460 { 1 } else { 0 };
    assert(0 <= low <= 1556);
    lemma_div_is(doe, 1460, 25 * c + q + e);
    // doe / 36524 and doe / 146096
    let f: int = if doe == 146096 { 1 } else { 0 };
    lemma_div_is(doe, 36524, c + f);
    lemma_div_is(doe, 146096, f);
    let g = doe - doe / 1460 + doe / 36524 - doe / 146096;
    assert(g == 365 * y + t - e);
    assert(0 <= t - e <= 364);
    lemma_div_is(g, 365, y);
    // start of year y of the era
    lemma_div_is(y, 4, 25 * c + q);
    lemma_div_is(y, 100, c);
    assert(era_year_start(y) == 36524 * c + 1461 * q + 365 * r);
    if t == 365 {
        let n = y + 1;
        assert(n == 100 * c + 4 * q + 4);
        lemma_fundamental_div_mod_converse(n, 4, 25 * c + q + 1, 0);
        if q < 24 {
            lemma_fundamental_div_mod_converse(n, 100, c, 4 * q + 4);
        } else {
            assert(c == 3);
            lemma_fundamental_div_mod_converse(n, 400, 1, 0);
        }
    }
}

/// Start of month `mp` of a year counted from March (0 = March).
spec fn march_month_start(mp: int) -> int {
    (153 * mp + 2) / 5
}

/// Month and day within a year counted from March 1st.
proof fn lemma_month_of_year(doy: int)
    requires
        0 <= doy <= 365,
    ensures
        ({
            let mp = (5 * doy + 2) / 153;
            let d = doy - march_month_start(mp) + 1;
            &&& 0 <= mp <= 11
            &&& 1 <= d
            &&& d <= (if mp == 11 { if doy == 365 { 29int } else { 28 } } else { march_month_len(mp) })
        }),
{
    let mp: int = if doy < 31 { 0 } else if doy < 61 { 1 } else if doy < 92 { 2 } else if doy < 122 {
        3
    } else if doy < 153 { 4 } else if doy < 184 { 5 } else if doy < 214 { 6 } else if doy < 245 {
        7
    } else if doy < 275 { 8 } else if doy < 306 { 9 } else if doy < 337 { 10 } else { 11 };
    lemma_div_is(5 * doy + 2, 153, mp);
    lemma_march_month_start(mp);
}

/// Length of month `mp` of a year counted from March, February excepted.
spec fn march_month_len(mp: int) -> int {
    if mp == 1 || mp == 3 || mp == 6 || mp == 8 { 30 } else { 31 }
}

proof fn lemma_march_month_start(mp: int)
    requires
        0 <= mp <= 11,
    ensures
        march_month_start(mp) == (if mp == 0 { 0int } else if mp == 1 { 31 } else if mp == 2 { 61 }
            else if mp == 3 { 92 } else if mp == 4 { 122 } else if mp == 5 { 153 } else if mp == 6 {
            184 } else if mp == 7 { 214 } else if mp == 8 { 245 } else if mp == 9 { 275 }
            else if mp == 10 { 306 } else { 337 }),
{
    let v: int = if mp == 0 { 0 } else if mp == 1 { 31 } else if mp == 2 { 61 }
        else if mp == 3 { 92 } else if mp == 4 { 122 } else if mp == 5 { 153 } else if mp == 6 {
        184 } else if mp == 7 { 214 } else if mp == 8 { 245 } else if mp == 9 { 275 }
        else if mp == 10 { 306 } else { 337 };
    lemma_div_is(153 * mp + 2, 5, v);
}


proof fn lemma_leap_step(y: int)
    ensures
        leap_years_through(y) - leap_years_through(y - 1) == (if is_leap_year(y) { 1int } else { 0 }),
{
    lemma_div_step(y, 4);
    lemma_div_step(y, 100);
    lemma_div_step(y, 400);
    if y % 400 == 0 {
        lemma_fundamental_div_mod_converse(y, 100, 4 * (y / 400), 0);
        lemma_fundamental_div_mod_converse(y, 4, 100 * (y / 400), 0);
    } else if y % 100 == 0 {
        lemma_fundamental_div_mod_converse(y, 4, 25 * (y / 100), 0);
    }
}

proof fn lemma_div_step(y: int, a: int)
    requires
        a > 0,
    ensures
        y / a - (y - 1) / a == (if y % a == 0 { 1int } else { 0 }),
        y == a * (y / a) + y % a,
        0 <= y % a < a,
{
    vstd::arithmetic::div_mod::lemma_fundamental_div_mod(y, a);
    vstd::arithmetic::div_mod::lemma_mod_bound(y, a);
    if y % a == 0 {
        assert(a * (y / a - 1) == a * (y / a) - a) by (nonlinear_arith);
        lemma_div_is(y - 1, a, y / a - 1);
    } else {
        lemma_div_is(y - 1, a, y / a);
    }
}

proof fn lemma_days_before_month(y: int, m: int)
    requires
        1 <= m <= 12,
    ensures
        ({
            let l: int = if is_leap_year(y) { 1 } else { 0 };
            &&& m == 1 ==> days_before_month(y, m) == 0
            &&& m == 2 ==> days_before_month(y, m) == 31
            &&& m >= 3 ==> days_before_month(y, m) == 59 + l + march_month_start(m - 3)
        }),
{
    reveal_with_fuel(days_before_month, 13);
    if m >= 3 {
        lemma_march_month_start(m - 3);
    }
}

/// A year of era `yoe` of era `era` (years counted from March 1st).
proof fn lemma_era_year(era: int, yoe: int)
    requires
        0 <= yoe <= 399,
    ensures
        ({
            let y = 400 * era + yoe;
            &&& y / 4 == 100 * era + yoe / 4
            &&& y / 100 == 4 * era + yoe / 100
            &&& y / 400 == era
            &&& is_leap_year(y + 1) == is_leap_year(yoe + 1)
        }),
{
    let y = 400 * era + yoe;
    lemma_div_step(yoe, 4);
    lemma_div_step(yoe, 100);
    lemma_div_is(y, 4, 100 * era + yoe / 4);
    lemma_div_is(y, 100, 4 * era + yoe / 100);
    lemma_div_is(y, 400, era);
    let n = yoe + 1;
    lemma_div_step(n, 4);
    lemma_div_step(n, 100);
    lemma_div_step(n, 400);
    lemma_fundamental_div_mod_converse(y + 1, 4, 100 * era + n / 4, n % 4);
    lemma_fundamental_div_mod_converse(y + 1, 100, 4 * era + n / 100, n % 100);
    lemma_fundamental_div_mod_converse(y + 1, 400, era + n / 400, n % 400);
}

/// Putting the pieces together: the date that Hinnant's decomposition
/// yields is a valid date, `days_from_civil` days after 1970-01-01.
proof fn lemma_civil_assembly(era: int, yoe: int, doy: int)
    requires
        0 <= yoe <= 399,
        0 <= doy <= 365,
        doy == 365 ==> is_leap_year(yoe + 1),
    ensures
        ({
            let mp = (5 * doy + 2) / 153;
            let d = doy - march_month_start(mp) + 1;
            let m = if mp < 10 { mp + 3 } else { mp - 9 };
            let y = 400 * era + yoe;
            let cy = if m <= 2 { y + 1 } else { y };
            &&& is_valid_date(cy, m, d)
            &&& days_from_civil(cy, m, d) == 146097 * era + era_year_start(yoe) + doy - 719468
        }),
{
    let mp = (5 * doy + 2) / 153;
    let d = doy - march_month_start(mp) + 1;
    let m = if mp < 10 { mp + 3 } else { mp - 9 };
    let y = 400 * era + yoe;
    let cy = if m <= 2 { y + 1 } else { y };
    lemma_month_of_year(doy);
    lemma_march_month_start(mp);
    lemma_era_year(era, yoe);
    lemma_days_before_month(cy, m);
    lemma_leap_step(y);
    lemma_leap_step(y + 1);
    assert(leap_years_through(1969) == 477) by {
        lemma_div_is(1969, 4, 492);
        lemma_div_is(1969, 100, 19);
        lemma_div_is(1969, 400, 4);
    }
}

/// The calendar date `days` days after 1970-01-01, with the year as `i64`.
fn civil_from_days(days: i64) -> (res: (i64, u32, u32))
    requires
        days <= i64::MAX - 719_468,
    ensures
        is_valid_date(res.0 as int, res.1 as int, res.2 as int),
        days_from_civil(res.0 as int, res.1 as int, res.2 as int) == days,
{
    let z = days + 719_468;
    let era = if z >= 0 { z } else { z - 146_096 } / 146_097;
    let ghost e = z as int / 146097;
    assert(era == e) by {
        vstd::arithmetic::div_mod::lemma_fundamental_div_mod(z as int, 146097);
    }
    let day_of_era = z - era * 146_097;
    assert(0 <= day_of_era <= 146096) by {
        vstd::arithmetic::div_mod::lemma_fundamental_div_mod(z as int, 146097);
    }
    proof {
        lemma_year_of_era(day_of_era as int);
    }
    let year_of_era = (day_of_era - day_of_era / 1_460 + day_of_era / 36_524 - day_of_era / 146_096) / 365;
    let year = year_of_era + era * 400;
    let day_of_year = day_of_era - (365 * year_of_era + year_of_era / 4 - year_of_era / 100);
    proof {
        lemma_civil_assembly(era as int, year_of_era as int, day_of_year as int);
        lemma_month_of_year(day_of_year as int);
    }
    let month_index = (5 * day_of_year + 2) / 153;
    let day = day_of_year - (153 * month_index + 2) / 5 + 1;
    let month = month_index + if month_index < 10 { 3 } else { -9 };
    let year = year + if month <= 2 { 1 } else { 0 };
    (year, month as u32, day as u32)
}


proof fn lemma_year_length(y: int)
    ensures
        days_before_year(y + 1) - days_before_year(y) == 365 + (if is_leap_year(y) { 1int } else { 0 }),
{
    lemma_leap_step(y);
}

proof fn lemma_days_before_year_mono(a: int, b: int)
    requires
        a <= b,
    ensures
        days_before_year(a) + 365 * (b - a) <= days_before_year(b),
    decreases b - a,
{
    if a < b {
        lemma_days_before_year_mono(a, b - 1);
        lemma_year_length(b - 1);
    }
}

/// A valid date lies within its year, after every earlier month.
proof fn lemma_date_bounds(y: int, m: int, d: int)
    requires
        is_valid_date(y, m, d),
    ensures
        days_before_year(y) <= days_from_civil(y, m, d) < days_before_year(y + 1),
        forall|m2: int| m < m2 <= 12 ==> days_from_civil(y, m, d) < days_before_year(y) + #[trigger] days_before_month(y, m2),
        days_before_year(y) + days_before_month(y, m) <= days_from_civil(y, m, d),
{
    lemma_year_length(y);
    lemma_days_before_month(y, m);
    if m >= 3 {
        lemma_march_month_start(m - 3);
    }
    assert forall|m2: int| m < m2 <= 12 implies days_from_civil(y, m, d) < days_before_year(y) + #[trigger] days_before_month(y, m2) by {
        lemma_days_before_month(y, m2);
        if m2 >= 3 {
            lemma_march_month_start(m2 - 3);
        }
    }
}

/// Different valid dates lie different numbers of days from 1970-01-01:
/// a count of days names at most one date.
pub proof fn lemma_civil_unique(y1: int, m1: int, d1: int, y2: int, m2: int, d2: int)
    requires
        is_valid_date(y1, m1, d1),
        is_valid_date(y2, m2, d2),
        days_from_civil(y1, m1, d1) == days_from_civil(y2, m2, d2),
    ensures
        y1 == y2 && m1 == m2 && d1 == d2,
{
    lemma_date_bounds(y1, m1, d1);
    lemma_date_bounds(y2, m2, d2);
    if y1 < y2 {
        lemma_days_before_year_mono(y1 + 1, y2);
    } else if y2 < y1 {
        lemma_days_before_year_mono(y2 + 1, y1);
    }
}

/// The valid date `days` days after 1970-01-01.
pub open spec fn civil_date_of(days: int) -> (int, int, int) {
    choose|ymd: (int, int, int)| is_valid_date(ymd.0, ymd.1, ymd.2) && days_from_civil(ymd.0, ymd.1, ymd.2) == days
}

/// Every count of days names exactly one valid date, `civil_date_of`.
pub proof fn lemma_civil_date_of(days: int, y: int, m: int, d: int)
    requires
        is_valid_date(y, m, d),
        days_from_civil(y, m, d) == days,
    ensures
        civil_date_of(days) == (y, m, d),
{
    let w = (y, m, d);
    assert(is_valid_date(w.0, w.1, w.2) && days_from_civil(w.0, w.1, w.2) == days);
    let c = civil_date_of(days);
    lemma_civil_unique(c.0, c.1, c.2, y, m, d);
}

/// The calendar date `days_since_unix_epoch` days after 1970-01-01: year
/// (truncated to 32 bits), month and day.
pub fn civil_from_unix_days(days_since_unix_epoch: i64) -> (res: (i32, u32, u32))
    requires
        days_since_unix_epoch <= i64::MAX - 719_468,
    ensures
        ({
            let ymd = civil_date_of(days_since_unix_epoch as int);
            &&& is_valid_date(ymd.0, ymd.1, ymd.2)
            &&& days_from_civil(ymd.0, ymd.1, ymd.2) == days_since_unix_epoch
            &&& res.0 == ymd.0 as i32 && res.1 == ymd.1 && res.2 == ymd.2
            &&& 1 <= res.1 <= 12
            &&& 1 <= res.2 <= days_in_month(ymd.0, res.1 as int)
        }),
{
    let (year, month, day) = civil_from_days(days_since_unix_epoch);
    proof {
        lemma_civil_date_of(days_since_unix_epoch as int, year as int, month as int, day as int);
    }
    (year as i32, month, day)
}


/// Every count of days, however large or negative, names a valid date:
/// `civil_date_of` is that date.
pub proof fn lemma_civil_date_exists(days: int)
    ensures
        is_valid_date(civil_date_of(days).0, civil_date_of(days).1, civil_date_of(days).2),
        days_from_civil(civil_date_of(days).0, civil_date_of(days).1, civil_date_of(days).2) == days,
{
    let z = days + 719468;
    let era = z / 146097;
    vstd::arithmetic::div_mod::lemma_fundamental_div_mod(z, 146097);
    assert(146097 * era == era * 146097) by (nonlinear_arith);
    let doe = z - era * 146097;
    assert(0 <= doe <= 146096);
    lemma_year_of_era(doe);
    let yoe = (doe - doe / 1460 + doe / 36524 - doe / 146096) / 365;
    let doy = doe - era_year_start(yoe);
    lemma_civil_assembly(era, yoe, doy);
    let mp = (5 * doy + 2) / 153;
    let d = doy - march_month_start(mp) + 1;
    let m = if mp < 10 { mp + 3 } else { mp - 9 };
    let y = 400 * era + yoe;
    let cy = if m <= 2 { y + 1 } else { y };
    lemma_civil_date_of(days, cy, m, d);
}

/// The day after a valid date.
pub open spec fn next_day(y: int, m: int, d: int) -> (int, int, int) {
    if d < days_in_month(y, m) {
        (y, m, d + 1)
    } else if m < 12 {
        (y, m + 1, 1)
    } else {
        (y + 1, 1, 1)
    }
}

/// Counting one day further gives the calendar day right after: the dates
/// named by consecutive day counts follow each other without gaps.
pub proof fn lemma_civil_next_day(days: int)
    ensures
        civil_date_of(days + 1) == next_day(civil_date_of(days).0, civil_date_of(days).1, civil_date_of(days).2),
{
    lemma_civil_date_exists(days);
    let (y, m, d) = civil_date_of(days);
    let (ny, nm, nd) = next_day(y, m, d);
    if d < days_in_month(y, m) {
    } else if m < 12 {
        assert(days_before_month(y, m + 1) == days_before_month(y, m) + days_in_month(y, m));
        lemma_days_before_month(y, m + 1);
    } else {
        lemma_days_before_month(y, 12);
        lemma_march_month_start(9);
        lemma_year_length(y);
        lemma_days_before_month(y + 1, 1);
    }
    lemma_civil_date_of(days + 1, ny, nm, nd);
}

/// A year as `{:04}` writes an `i32`: at least four digits with leading
/// zeros, a minus sign counting towards the four.
pub open spec fn year_field(y: i32) -> Seq<char> {
    if y >= 0 {
        zero_padded(spec_decimal(y as nat), 4)
    } else {
        seq!['-'] + zero_padded(spec_decimal((-(y as int)) as nat), 3)
    }
}

/// A number below 100 as two digits.
pub open spec fn two_digits(n: nat) -> Seq<char> {
    zero_padded(spec_decimal(n), 2)
}

/// `seconds` after the Unix epoch as `YYYY-MM-DDTHH:MM:SSZ`.
pub open spec fn spec_utc_iso8601(seconds: nat) -> Seq<char> {
    let ymd = civil_date_of((seconds / 86400) as int);
    let s = seconds % 86400;
    year_field(ymd.0 as i32) + seq!['-'] + two_digits(ymd.1 as nat) + seq!['-'] + two_digits(
        ymd.2 as nat,
    ) + seq!['T'] + two_digits(s / 3600) + seq![':'] + two_digits((s % 3600) / 60) + seq![':']
        + two_digits(s % 60) + seq!['Z']
}

/// Formats a Unix timestamp as a UTC date and time in ISO 8601.
pub fn unix_epoch_to_utc_iso8601(seconds: u64) -> (res: String)
    ensures
        res@ == spec_utc_iso8601(seconds as nat),
{
    let days = (seconds / 86_400) as i64;
    let seconds_of_day = seconds % 86_400;
    let (year, month, day) = civil_from_unix_days(days);
    let hour = seconds_of_day / 3_600;
    let minute = (seconds_of_day % 3_600) / 60;
    let second = seconds_of_day % 60;
    let mut out: Vec<char> = Vec::new();
    if year >= 0 {
        push_zero_padded(&mut out, year as u64, 4);
    } else {
        out.push('-');
        push_zero_padded(&mut out, (-(year as i64)) as u64, 3);
    }
    let ghost y = out@;
    assert(y =~= year_field(year));
    out.push('-');
    push_zero_padded(&mut out, month as u64, 2);
    out.push('-');
    push_zero_padded(&mut out, day as u64, 2);
    out.push('T');
    push_zero_padded(&mut out, hour, 2);
    out.push(':');
    push_zero_padded(&mut out, minute, 2);
    out.push(':');
    push_zero_padded(&mut out, second, 2);
    out.push('Z');
    assert(out@ =~= spec_utc_iso8601(seconds as nat));
    string_from_chars(&out)
}


// ---------------------------------------------------------------------------
// Timestamp laws
// ---------------------------------------------------------------------------

/// Strict lexicographic order of character sequences (string order).
pub open spec fn lex_lt(a: Seq<char>, b: Seq<char>) -> bool
    decreases a.len(),
{
    if a.len() == 0 {
        b.len() > 0
    } else if b.len() == 0 {
        false
    } else if (a[0] as int) < (b[0] as int) {
        true
    } else if a[0] == b[0] {
        lex_lt(a.drop_first(), b.drop_first())
    } else {
        false
    }
}

proof fn lemma_lex_common_prefix(x: Seq<char>, a: Seq<char>, b: Seq<char>)
    requires
        lex_lt(a, b),
    ensures
        lex_lt(x + a, x + b),
    decreases x.len(),
{
    if x.len() > 0 {
        assert((x + a).drop_first() =~= x.drop_first() + a);
        assert((x + b).drop_first() =~= x.drop_first() + b);
        lemma_lex_common_prefix(x.drop_first(), a, b);
    } else {
        assert(x + a =~= a);
        assert(x + b =~= b);
    }
}

proof fn lemma_lex_same_len(a1: Seq<char>, a2: Seq<char>, b1: Seq<char>, b2: Seq<char>)
    requires
        a1.len() == a2.len(),
        lex_lt(a1, a2),
    ensures
        lex_lt(a1 + b1, a2 + b2),
    decreases a1.len(),
{
    assert((a1 + b1)[0] == a1[0] && (a2 + b2)[0] == a2[0]);
    if a1[0] == a2[0] {
        assert((a1 + b1).drop_first() =~= a1.drop_first() + b1);
        assert((a2 + b2).drop_first() =~= a2.drop_first() + b2);
        lemma_lex_same_len(a1.drop_first(), a2.drop_first(), b1, b2);
    }
}

/// `a1 + r1` comes before `a2 + r2` when the equally long heads do, or when
/// the heads are equal and the rests do.
proof fn lemma_lex_fields(a1: Seq<char>, a2: Seq<char>, r1: Seq<char>, r2: Seq<char>)
    requires
        a1.len() == a2.len(),
        lex_lt(a1, a2) || (a1 == a2 && lex_lt(r1, r2)),
    ensures
        lex_lt(a1 + r1, a2 + r2),
{
    if lex_lt(a1, a2) {
        lemma_lex_same_len(a1, a2, r1, r2);
    } else {
        lemma_lex_common_prefix(a1, r1, r2);
    }
}

proof fn lemma_two_digits(n: nat)
    requires
        n < 100,
    ensures
        two_digits(n) == seq![digit_char((n / 10) as int), digit_char((n % 10) as int)],
{
    if n < 10 {
        assert(spec_decimal(n) == seq![digit_char(n as int)]);
        assert(two_digits(n) =~= seq![digit_char((n / 10) as int), digit_char((n % 10) as int)]);
    } else {
        assert(spec_decimal((n / 10) as nat) == seq![digit_char((n / 10) as int)]);
        assert(spec_decimal(n) =~= seq![digit_char((n / 10) as int), digit_char((n % 10) as int)]);
    }
}

proof fn lemma_digit_char(k: int)
    requires
        0 <= k < 10,
    ensures
        digit_char(k) as int == 48 + k,
{
}

proof fn lemma_two_digits_lt(n1: nat, n2: nat)
    requires
        n1 < n2 < 100,
    ensures
        lex_lt(two_digits(n1), two_digits(n2)),
        two_digits(n1).len() == 2,
        two_digits(n2).len() == 2,
{
    lemma_two_digits(n1);
    lemma_two_digits(n2);
    let a = two_digits(n1);
    let b = two_digits(n2);
    lemma_digit_char((n1 / 10) as int);
    lemma_digit_char((n2 / 10) as int);
    lemma_digit_char((n1 % 10) as int);
    lemma_digit_char((n2 % 10) as int);
    if n1 / 10 == n2 / 10 {
        let a1 = a.drop_first();
        let b1 = b.drop_first();
        assert(a1 =~= seq![digit_char((n1 % 10) as int)]);
        assert(b1 =~= seq![digit_char((n2 % 10) as int)]);
        assert(lex_lt(a1, b1));
        assert(a[0] == b[0]);
    }
}

proof fn lemma_year_digits(y: int)
    requires
        1970 <= y <= 9999,
    ensures
        year_field(y as i32) == two_digits((y / 100) as nat) + two_digits((y % 100) as nat),
{
    let n = y as nat;
    lemma_two_digits((y / 100) as nat);
    lemma_two_digits((y % 100) as nat);
    assert(spec_decimal((n / 1000) as nat) == seq![digit_char((n / 1000) as int)]);
    assert(spec_decimal((n / 100) as nat) == spec_decimal((n / 1000) as nat).push(digit_char(((n / 100) % 10) as int)));
    assert(spec_decimal((n / 10) as nat) == spec_decimal((n / 100) as nat).push(digit_char(((n / 10) % 10) as int)));
    assert(spec_decimal(n) == spec_decimal((n / 10) as nat).push(digit_char((n % 10) as int)));
    assert(year_field(y as i32) =~= two_digits((y / 100) as nat) + two_digits((y % 100) as nat));
}

proof fn lemma_year_lt(y1: int, y2: int)
    requires
        1970 <= y1 < y2 <= 9999,
    ensures
        lex_lt(year_field(y1 as i32), year_field(y2 as i32)),
{
    lemma_year_digits(y1);
    lemma_year_digits(y2);
    lemma_two_digits((y1 / 100) as nat);
    lemma_two_digits((y2 / 100) as nat);
    lemma_two_digits((y1 % 100) as nat);
    lemma_two_digits((y2 % 100) as nat);
    if y1 / 100 < y2 / 100 {
        lemma_two_digits_lt((y1 / 100) as nat, (y2 / 100) as nat);
        lemma_lex_fields(two_digits((y1 / 100) as nat), two_digits((y2 / 100) as nat), two_digits((y1 % 100) as nat), two_digits((y2 % 100) as nat));
    } else {
        lemma_two_digits_lt((y1 % 100) as nat, (y2 % 100) as nat);
        lemma_two_digits((y1 / 100) as nat);
        lemma_lex_fields(two_digits((y1 / 100) as nat), two_digits((y2 / 100) as nat), two_digits((y1 % 100) as nat), two_digits((y2 % 100) as nat));
    }
}

/// The timestamp text of a date and time of day, field by field.
spec fn stamp(y: int, m: nat, d: nat, h: nat, mi: nat, sec: nat) -> Seq<char> {
    year_field(y as i32) + (seq!['-'] + (two_digits(m) + (seq!['-'] + (two_digits(d) + (seq!['T'] + (
    two_digits(h) + (seq![':'] + (two_digits(mi) + (seq![':'] + (two_digits(sec) + seq!['Z']))))))))))
}

/// Two-digit fields compare like their numbers, equal numbers leaving the
/// decision to what follows.
proof fn lemma_field_step(n1: nat, n2: nat, r1: Seq<char>, r2: Seq<char>)
    requires
        n1 < 100,
        n2 < 100,
        n1 < n2 || (n1 == n2 && lex_lt(r1, r2)),
    ensures
        lex_lt(two_digits(n1) + r1, two_digits(n2) + r2),
{
    lemma_two_digits(n1);
    lemma_two_digits(n2);
    if n1 < n2 {
        lemma_two_digits_lt(n1, n2);
    }
    lemma_lex_fields(two_digits(n1), two_digits(n2), r1, r2);
}

proof fn lemma_sep_step(c: char, r1: Seq<char>, r2: Seq<char>)
    requires
        lex_lt(r1, r2),
    ensures
        lex_lt(seq![c] + r1, seq![c] + r2),
{
    lemma_lex_common_prefix(seq![c], r1, r2);
}

proof fn lemma_stamp_lt(y1: int, m1: nat, d1: nat, h1: nat, mi1: nat, s1: nat, y2: int, m2: nat, d2: nat, h2: nat, mi2: nat, s2: nat)
    requires
        1970 <= y1 <= 9999,
        1970 <= y2 <= 9999,
        m1 < 100 && d1 < 100 && h1 < 100 && mi1 < 100 && s1 < 100,
        m2 < 100 && d2 < 100 && h2 < 100 && mi2 < 100 && s2 < 100,
        y1 < y2 || (y1 == y2 && (m1 < m2 || (m1 == m2 && (d1 < d2 || (d1 == d2 && (h1 < h2 || (h1 == h2 && (mi1 < mi2 || (mi1 == mi2 && s1 < s2))))))))),
    ensures
        lex_lt(stamp(y1, m1, d1, h1, mi1, s1), stamp(y2, m2, d2, h2, mi2, s2)),
{
    let z1 = seq!['Z'];
    let ts1 = two_digits(s1) + z1;
    let ts2 = two_digits(s2) + z1;
    if s1 < s2 {
        lemma_field_step(s1, s2, z1, z1);
    }
    let c1 = seq![':'] + ts1;
    let c2 = seq![':'] + ts2;
    if lex_lt(ts1, ts2) {
        lemma_sep_step(':', ts1, ts2);
    }
    let tm1 = two_digits(mi1) + c1;
    let tm2 = two_digits(mi2) + c2;
    if mi1 < mi2 || (mi1 == mi2 && lex_lt(c1, c2)) {
        lemma_field_step(mi1, mi2, c1, c2);
    }
    let e1 = seq![':'] + tm1;
    let e2 = seq![':'] + tm2;
    if lex_lt(tm1, tm2) {
        lemma_sep_step(':', tm1, tm2);
    }
    let th1 = two_digits(h1) + e1;
    let th2 = two_digits(h2) + e2;
    if h1 < h2 || (h1 == h2 && lex_lt(e1, e2)) {
        lemma_field_step(h1, h2, e1, e2);
    }
    let f1 = seq!['T'] + th1;
    let f2 = seq!['T'] + th2;
    if lex_lt(th1, th2) {
        lemma_sep_step('T', th1, th2);
    }
    let td1 = two_digits(d1) + f1;
    let td2 = two_digits(d2) + f2;
    if d1 < d2 || (d1 == d2 && lex_lt(f1, f2)) {
        lemma_field_step(d1, d2, f1, f2);
    }
    let g1 = seq!['-'] + td1;
    let g2 = seq!['-'] + td2;
    if lex_lt(td1, td2) {
        lemma_sep_step('-', td1, td2);
    }
    let tmo1 = two_digits(m1) + g1;
    let tmo2 = two_digits(m2) + g2;
    if m1 < m2 || (m1 == m2 && lex_lt(g1, g2)) {
        lemma_field_step(m1, m2, g1, g2);
    }
    let k1 = seq!['-'] + tmo1;
    let k2 = seq!['-'] + tmo2;
    if lex_lt(tmo1, tmo2) {
        lemma_sep_step('-', tmo1, tmo2);
    }
    lemma_year_digits(y1);
    lemma_year_digits(y2);
    lemma_two_digits((y1 / 100) as nat);
    lemma_two_digits((y1 % 100) as nat);
    lemma_two_digits((y2 / 100) as nat);
    lemma_two_digits((y2 % 100) as nat);
    if y1 < y2 {
        lemma_year_lt(y1, y2);
    }
    lemma_lex_fields(year_field(y1 as i32), year_field(y2 as i32), k1, k2);
}

/// Day counts before 10000-01-01 name years from 1970 to 9999.
proof fn lemma_four_digit_year(days: int)
    requires
        0 <= days < 2932897,
    ensures
        1970 <= civil_date_of(days).0 <= 9999,
{
    lemma_civil_date_exists(days);
    let (y, m, d) = civil_date_of(days);
    lemma_date_bounds(y, m, d);
    if y > 9999 {
        lemma_days_before_year_mono(10000, y);
        lemma_div_is(9999, 4, 2499);
        lemma_div_is(9999, 100, 99);
        lemma_div_is(9999, 400, 24);
        lemma_div_is(1969, 4, 492);
        lemma_div_is(1969, 100, 19);
        lemma_div_is(1969, 400, 4);
        assert(days_before_year(10000) == 2932897);
    }
    if y < 1970 {
        lemma_days_before_year_mono(y + 1, 1970);
        lemma_div_is(1969, 4, 492);
        lemma_div_is(1969, 100, 19);
        lemma_div_is(1969, 400, 4);
        assert(days_before_year(1970) == 0);
    }
}

/// Later days name later dates.
proof fn lemma_date_order(n1: int, n2: int)
    requires
        n1 < n2,
    ensures
        ({
            let (y1, m1, d1) = civil_date_of(n1);
            let (y2, m2, d2) = civil_date_of(n2);
            y1 < y2 || (y1 == y2 && (m1 < m2 || (m1 == m2 && d1 < d2)))
        }),
{
    lemma_civil_date_exists(n1);
    lemma_civil_date_exists(n2);
    let (y1, m1, d1) = civil_date_of(n1);
    let (y2, m2, d2) = civil_date_of(n2);
    lemma_date_bounds(y1, m1, d1);
    lemma_date_bounds(y2, m2, d2);
    if y1 > y2 {
        lemma_days_before_year_mono(y2 + 1, y1);
    }
}

/// A timestamp before the year 10000 is exactly 20 characters long.
pub proof fn lemma_utc_iso8601_len(seconds: nat)
    requires
        seconds < 253402300800,
    ensures
        spec_utc_iso8601(seconds).len() == 20,
{
    let days = (seconds / 86400) as int;
    lemma_four_digit_year(days);
    lemma_civil_date_exists(days);
    let (y, m, d) = civil_date_of(days);
    lemma_year_digits(y);
    lemma_two_digits((y / 100) as nat);
    lemma_two_digits((y % 100) as nat);
    let t = seconds % 86400;
    lemma_two_digits(m as nat);
    lemma_two_digits(d as nat);
    lemma_two_digits(t / 3600);
    lemma_two_digits((t % 3600) / 60);
    lemma_two_digits(t % 60);
}

proof fn lemma_iso_is_stamp(seconds: nat)
    ensures
        ({
            let ymd = civil_date_of((seconds / 86400) as int);
            let t = seconds % 86400;
            spec_utc_iso8601(seconds) == stamp(ymd.0, ymd.1 as nat, ymd.2 as nat, t / 3600, (t % 3600) / 60, t % 60)
        }),
{
    let ymd = civil_date_of((seconds / 86400) as int);
    let t = seconds % 86400;
    assert(spec_utc_iso8601(seconds) =~= stamp(ymd.0, ymd.1 as nat, ymd.2 as nat, t / 3600, (t % 3600) / 60, t % 60));
}

proof fn lemma_time_of_day_order(t1: nat, t2: nat)
    requires
        t1 < t2 < 86400,
    ensures
        t2 / 3600 < 24,
        (t1 % 3600) / 60 < 60 && (t2 % 3600) / 60 < 60,
        t1 / 3600 < t2 / 3600 || (t1 / 3600 == t2 / 3600 && ((t1 % 3600) / 60 < (t2 % 3600) / 60 || ((t1 % 3600) / 60 == (t2 % 3600) / 60 && t1 % 60 < t2 % 60))),
{
}

/// Timestamps before the year 10000 sort in time order: a later time gives
/// a text that comes later in string order.
pub proof fn lemma_utc_iso8601_order(s1: nat, s2: nat)
    requires
        s1 < s2 < 253402300800,
    ensures
        lex_lt(spec_utc_iso8601(s1), spec_utc_iso8601(s2)),
{
    let n1 = (s1 / 86400) as int;
    let n2 = (s2 / 86400) as int;
    lemma_four_digit_year(n1);
    lemma_four_digit_year(n2);
    lemma_civil_date_exists(n1);
    lemma_civil_date_exists(n2);
    let (y1, m1, d1) = civil_date_of(n1);
    let (y2, m2, d2) = civil_date_of(n2);
    let t1 = s1 % 86400;
    let t2 = s2 % 86400;
    if n1 < n2 {
        lemma_date_order(n1, n2);
    } else {
        lemma_time_of_day_order(t1, t2);
    }
    lemma_iso_is_stamp(s1);
    lemma_iso_is_stamp(s2);
    lemma_stamp_lt(y1, m1 as nat, d1 as nat, t1 / 3600, (t1 % 3600) / 60, t1 % 60, y2, m2 as nat, d2 as nat, t2 / 3600, (t2 % 3600) / 60, t2 % 60);
}
} // verus!
