//! HTTP dates (RFC 7231 §7.1.1.1): reading the three forms and writing the preferred one.

use vstd::prelude::*;
use vstd::slice::slice_subrange;

use crate::headers::{lemma_plain_concat, lemma_plain_decimal, plain, plain_char};
use crate::text::{
    chars_of, decimal, digit, find, find_text, is_text, last_position, lemma_decimal_value,
    lemma_pieces_cons, lemma_pieces_single, lemma_position_at, lemma_words_cons, lemma_words_single,
    lemma_zero_padded_value, no_white, number_of, pad_zeros, parse_number, pieces, position,
    position_of, rfind, slice_texts, split, split_words, to_decimal, trim, trimmed, white, words,
    zero_padded,
};

verus! {

// ---------------------------------------------------------------------------
// The Gregorian calendar
// ---------------------------------------------------------------------------

/// Whether the year `y` has a 29 February (proleptic Gregorian calendar).
pub open spec fn leap(y: int) -> bool {
    y % 4 == 0 && (y % 100 != 0 || y % 400 == 0)
}

/// How many days lie between the first of January of year 0 and that of year `y`.
pub open spec fn days_before_year(y: int) -> int {
    365 * y + (y + 3) / 4 - (y + 99) / 100 + (y + 399) / 400
}

/// How many days of the year lie before the first of the month `m`.
pub open spec fn days_before_month(is_leap: bool, m: int) -> int {
    let l: int = if is_leap {
        1
    } else {
        0
    };
    if m == 1 {
        0
    } else if m == 2 {
        31
    } else if m == 3 {
        59 + l
    } else if m == 4 {
        90 + l
    } else if m == 5 {
        120 + l
    } else if m == 6 {
        151 + l
    } else if m == 7 {
        181 + l
    } else if m == 8 {
        212 + l
    } else if m == 9 {
        243 + l
    } else if m == 10 {
        273 + l
    } else if m == 11 {
        304 + l
    } else if m == 12 {
        334 + l
    } else {
        365 + l
    }
}

/// How many days the month `m` of the year `y` has.
pub open spec fn month_len(y: int, m: int) -> int {
    days_before_month(leap(y), m + 1) - days_before_month(leap(y), m)
}

/// Whether the three numbers name a day of the calendar.
pub open spec fn is_date(y: int, m: int, d: int) -> bool {
    1 <= m <= 12 && 1 <= d <= month_len(y, m)
}

/// How many days lie between 1 January 1970 and the given day.
pub open spec fn day_number(y: int, m: int, d: int) -> int {
    days_before_year(y) + days_before_month(leap(y), m) + d - 1 - 719528
}

/// How many days after 1 January 1970 the given day lies; `None` for an earlier one.
pub open spec fn epoch_day(y: int, m: int, d: int) -> Option<int> {
    if day_number(y, m, d) >= 0 {
        Some(day_number(y, m, d))
    } else {
        None
    }
}

/// The day of the calendar that lies `days` days after 1 January 1970.
pub open spec fn civil(days: int) -> (int, int, int) {
    choose|y: int, m: int, d: int| #[trigger] is_date(y, m, d) && day_number(y, m, d) == days
}

pub proof fn lemma_year_step(y: int)
    ensures
        days_before_year(y + 1) == days_before_year(y) + 365 + if leap(y) {
            1int
        } else {
            0int
        },
{
}

pub proof fn lemma_years_grow(y1: int, y2: int)
    requires
        y1 <= y2,
    ensures
        days_before_year(y2) >= days_before_year(y1) + 365 * (y2 - y1),
    decreases y2 - y1,
{
    if y1 < y2 {
        lemma_years_grow(y1, y2 - 1);
        lemma_year_step(y2 - 1);
    }
}

/// Different days of the calendar have different numbers.
pub proof fn lemma_day_number_unique(y1: int, m1: int, d1: int, y2: int, m2: int, d2: int)
    requires
        is_date(y1, m1, d1),
        is_date(y2, m2, d2),
        day_number(y1, m1, d1) == day_number(y2, m2, d2),
    ensures
        y1 == y2,
        m1 == m2,
        d1 == d2,
{
    lemma_year_step(y1);
    lemma_year_step(y2);
    if y1 < y2 {
        lemma_years_grow(y1 + 1, y2);
    } else if y2 < y1 {
        lemma_years_grow(y2 + 1, y1);
    }
}

/// Rounds the quotient down.
fn floor_div(a: i128, b: i128) -> (r: i128)
    requires
        b > 0,
    ensures
        r == a as int / b as int,
{
    if a >= 0 {
        a / b
    } else {
        let q: i128 = (-1 - a) / b;
        proof {
            let x: int = -1 - a;
            assert(x / b as int == q);
            assert(a as int / b as int == -1 - x / b as int) by (nonlinear_arith)
                requires
                    x == -1 - a,
                    x >= 0,
                    b > 0,
            ;
            assert(x / b as int <= x) by (nonlinear_arith)
                requires
                    x >= 0,
                    b > 0,
            ;
        }
        -1 - q
    }
}

/// The remainder that goes with the quotient rounded down.
fn floor_rem(a: i64, b: i64) -> (r: i64)
    requires
        b > 0,
    ensures
        r == a as int % b as int,
        0 <= r < b,
{
    if a >= 0 {
        a % b
    } else {
        let q: i64 = (-1 - a) % b;
        proof {
            let x: int = -1 - a;
            let d: int = b as int;
            vstd::arithmetic::div_mod::lemma_fundamental_div_mod(x, d);
            assert(a == (-1 - x / d) * d + (d - 1 - x % d)) by (nonlinear_arith)
                requires
                    a == -1 - x,
                    x == d * (x / d) + x % d,
            ;
            vstd::arithmetic::div_mod::lemma_fundamental_div_mod_converse(
                a as int,
                d,
                -1 - x / d,
                d - 1 - x % d,
            );
        }
        b - 1 - q
    }
}

/// The days before the March of year `y`, counted in cycles of 400 years.
proof fn lemma_march_year(y: int)
    ensures
        0 <= y % 400 < 400,
        y == 400 * (y / 400) + y % 400,
        (y / 400) * 146097 + (y % 400) * 365 + (y % 400) / 4 - (y % 400) / 100 == days_before_year(
            y + 1,
        ) - 366,
{
    let e = y / 400;
    let r = y % 400;
    assert(y == 400 * e + r);
    assert(y / 4 == 100 * e + r / 4);
    assert(y / 100 == 4 * e + r / 100);
    assert((y + 1 + 3) / 4 == y / 4 + 1);
    assert((y + 1 + 99) / 100 == y / 100 + 1);
    assert((y + 1 + 399) / 400 == e + 1);
}

/// The days between the first of March and the first of the month `m`.
proof fn lemma_march_month(y: int, m: int)
    requires
        1 <= m <= 12,
    ensures
        m <= 2 ==> (153 * (m + 9) + 2) / 5 == days_before_month(leap(y), m) + 306,
        m > 2 ==> (153 * (m - 3) + 2) / 5 == days_before_month(leap(y), m) - days_before_month(
            leap(y),
            3,
        ),
{
}

/// Days from 1 January 1970 to the given date; `None` for an earlier one.
///
/// A day past the end of the month counts on into the following months.
pub fn days_since_epoch(year: i64, month: i64, day: i64) -> (r: Option<i64>)
    requires
        1 <= month <= 12,
        day_number(year as int, month as int, day as int) <= i64::MAX,
    ensures
        epoch_day(year as int, month as int, day as int) == match r {
            Some(n) => Some(n as int),
            None => None,
        },
{
    // The year starts in March here, so that a leap day is the last of its year.
    let m: i128 = if month <= 2 {
        month as i128 + 9
    } else {
        month as i128 - 3
    };
    let y: i128 = if month <= 2 {
        year as i128 - 1
    } else {
        year as i128
    };
    let era: i128 = floor_div(y, 400);
    let yoe: i128 = y - era * 400;
    proof {
        lemma_march_year(y as int);
        lemma_march_month(year as int, month as int);
        lemma_year_step(y as int);
    }
    let doy: i128 = (153 * m + 2) / 5 + day as i128 - 1;
    let doe: i128 = yoe * 365 + yoe / 4 - yoe / 100 + doy;
    let result: i128 = era * 146097 + doe - 719468;
    if result < 0 {
        None
    } else {
        Some(result as i64)
    }
}

/// The year within a cycle of 400 that starts in March, from the day within the cycle.
proof fn lemma_year_of_era(doe: u32)
    by (bit_vector)
    requires
        doe <= 146096,
    ensures
        ({
            let yoe: u32 = ((doe - doe / 1460 + doe / 36524 - doe / 146096) as u32) / 365;
            let start: u32 = (365 * yoe + yoe / 4 - yoe / 100) as u32;
            &&& yoe <= 399
            &&& start <= doe
            &&& doe - start <= 365
            &&& (doe - start == 365 ==> (yoe + 1) % 4 == 0 && ((yoe + 1) % 100 != 0 || yoe == 399))
        }),
{
}

/// The month that the day `doy` of a year that starts in March lies in.
proof fn lemma_month_of_year(doy: u32)
    by (bit_vector)
    requires
        doy <= 365,
    ensures
        ({
            let mp: u32 = ((5 * doy + 2) as u32) / 153;
            &&& mp <= 11
            &&& ((153 * mp + 2) as u32) / 5 <= doy
            &&& (mp < 11 ==> doy < ((153 * (mp + 1) + 2) as u32) / 5)
        }),
{
}

/// `lemma_year_of_era` over the integers.
proof fn lemma_year_of_era_int(doe: int)
    requires
        0 <= doe <= 146096,
    ensures
        ({
            let yoe = (doe - doe / 1460 + doe / 36524 - doe / 146096) / 365;
            let start = 365 * yoe + yoe / 4 - yoe / 100;
            &&& 0 <= yoe <= 399
            &&& start <= doe <= start + 365
            &&& (doe - start == 365 ==> leap(yoe + 1))
        }),
{
    lemma_year_of_era(doe as u32);
}

/// `lemma_month_of_year` over the integers.
proof fn lemma_month_of_year_int(doy: int)
    requires
        0 <= doy <= 365,
    ensures
        ({
            let mp = (5 * doy + 2) / 153;
            &&& 0 <= mp <= 11
            &&& (153 * mp + 2) / 5 <= doy
            &&& (mp < 11 ==> doy < (153 * (mp + 1) + 2) / 5)
        }),
{
    lemma_month_of_year(doy as u32);
}

/// A date taken apart into cycle, year of the cycle, month and day of the year.
proof fn lemma_civil_parts(era: int, yoe: int, doy: int, mp: int)
    requires
        0 <= yoe <= 399,
        0 <= mp <= 11,
        (153 * mp + 2) / 5 <= doy <= 365,
        mp < 11 ==> doy < (153 * (mp + 1) + 2) / 5,
        doy == 365 ==> leap(yoe + 1),
    ensures
        ({
            let y = yoe + era * 400;
            let d = doy - (153 * mp + 2) / 5 + 1;
            let m = if mp < 10 {
                mp + 3
            } else {
                mp - 9
            };
            let year = if m <= 2 {
                y + 1
            } else {
                y
            };
            &&& is_date(year, m, d)
            &&& day_number(year, m, d) == era * 146097 + 365 * yoe + yoe / 4 - yoe / 100 + doy
                - 719468
        }),
{
    let y = yoe + era * 400;
    let m = if mp < 10 {
        mp + 3
    } else {
        mp - 9
    };
    assert(y / 400 == era);
    assert(y % 400 == yoe);
    assert(leap(y + 1) == leap(yoe + 1));
    lemma_march_date(y, mp, doy);
    lemma_march_year(y);
    lemma_year_step(y);
    lemma_march_month(y, m);
    lemma_march_month(y + 1, m);
}

/// The date that lies `days` days after 1 January 1970, as year, month and day.
pub fn unix_days_to_civil(days: i64) -> (r: (i64, i64, i64))
    ensures
        is_date(r.0 as int, r.1 as int, r.2 as int),
        day_number(r.0 as int, r.1 as int, r.2 as int) == days,
        (r.0 as int, r.1 as int, r.2 as int) == civil(days as int),
{
    let z: i128 = days as i128 + 719468;
    let era: i128 = floor_div(z, 146097);
    let doe: i128 = z - era * 146097;
    proof {
        lemma_year_of_era_int(doe as int);
    }
    let yoe: i128 = (doe - doe / 1460 + doe / 36524 - doe / 146096) / 365;
    let y: i128 = yoe + era * 400;
    let doy: i128 = doe - (365 * yoe + yoe / 4 - yoe / 100);
    proof {
        lemma_month_of_year_int(doy as int);
    }
    let mp: i128 = (5 * doy + 2) / 153;
    let d: i128 = doy - (153 * mp + 2) / 5 + 1;
    let m: i128 = if mp < 10 {
        mp + 3
    } else {
        mp - 9
    };
    let year: i128 = if m <= 2 {
        y + 1
    } else {
        y
    };
    proof {
        lemma_civil_parts(era as int, yoe as int, doy as int, mp as int);
        lemma_civil(days as int, year as int, m as int, d as int);
    }
    (year as i64, m as i64, d as i64)
}

/// The day of the calendar with the number `days` is the one that `civil` gives.
pub proof fn lemma_civil(days: int, y: int, m: int, d: int)
    requires
        is_date(y, m, d),
        day_number(y, m, d) == days,
    ensures
        civil(days) == (y, m, d),
{
    let c = civil(days);
    assert(is_date(y, m, d) && day_number(y, m, d) == days);
    lemma_day_number_unique(c.0, c.1, c.2, y, m, d);
}

/// A day within a month of a year that starts in March is a day of the calendar.
proof fn lemma_march_date(y: int, mp: int, doy: int)
    requires
        0 <= mp <= 11,
        (153 * mp + 2) / 5 <= doy <= 365,
        mp < 11 ==> doy < (153 * (mp + 1) + 2) / 5,
        doy == 365 ==> leap(y + 1),
    ensures
        mp < 10 ==> is_date(y, mp + 3, doy - (153 * mp + 2) / 5 + 1),
        mp >= 10 ==> is_date(y + 1, mp - 9, doy - (153 * mp + 2) / 5 + 1),
{
}

// ---------------------------------------------------------------------------
// Reading
// ---------------------------------------------------------------------------

/// The number of a month from the first three letters of its name.
pub open spec fn month_number(s: Seq<char>) -> Option<nat> {
    if s == "Jan"@ {
        Some(1)
    } else if s == "Feb"@ {
        Some(2)
    } else if s == "Mar"@ {
        Some(3)
    } else if s == "Apr"@ {
        Some(4)
    } else if s == "May"@ {
        Some(5)
    } else if s == "Jun"@ {
        Some(6)
    } else if s == "Jul"@ {
        Some(7)
    } else if s == "Aug"@ {
        Some(8)
    } else if s == "Sep"@ {
        Some(9)
    } else if s == "Oct"@ {
        Some(10)
    } else if s == "Nov"@ {
        Some(11)
    } else if s == "Dec"@ {
        Some(12)
    } else {
        None
    }
}

/// Seconds from the start of 1970 to the given time, where the fields are in range.
///
/// The month is one of the twelve, the day is at most 31 and the year at least 1970; a day past
/// the end of its month counts on into the next. The time of day is taken as it is given.
pub open spec fn unix_time(
    year: nat,
    month: nat,
    day: nat,
    hour: nat,
    min: nat,
    sec: nat,
) -> Option<nat> {
    if 1 <= month <= 12 && 1 <= day <= 31 && year >= 1970 {
        Some(
            (day_number(year as int, month as int, day as int) * 86400 + hour * 3600 + min * 60
                + sec) as nat,
        )
    } else {
        None
    }
}

/// A number of a date or a time: a numeral that fits 32 bits.
pub open spec fn field(s: Seq<char>) -> Option<nat> {
    number_of(s, u32::MAX as nat)
}

/// The three numbers of a time of day, `08:49:37`.
pub open spec fn clock(s: Seq<char>) -> Option<(nat, nat, nat)> {
    let p = pieces(s, ':');
    if p.len() != 3 {
        None
    } else {
        match (field(p[0]), field(p[1]), field(p[2])) {
            (Some(h), Some(m), Some(s)) => Some((h, m, s)),
            _ => None,
        }
    }
}

/// The time that a date in words names, from its parts.
pub open spec fn time_from(
    year: Option<nat>,
    month: Option<nat>,
    day: Option<nat>,
    time: Option<(nat, nat, nat)>,
) -> Option<nat> {
    match (year, month, day, time) {
        (Some(y), Some(m), Some(d), Some(t)) => unix_time(y, m, d, t.0, t.1, t.2),
        _ => None,
    }
}

/// The time that an IMF-fixdate names: `Sun, 06 Nov 1994 08:49:37 GMT`.
pub open spec fn imf_fixdate(s: Seq<char>) -> Option<nat> {
    match position_of(s, ", "@) {
        None => None,
        Some(i) => {
            let w = words(s.skip(i as int + 2));
            if w.len() != 5 || w[4] != "GMT"@ {
                None
            } else {
                time_from(field(w[2]), month_number(w[1]), field(w[0]), clock(w[3]))
            }
        },
    }
}

/// The year that a short year stands for: 00 to 69 are 2000 to 2069, the rest counts from 1900.
pub open spec fn full_year(yy: nat) -> Option<nat> {
    if yy < 70 {
        Some(2000 + yy)
    } else if yy + 1900 <= u32::MAX {
        Some(1900 + yy)
    } else {
        None
    }
}

/// The time that an RFC 850 date names: `Sunday, 06-Nov-94 08:49:37 GMT`.
pub open spec fn rfc850_date(s: Seq<char>) -> Option<nat> {
    match position_of(s, ", "@) {
        None => None,
        Some(i) => {
            let rest = s.skip(i as int + 2);
            match position(rest, ' ') {
                None => None,
                Some(j) => {
                    let d = pieces(rest.take(j as int), '-');
                    let t = rest.skip(j as int + 1);
                    match last_position(t, ' ') {
                        None => None,
                        Some(k) => if d.len() != 3 || t.skip(k as int + 1) != "GMT"@ {
                            None
                        } else {
                            match field(d[2]) {
                                None => None,
                                Some(yy) => time_from(
                                    full_year(yy),
                                    month_number(d[1]),
                                    field(d[0]),
                                    clock(t.take(k as int)),
                                ),
                            }
                        },
                    }
                },
            }
        },
    }
}

/// The time that a date in the form of C's `asctime` names: `Sun Nov  6 08:49:37 1994`.
pub open spec fn asctime_date(s: Seq<char>) -> Option<nat> {
    let w = words(s);
    if w.len() != 5 {
        None
    } else {
        time_from(field(w[4]), month_number(w[1]), field(w[2]), clock(w[3]))
    }
}

/// The time that an HTTP date names: the first of the three forms that the text has.
pub open spec fn http_date(s: Seq<char>) -> Option<nat> {
    let t = trimmed(s);
    if imf_fixdate(t) is Some {
        imf_fixdate(t)
    } else if rfc850_date(t) is Some {
        rfc850_date(t)
    } else {
        asctime_date(t)
    }
}

/// A machine number as a number.
pub open spec fn as_nat(r: Option<u64>) -> Option<nat> {
    match r {
        Some(v) => Some(v as nat),
        None => None,
    }
}

/// The number of a month from the first three letters of its name.
pub fn parse_month(s: &[char]) -> (r: Option<u32>)
    ensures
        month_number(s@) == match r {
            Some(v) => Some(v as nat),
            None => None,
        },
        r matches Some(v) ==> 1 <= v <= 12,
{
    if is_text(s, "Jan") {
        Some(1)
    } else if is_text(s, "Feb") {
        Some(2)
    } else if is_text(s, "Mar") {
        Some(3)
    } else if is_text(s, "Apr") {
        Some(4)
    } else if is_text(s, "May") {
        Some(5)
    } else if is_text(s, "Jun") {
        Some(6)
    } else if is_text(s, "Jul") {
        Some(7)
    } else if is_text(s, "Aug") {
        Some(8)
    } else if is_text(s, "Sep") {
        Some(9)
    } else if is_text(s, "Oct") {
        Some(10)
    } else if is_text(s, "Nov") {
        Some(11)
    } else if is_text(s, "Dec") {
        Some(12)
    } else {
        None
    }
}

/// Converts a date and a time of day to seconds since the start of 1970.
pub fn date_to_unix(year: u32, month: u32, day: u32, hour: u32, min: u32, sec: u32) -> (r: Option<
    u64,
>)
    ensures
        as_nat(r) == unix_time(
            year as nat,
            month as nat,
            day as nat,
            hour as nat,
            min as nat,
            sec as nat,
        ),
{
    if !(1 <= month && month <= 12) || !(1 <= day && day <= 31) || year < 1970 {
        return None;
    }
    proof {
        lemma_years_grow(1970, year as int);
        lemma_years_bound(year as int);
    }
    match days_since_epoch(year as i64, month as i64, day as i64) {
        None => None,
        Some(days) => Some(
            days as u64 * 86400 + hour as u64 * 3600 + min as u64 * 60 + sec as u64,
        ),
    }
}

proof fn lemma_years_bound(y: int)
    requires
        0 <= y,
    ensures
        days_before_year(y) <= 366 * y + 2,
{
}

/// Reads a number of a date or a time.
fn parse_field(s: &[char]) -> (r: Option<u32>)
    ensures
        field(s@) == match r {
            Some(v) => Some(v as nat),
            None => None,
        },
{
    match parse_number(s, u32::MAX as u64) {
        Some(v) => Some(v as u32),
        None => None,
    }
}

/// Reads a time of day.
fn parse_clock(s: &[char]) -> (r: Option<(u32, u32, u32)>)
    ensures
        clock(s@) == match r {
            Some(t) => Some((t.0 as nat, t.1 as nat, t.2 as nat)),
            None => None,
        },
{
    let t = split(s, ':');
    assert(slice_texts(t@).len() == t@.len());
    if t.len() != 3 {
        return None;
    }
    assert(slice_texts(t@)[0] == t@[0]@);
    assert(slice_texts(t@)[1] == t@[1]@);
    assert(slice_texts(t@)[2] == t@[2]@);
    match (parse_field(t[0]), parse_field(t[1]), parse_field(t[2])) {
        (Some(h), Some(m), Some(s)) => Some((h, m, s)),
        _ => None,
    }
}

/// The time that a date in words names, from its parts.
fn combine(
    year: Option<u32>,
    month: Option<u32>,
    day: Option<u32>,
    time: Option<(u32, u32, u32)>,
) -> (r: Option<u64>)
    ensures
        as_nat(r) == time_from(
            match year {
                Some(v) => Some(v as nat),
                None => None,
            },
            match month {
                Some(v) => Some(v as nat),
                None => None,
            },
            match day {
                Some(v) => Some(v as nat),
                None => None,
            },
            match time {
                Some(t) => Some((t.0 as nat, t.1 as nat, t.2 as nat)),
                None => None,
            },
        ),
{
    match (year, month, day, time) {
        (Some(y), Some(m), Some(d), Some(t)) => date_to_unix(y, m, d, t.0, t.1, t.2),
        _ => None,
    }
}

/// Reads an IMF-fixdate: `Sun, 06 Nov 1994 08:49:37 GMT`.
pub fn parse_imf_fixdate(s: &[char]) -> (r: Option<u64>)
    ensures
        as_nat(r) == imf_fixdate(s@),
{
    proof {
        reveal_strlit(", ");
    }
    match find_text(s, ", ") {
        None => None,
        Some(i) => {
            let n: usize = s.len();
            let rest = slice_subrange(s, i + 2, n);
            assert(rest@ == s@.skip(i + 2));
            let parts = split_words(rest);
            assert(slice_texts(parts@).len() == parts@.len());
            if parts.len() != 5 {
                return None;
            }
            assert(forall|j: int| 0 <= j < 5 ==> slice_texts(parts@)[j] == (#[trigger] parts@[j])@);
            if !is_text(parts[4], "GMT") {
                return None;
            }
            combine(
                parse_field(parts[2]),
                parse_month(parts[1]),
                parse_field(parts[0]),
                parse_clock(parts[3]),
            )
        },
    }
}

/// Reads an RFC 850 date: `Sunday, 06-Nov-94 08:49:37 GMT`.
pub fn parse_rfc850_date(s: &[char]) -> (r: Option<u64>)
    ensures
        as_nat(r) == rfc850_date(s@),
{
    proof {
        reveal_strlit(", ");
    }
    let n: usize = s.len();
    let rest = match find_text(s, ", ") {
        None => return None,
        Some(i) => {
            let rest = slice_subrange(s, i + 2, n);
            assert(rest@ == s@.skip(i + 2));
            rest
        },
    };
    let m: usize = rest.len();
    let (date_part, time_tz) = match find(rest, ' ') {
        None => return None,
        Some(j) => {
            let date_part = slice_subrange(rest, 0, j);
            let time_tz = slice_subrange(rest, j + 1, m);
            assert(date_part@ == rest@.take(j as int));
            assert(time_tz@ == rest@.skip(j + 1));
            (date_part, time_tz)
        },
    };
    let k: usize = time_tz.len();
    let (time_part, tz) = match rfind(time_tz, ' ') {
        None => return None,
        Some(j) => {
            let time_part = slice_subrange(time_tz, 0, j);
            let tz = slice_subrange(time_tz, j + 1, k);
            assert(time_part@ == time_tz@.take(j as int));
            assert(tz@ == time_tz@.skip(j + 1));
            (time_part, tz)
        },
    };
    let d = split(date_part, '-');
    assert(slice_texts(d@).len() == d@.len());
    if d.len() != 3 || !is_text(tz, "GMT") {
        return None;
    }
    assert(forall|j: int| 0 <= j < 3 ==> slice_texts(d@)[j] == (#[trigger] d@[j])@);
    match parse_field(d[2]) {
        None => None,
        Some(yy) => {
            let year: Option<u32> = if yy < 70 {
                Some(2000 + yy)
            } else {
                yy.checked_add(1900)
            };
            combine(year, parse_month(d[1]), parse_field(d[0]), parse_clock(time_part))
        },
    }
}

/// Reads a date in the form of C's `asctime`: `Sun Nov  6 08:49:37 1994`.
pub fn parse_asctime(s: &[char]) -> (r: Option<u64>)
    ensures
        as_nat(r) == asctime_date(s@),
{
    let parts = split_words(s);
    assert(slice_texts(parts@).len() == parts@.len());
    if parts.len() != 5 {
        return None;
    }
    assert(forall|j: int| 0 <= j < 5 ==> slice_texts(parts@)[j] == (#[trigger] parts@[j])@);
    combine(
        parse_field(parts[4]),
        parse_month(parts[1]),
        parse_field(parts[2]),
        parse_clock(parts[3]),
    )
}

/// Reads an HTTP date in any of its three forms, as seconds since the start of 1970.
pub fn parse_http_date(s: &str) -> (r: Option<u64>)
    ensures
        as_nat(r) == http_date(s@),
{
    let chars = chars_of(s);
    let t = trim(chars.as_slice());
    let imf = parse_imf_fixdate(t);
    if imf.is_some() {
        return imf;
    }
    let rfc850 = parse_rfc850_date(t);
    if rfc850.is_some() {
        return rfc850;
    }
    parse_asctime(t)
}

// ---------------------------------------------------------------------------
// Writing
// ---------------------------------------------------------------------------

/// The first three letters of the name of a day, where the week starts on Sunday.
pub open spec fn weekday_name(dow: int) -> Seq<char> {
    if dow == 0 {
        "Sun"@
    } else if dow == 1 {
        "Mon"@
    } else if dow == 2 {
        "Tue"@
    } else if dow == 3 {
        "Wed"@
    } else if dow == 4 {
        "Thu"@
    } else if dow == 5 {
        "Fri"@
    } else {
        "Sat"@
    }
}

/// The first three letters of the name of a month.
pub open spec fn month_name(m: int) -> Seq<char> {
    if m == 1 {
        "Jan"@
    } else if m == 2 {
        "Feb"@
    } else if m == 3 {
        "Mar"@
    } else if m == 4 {
        "Apr"@
    } else if m == 5 {
        "May"@
    } else if m == 6 {
        "Jun"@
    } else if m == 7 {
        "Jul"@
    } else if m == 8 {
        "Aug"@
    } else if m == 9 {
        "Sep"@
    } else if m == 10 {
        "Oct"@
    } else if m == 11 {
        "Nov"@
    } else {
        "Dec"@
    }
}

/// A number with at least two digits.
pub open spec fn two_digits(n: nat) -> Seq<char> {
    zero_padded(decimal(n), 2)
}

/// A year with at least four characters, the sign of a negative one among them.
pub open spec fn year_text(y: int) -> Seq<char> {
    if y >= 0 {
        zero_padded(decimal(y as nat), 4)
    } else {
        seq!['-'] + zero_padded(decimal((-y) as nat), 3)
    }
}

/// A time of day, `08:49:37`.
pub open spec fn clock_text(h: nat, m: nat, s: nat) -> Seq<char> {
    two_digits(h) + seq![':'] + (two_digits(m) + seq![':'] + two_digits(s))
}

/// The seconds that the bits of a 64-bit counter stand for as a signed number.
pub open spec fn signed(secs: u64) -> int {
    if secs <= i64::MAX {
        secs as int
    } else {
        secs - 0x1_0000_0000_0000_0000
    }
}

/// An IMF-fixdate: `Sun, 06 Nov 1994 08:49:37 GMT`.
pub open spec fn imf_text(
    weekday: Seq<char>,
    day: nat,
    month: int,
    year: int,
    clock: Seq<char>,
) -> Seq<char> {
    weekday + ", "@ + (two_digits(day) + seq![' '] + (month_name(month) + seq![' '] + (year_text(
        year,
    ) + seq![' '] + (clock + seq![' '] + "GMT"@))))
}

/// The IMF-fixdate of a time.
pub open spec fn http_date_text(secs: u64) -> Seq<char> {
    let t = signed(secs);
    let days = t / 86400;
    let time = (t % 86400) as nat;
    let c = civil(days);
    imf_text(
        weekday_name((days + 4) % 7),
        c.2 as nat,
        c.1,
        c.0,
        clock_text(time / 3600, time % 3600 / 60, time % 60),
    )
}

/// Appends a number with at least two digits.
fn push_two_digits(out: &mut String, n: u64)
    ensures
        final(out)@ == old(out)@ + two_digits(n as nat),
{
    let t = pad_zeros(to_decimal(n), 2);
    out.append(t.as_str());
}

/// Appends a year with at least four characters.
fn push_year(out: &mut String, year: i64)
    requires
        year > i64::MIN,
    ensures
        final(out)@ == old(out)@ + year_text(year as int),
{
    if year >= 0 {
        let t = pad_zeros(to_decimal(year as u64), 4);
        out.append(t.as_str());
    } else {
        out.push('-');
        let t = pad_zeros(to_decimal((-year) as u64), 3);
        out.append(t.as_str());
        assert(old(out)@.push('-') + t@ =~= old(out)@ + (seq!['-'] + t@));
    }
}

fn weekday(dow: i64) -> (r: &'static str)
    requires
        0 <= dow < 7,
    ensures
        r@ == weekday_name(dow as int),
{
    if dow == 0 {
        "Sun"
    } else if dow == 1 {
        "Mon"
    } else if dow == 2 {
        "Tue"
    } else if dow == 3 {
        "Wed"
    } else if dow == 4 {
        "Thu"
    } else if dow == 5 {
        "Fri"
    } else {
        "Sat"
    }
}

fn month_text(m: i64) -> (r: &'static str)
    requires
        1 <= m <= 12,
    ensures
        r@ == month_name(m as int),
{
    if m == 1 {
        "Jan"
    } else if m == 2 {
        "Feb"
    } else if m == 3 {
        "Mar"
    } else if m == 4 {
        "Apr"
    } else if m == 5 {
        "May"
    } else if m == 6 {
        "Jun"
    } else if m == 7 {
        "Jul"
    } else if m == 8 {
        "Aug"
    } else if m == 9 {
        "Sep"
    } else if m == 10 {
        "Oct"
    } else if m == 11 {
        "Nov"
    } else {
        "Dec"
    }
}

/// Writes seconds since the start of 1970 as an IMF-fixdate.
///
/// Example: `Sun, 06 Nov 1994 08:49:37 GMT`.
pub fn format_http_date(secs: u64) -> (r: String)
    ensures
        r@ == http_date_text(secs),
{
    let t: i64 = if secs <= i64::MAX as u64 {
        secs as i64
    } else {
        (secs - 0x8000_0000_0000_0000u64) as i64 + i64::MIN
    };
    assert(t == signed(secs));
    let days: i64 = floor_div(t as i128, 86400) as i64;
    let time: i64 = floor_rem(t, 86400);
    let dow: i64 = floor_rem(days + 4, 7);
    let (year, month, day): (i64, i64, i64) = unix_days_to_civil(days);
    proof {
        lemma_year_range(days as int, year as int, month as int, day as int);
    }
    let mut out = String::new();
    out.append(weekday(dow));
    out.append(", ");
    let time: u64 = time as u64;
    push_date(&mut out, year, month, day, time / 3600, time % 3600 / 60, time % 60);
    out
}

/// Appends what follows the day of the week.
fn push_date(out: &mut String, year: i64, month: i64, day: i64, hour: u64, min: u64, sec: u64)
    requires
        1 <= month <= 12,
        day >= 0,
        year > i64::MIN,
    ensures
        final(out)@ == old(out)@ + (two_digits(day as nat) + seq![' '] + (month_name(month as int)
            + seq![' '] + (year_text(year as int) + seq![' '] + (clock_text(
            hour as nat,
            min as nat,
            sec as nat,
        ) + seq![' '] + "GMT"@)))),
{
    let ghost o = old(out)@;
    let ghost clock = clock_text(hour as nat, min as nat, sec as nat);
    let ghost t3 = clock + seq![' '] + "GMT"@;
    let ghost t2 = year_text(year as int) + seq![' '] + t3;
    let ghost t1 = month_name(month as int) + seq![' '] + t2;
    push_two_digits(out, day as u64);
    out.push(' ');
    let ghost o1 = out@;
    out.append(month_text(month));
    out.push(' ');
    let ghost o2 = out@;
    push_year(out, year);
    out.push(' ');
    let ghost o3 = out@;
    push_clock(out, hour, min, sec);
    out.push(' ');
    out.append("GMT");
    proof {
        lemma_append(o3, clock, "GMT"@);
        lemma_append(o2, year_text(year as int), t3);
        lemma_append(o1, month_name(month as int), t2);
        lemma_append(o, two_digits(day as nat), t1);
    }
}

/// Appends a time of day.
fn push_clock(out: &mut String, hour: u64, min: u64, sec: u64)
    ensures
        final(out)@ == old(out)@ + clock_text(hour as nat, min as nat, sec as nat),
{
    push_two_digits(out, hour);
    out.push(':');
    push_two_digits(out, min);
    out.push(':');
    push_two_digits(out, sec);
    assert(out@ =~= old(out)@ + clock_text(hour as nat, min as nat, sec as nat));
}

/// A text with a word, a space and the rest appended in turn.
proof fn lemma_append(o: Seq<char>, word: Seq<char>, rest: Seq<char>)
    ensures
        (o + word).push(' ') + rest == o + (word + seq![' '] + rest),
{
    assert((o + word).push(' ') + rest =~= o + (word + seq![' '] + rest));
}

/// The year of a day lies within the days.
proof fn lemma_year_range(days: int, y: int, m: int, d: int)
    requires
        is_date(y, m, d),
        day_number(y, m, d) == days,
    ensures
        y < 0 ==> days <= 365 * y,
        y >= 1970 ==> days >= 365 * (y - 1970),
{
    lemma_year_step(y);
    if y < 0 {
        lemma_years_grow(y, 0);
    } else if y >= 1970 {
        lemma_years_grow(1970, y);
    }
}

// ---------------------------------------------------------------------------
// Reading what was written
// ---------------------------------------------------------------------------

/// A padded numeral is a field that reads as its number.
proof fn lemma_field_padded(n: nat, width: nat)
    requires
        n <= u32::MAX,
    ensures
        field(zero_padded(decimal(n), width)) == Some(n),
        no_white(zero_padded(decimal(n), width)),
        zero_padded(decimal(n), width).len() > 0,
        !zero_padded(decimal(n), width).contains(':'),
{
    let t = zero_padded(decimal(n), width);
    lemma_decimal_value(n);
    lemma_zero_padded_value(decimal(n), width);
    assert(forall|i: int| 0 <= i < t.len() ==> digit(#[trigger] t[i]));
    assert(digit(t[0]));
}

/// A month's name reads as its number.
pub proof fn lemma_month_name(m: int)
    requires
        1 <= m <= 12,
    ensures
        month_number(month_name(m)) == Some(m as nat),
        no_white(month_name(m)),
        month_name(m).len() == 3,
{
    reveal_strlit("Jan");
    reveal_strlit("Feb");
    reveal_strlit("Mar");
    reveal_strlit("Apr");
    reveal_strlit("May");
    reveal_strlit("Jun");
    reveal_strlit("Jul");
    reveal_strlit("Aug");
    reveal_strlit("Sep");
    reveal_strlit("Oct");
    reveal_strlit("Nov");
    reveal_strlit("Dec");
    let s = month_name(m);
    let k = |x: Seq<char>| (x[0], x[1], x[2]);
    assert(k("Jan"@) == ('J', 'a', 'n'));
    assert(k("Feb"@) == ('F', 'e', 'b'));
    assert(k("Mar"@) == ('M', 'a', 'r'));
    assert(k("Apr"@) == ('A', 'p', 'r'));
    assert(k("May"@) == ('M', 'a', 'y'));
    assert(k("Jun"@) == ('J', 'u', 'n'));
    assert(k("Jul"@) == ('J', 'u', 'l'));
    assert(k("Aug"@) == ('A', 'u', 'g'));
    assert(k("Sep"@) == ('S', 'e', 'p'));
    assert(k("Oct"@) == ('O', 'c', 't'));
    assert(k("Nov"@) == ('N', 'o', 'v'));
    assert(k("Dec"@) == ('D', 'e', 'c'));
    assert(k(s) == k(s));
    assert(forall|i: int| 0 <= i < 3 ==> !white(#[trigger] s[i]));
}

/// A time of day reads as its numbers.
proof fn lemma_clock_text(h: nat, m: nat, s: nat)
    requires
        h <= u32::MAX,
        m <= u32::MAX,
        s <= u32::MAX,
    ensures
        clock(clock_text(h, m, s)) == Some((h, m, s)),
        no_white(clock_text(h, m, s)),
        clock_text(h, m, s).len() > 0,
        !clock_text(h, m, s).contains(','),
{
    lemma_digits_only(h, 2, ',');
    lemma_digits_only(m, 2, ',');
    lemma_digits_only(s, 2, ',');
    lemma_field_padded(h, 2);
    lemma_field_padded(m, 2);
    lemma_field_padded(s, 2);
    lemma_pieces_cons(two_digits(m), ':', two_digits(s));
    lemma_pieces_cons(two_digits(h), ':', two_digits(m) + seq![':'] + two_digits(s));
    lemma_pieces_single(two_digits(s), ':');
    assert(pieces(clock_text(h, m, s), ':') =~= seq![
        two_digits(h),
        two_digits(m),
        two_digits(s),
    ]);
}

/// The name of a day has no comma, no white space and three letters.
proof fn lemma_weekday_name(dow: int)
    ensures
        weekday_name(dow).len() == 3,
        no_white(weekday_name(dow)),
        !weekday_name(dow).contains(','),
{
    reveal_strlit("Sun");
    reveal_strlit("Mon");
    reveal_strlit("Tue");
    reveal_strlit("Wed");
    reveal_strlit("Thu");
    reveal_strlit("Fri");
    reveal_strlit("Sat");
    let s = weekday_name(dow);
    assert(forall|i: int| 0 <= i < 3 ==> !white(#[trigger] s[i]) && s[i] != ',');
}

/// The first comma and space come after a prefix without a comma.
pub proof fn lemma_position_of_comma(w: Seq<char>, rest: Seq<char>)
    requires
        !w.contains(','),
    ensures
        position_of(w + ", "@ + rest, ", "@) == Some(w.len()),
    decreases w.len(),
{
    reveal_strlit(", ");
    let s = w + ", "@ + rest;
    if w.len() == 0 {
        assert(s.take(2) =~= ", "@);
    } else {
        assert(w.contains(w[0]));
        assert(s[0] == w[0]);
        assert(s.take(2)[0] == s[0]);
        assert(", "@[0] == ',');
        assert(s.take(2) != ", "@);
        assert(s.skip(1) =~= w.skip(1) + ", "@ + rest);
        assert(!w.skip(1).contains(',')) by {
            assert(forall|j: int| 0 <= j < w.len() - 1 ==> w.skip(1)[j] == w[j + 1] && w.contains(w[j + 1]));
        }
        lemma_position_of_comma(w.skip(1), rest);
    }
}

/// The parts of a written date are the ones that are read.
proof fn lemma_imf_parts(wd: Seq<char>, dd: Seq<char>, mm: Seq<char>, yy: Seq<char>, ck: Seq<char>)
    requires
        wd.len() > 0,
        no_white(wd),
        !wd.contains(','),
        no_white(dd),
        dd.len() > 0,
        no_white(mm),
        mm.len() > 0,
        no_white(yy),
        yy.len() > 0,
        no_white(ck),
        ck.len() > 0,
    ensures
        ({
            let text = wd + ", "@ + (dd + seq![' '] + (mm + seq![' '] + (yy + seq![' '] + (ck
                + seq![' '] + "GMT"@))));
            &&& trimmed(text) == text
            &&& imf_fixdate(text) == time_from(field(yy), month_number(mm), field(dd), clock(ck))
        }),
{
    let rest3 = ck + seq![' '] + "GMT"@;
    let rest2 = yy + seq![' '] + rest3;
    let rest1 = mm + seq![' '] + rest2;
    let rest = dd + seq![' '] + rest1;
    let text = wd + ", "@ + rest;
    lemma_position_of_comma(wd, rest);
    reveal_strlit(", ");
    reveal_strlit("GMT");
    assert(text.skip(wd.len() as int + 2) =~= rest);
    assert(no_white("GMT"@)) by {
        assert(forall|i: int| 0 <= i < 3 ==> !white(#[trigger] "GMT"@[i]));
    }
    lemma_words_single("GMT"@);
    lemma_words_cons(ck, "GMT"@);
    lemma_words_cons(yy, rest3);
    lemma_words_cons(mm, rest2);
    lemma_words_cons(dd, rest1);
    assert(words(rest) =~= seq![dd, mm, yy, ck, "GMT"@]);
    assert(text[0] == wd[0]);
    assert(!white(wd[0]));
    assert(text.last() == "GMT"@[2]);
    assert(trimmed(text) == text);
}

/// The parts of a time of day add up to it again.
proof fn lemma_time_adds_up(days: int, y: int, m: int, d: int, time: nat)
    requires
        is_date(y, m, d),
        day_number(y, m, d) == days,
        days >= 0,
        y >= 1970,
        d <= 31,
    ensures
        unix_time(
            y as nat,
            m as nat,
            d as nat,
            time / 3600,
            time % 3600 / 60,
            time % 60,
        ) == Some((days * 86400 + time) as nat),
{
    assert(time == time / 3600 * 3600 + time % 3600 / 60 * 60 + time % 60);
}

/// Every time up to the end of the year 4294967295 is read back from the date that is written
/// for it.
pub proof fn law_date_roundtrip(secs: u64)
    requires
        secs < day_number(4294967296, 1, 1) * 86400,
    ensures
        http_date(http_date_text(secs)) == Some(secs as nat),
{
    let t = signed(secs);
    let days = t / 86400;
    let time = (t % 86400) as nat;
    let c = civil(days);
    assert(t == secs && days * 86400 + time == secs && 0 <= days < day_number(4294967296, 1, 1));
    lemma_civil_exists(days);
    lemma_civil_year(days, c.0, c.1, c.2);
    lemma_time_adds_up(days, c.0, c.1, c.2, time);
    lemma_written_date(days, time, c.0, c.1, c.2);
}

/// What is read from a written date.
proof fn lemma_written_date(days: int, time: nat, y: int, m: int, d: int)
    requires
        time < 86400,
        1970 <= y <= u32::MAX,
        1 <= m <= 12,
        1 <= d <= 31,
    ensures
        ({
            let text = imf_text(
                weekday_name((days + 4) % 7),
                d as nat,
                m,
                y,
                clock_text(time / 3600, time % 3600 / 60, time % 60),
            );
            &&& trimmed(text) == text
            &&& imf_fixdate(text) == unix_time(
                y as nat,
                m as nat,
                d as nat,
                time / 3600,
                time % 3600 / 60,
                time % 60,
            )
        }),
{
    lemma_weekday_name((days + 4) % 7);
    lemma_field_padded(d as nat, 2);
    lemma_field_padded(y as nat, 4);
    lemma_month_name(m);
    lemma_clock_text(time / 3600, time % 3600 / 60, time % 60);
    lemma_imf_parts(
        weekday_name((days + 4) % 7),
        two_digits(d as nat),
        month_name(m),
        year_text(y),
        clock_text(time / 3600, time % 3600 / 60, time % 60),
    );
}

/// An RFC 850 date: `Sunday, 06-Nov-94 08:49:37 GMT`.
pub open spec fn rfc850_text(
    weekday: Seq<char>,
    day: nat,
    month: int,
    yy: nat,
    clock: Seq<char>,
) -> Seq<char> {
    weekday + ", "@ + (two_digits(day) + seq!['-'] + (month_name(month) + seq!['-'] + two_digits(
        yy,
    )) + seq![' '] + (clock + seq![' '] + "GMT"@))
}

/// A date in the form of C's `asctime`: `Sun Nov  6 08:49:37 1994`.
pub open spec fn asctime_text(
    weekday: Seq<char>,
    month: int,
    day: nat,
    clock: Seq<char>,
    year: int,
) -> Seq<char> {
    let rest = decimal(day) + seq![' '] + (clock + seq![' '] + year_text(year));
    weekday + seq![' '] + (month_name(month) + seq![' '] + if day < 10 {
        seq![' '] + rest
    } else {
        rest
    })
}

/// The three forms of one time are read alike, whatever name the day of the week has. An RFC 850
/// date has the last two digits of a year from 1970 to 2069.
pub proof fn law_three_forms_agree(
    weekday: Seq<char>,
    y: int,
    m: int,
    d: nat,
    hour: nat,
    min: nat,
    sec: nat,
)
    requires
        weekday.len() > 0,
        no_white(weekday),
        !weekday.contains(','),
        1970 <= y <= 2069,
        1 <= m <= 12,
        1 <= d <= 31,
        hour <= u32::MAX,
        min <= u32::MAX,
        sec <= u32::MAX,
    ensures
        ({
            let clock = clock_text(hour, min, sec);
            let time = unix_time(y as nat, m as nat, d, hour, min, sec);
            &&& http_date(imf_text(weekday, d, m, y, clock)) == time
            &&& http_date(rfc850_text(weekday, d, m, (y % 100) as nat, clock)) == time
            &&& http_date(asctime_text(weekday, m, d, clock, y)) == time
        }),
{
    let clock = clock_text(hour, min, sec);
    lemma_field_padded(d, 2);
    lemma_field_padded(y as nat, 4);
    lemma_month_name(m);
    lemma_clock_text(hour, min, sec);
    lemma_imf_parts(weekday, two_digits(d), month_name(m), year_text(y), clock);
    lemma_rfc850_read(weekday, y, m, d, clock);
    lemma_asctime_read(weekday, m, d, clock, y);
}

/// The last `c` stands in front of an end without it.
pub proof fn lemma_last_position(a: Seq<char>, c: char, b: Seq<char>)
    requires
        !b.contains(c),
    ensures
        last_position(a + seq![c] + b, c) == Some(a.len()),
    decreases b.len(),
{
    let s = a + seq![c] + b;
    if b.len() > 0 {
        assert(b.contains(b.last()));
        assert(s.last() == b.last());
        assert(s.drop_last() =~= a + seq![c] + b.drop_last());
        assert(forall|j: int| 0 <= j < b.len() - 1 ==> b.drop_last()[j] == b[j] && b.contains(b[j]));
        lemma_last_position(a, c, b.drop_last());
    } else {
        assert(s.last() == c);
    }
}

/// The day, the month and the year of an RFC 850 date.
proof fn lemma_rfc850_day(d: nat, m: int, yy: nat)
    requires
        1 <= d <= 31,
        1 <= m <= 12,
        yy < 100,
    ensures
        ({
            let date = two_digits(d) + seq!['-'] + (month_name(m) + seq!['-'] + two_digits(yy));
            &&& pieces(date, '-') == seq![two_digits(d), month_name(m), two_digits(yy)]
            &&& no_white(date)
            &&& date.len() > 0
        }),
{
    let mm = month_name(m);
    lemma_field_padded(d, 2);
    lemma_field_padded(yy, 2);
    lemma_month_name(m);
    lemma_month_letters(m);
    lemma_digits_only(d, 2, '-');
    lemma_digits_only(yy, 2, '-');
    lemma_pieces_single(two_digits(yy), '-');
    lemma_pieces_cons(mm, '-', two_digits(yy));
    lemma_pieces_cons(two_digits(d), '-', mm + seq!['-'] + two_digits(yy));
    let date = two_digits(d) + seq!['-'] + (mm + seq!['-'] + two_digits(yy));
    assert(pieces(date, '-') =~= seq![two_digits(d), mm, two_digits(yy)]);
    assert forall|i: int| 0 <= i < date.len() implies !white(#[trigger] date[i]) by {
        let n = two_digits(d).len();
        if i < n {
            assert(date[i] == two_digits(d)[i]);
        } else if n < i < n + 1 + mm.len() {
            assert(date[i] == mm[i - n - 1]);
        } else if i > n + 1 + mm.len() {
            assert(date[i] == two_digits(yy)[i - n - 2 - mm.len()]);
        }
    }
}

/// A padded numeral has digits only.
proof fn lemma_digits_only(n: nat, width: nat, c: char)
    requires
        !digit(c),
    ensures
        !zero_padded(decimal(n), width).contains(c),
        !decimal(n).contains(c),
{
    lemma_decimal_value(n);
    lemma_zero_padded_value(decimal(n), width);
    let d = decimal(n);
    let p = zero_padded(d, width);
    assert(forall|i: int| 0 <= i < d.len() ==> digit(#[trigger] d[i]));
    assert(forall|i: int| 0 <= i < p.len() ==> digit(#[trigger] p[i]));
}

/// The name of a month has letters only.
pub proof fn lemma_month_letters(m: int)
    ensures
        !month_name(m).contains('-'),
        !month_name(m).contains(','),
{
    reveal_strlit("Jan");
    reveal_strlit("Feb");
    reveal_strlit("Mar");
    reveal_strlit("Apr");
    reveal_strlit("May");
    reveal_strlit("Jun");
    reveal_strlit("Jul");
    reveal_strlit("Aug");
    reveal_strlit("Sep");
    reveal_strlit("Oct");
    reveal_strlit("Nov");
    reveal_strlit("Dec");
    let s = month_name(m);
    assert(forall|i: int| 0 <= i < 3 ==> #[trigger] s[i] != '-' && s[i] != ',');
}

/// Where the parts of an RFC 850 date are found, and that it has no other form.
proof fn lemma_rfc850_parts(weekday: Seq<char>, date: Seq<char>, ck: Seq<char>)
    requires
        weekday.len() > 0,
        no_white(weekday),
        !weekday.contains(','),
        no_white(date),
        date.len() > 0,
        no_white(ck),
        ck.len() > 0,
    ensures
        ({
            let t = ck + seq![' '] + "GMT"@;
            let rest = date + seq![' '] + t;
            let text = weekday + ", "@ + rest;
            &&& trimmed(text) == text
            &&& imf_fixdate(text) is None
            &&& position_of(text, ", "@) == Some(weekday.len())
            &&& text.skip(weekday.len() as int + 2) == rest
            &&& position(rest, ' ') == Some(date.len())
            &&& rest.take(date.len() as int) == date
            &&& rest.skip(date.len() as int + 1) == t
            &&& last_position(t, ' ') == Some(ck.len())
            &&& t.take(ck.len() as int) == ck
            &&& t.skip(ck.len() as int + 1) == "GMT"@
        }),
{
    let gmt = "GMT"@;
    let t = ck + seq![' '] + gmt;
    let rest = date + seq![' '] + t;
    let text = weekday + ", "@ + rest;
    reveal_strlit(", ");
    reveal_strlit("GMT");
    lemma_position_of_comma(weekday, rest);
    assert(text.skip(weekday.len() as int + 2) =~= rest);
    assert(no_white(gmt)) by {
        assert(forall|i: int| 0 <= i < 3 ==> !white(#[trigger] gmt[i]));
    }
    lemma_words_single(gmt);
    lemma_words_cons(ck, gmt);
    lemma_words_cons(date, t);
    assert(words(rest) =~= seq![date, ck, gmt]);
    assert(forall|i: int| 0 <= i < date.len() ==> #[trigger] rest[i] == date[i] && !white(date[i]));
    lemma_position_at(rest, ' ', date.len());
    assert(rest.take(date.len() as int) =~= date);
    assert(rest.skip(date.len() as int + 1) =~= t);
    assert(!gmt.contains(' '));
    lemma_last_position(ck, ' ', gmt);
    assert(t.take(ck.len() as int) =~= ck);
    assert(t.skip(ck.len() as int + 1) =~= gmt);
    assert(text[0] == weekday[0] && !white(weekday[0]));
    assert(text.last() == gmt[2]);
    assert(trimmed(text) == text);
}

/// What is read from an RFC 850 date.
proof fn lemma_rfc850_read(weekday: Seq<char>, y: int, m: int, d: nat, ck: Seq<char>)
    requires
        weekday.len() > 0,
        no_white(weekday),
        !weekday.contains(','),
        1970 <= y <= 2069,
        1 <= m <= 12,
        1 <= d <= 31,
        no_white(ck),
        ck.len() > 0,
        clock(ck) is Some,
    ensures
        http_date(rfc850_text(weekday, d, m, (y % 100) as nat, ck)) == time_from(
            Some(y as nat),
            Some(m as nat),
            Some(d),
            clock(ck),
        ),
{
    let yy = (y % 100) as nat;
    let date = two_digits(d) + seq!['-'] + (month_name(m) + seq!['-'] + two_digits(yy));
    lemma_rfc850_day(d, m, yy);
    lemma_field_padded(d, 2);
    lemma_field_padded(yy, 2);
    lemma_month_name(m);
    lemma_rfc850_parts(weekday, date, ck);
    assert(full_year(yy) == Some(y as nat));
}

/// A text without commas has no comma and space.
proof fn lemma_no_comma(s: Seq<char>)
    requires
        !s.contains(','),
    ensures
        position_of(s, ", "@) is None,
    decreases s.len(),
{
    reveal_strlit(", ");
    if s.len() >= 2 {
        assert(s.contains(s[0]));
        assert(s.take(2)[0] == s[0] && ", "@[0] == ',');
        let t = s.skip(1);
        assert(forall|j: int| 0 <= j < t.len() ==> t[j] == s[j + 1] && s.contains(s[j + 1]));
        lemma_no_comma(t);
    }
}

/// What is read from a date in the form of C's `asctime`.
proof fn lemma_asctime_read(weekday: Seq<char>, m: int, d: nat, ck: Seq<char>, y: int)
    requires
        weekday.len() > 0,
        no_white(weekday),
        !weekday.contains(','),
        1970 <= y <= u32::MAX,
        1 <= m <= 12,
        1 <= d <= 31,
        no_white(ck),
        ck.len() > 0,
        !ck.contains(','),
    ensures
        http_date(asctime_text(weekday, m, d, ck, y)) == time_from(
            Some(y as nat),
            Some(m as nat),
            Some(d),
            clock(ck),
        ),
{
    let mm = month_name(m);
    let yy = year_text(y);
    let sp = seq![' '];
    let r2 = ck + sp + yy;
    let r1 = decimal(d) + sp + r2;
    let r0 = if d < 10 {
        sp + r1
    } else {
        r1
    };
    let text = weekday + sp + (mm + sp + r0);
    lemma_field_padded(d, 0);
    lemma_field_padded(y as nat, 4);
    lemma_month_name(m);
    lemma_words_single(yy);
    lemma_words_cons(ck, yy);
    lemma_words_cons(decimal(d), r2);
    if d < 10 {
        assert(r0.skip(1) =~= r1);
        assert(white(r0[0]));
        assert(words(r0) == words(r1));
    }
    lemma_words_cons(mm, r0);
    lemma_words_cons(weekday, mm + sp + r0);
    assert(words(text) =~= seq![weekday, mm, decimal(d), ck, yy]);
    assert(!text.contains(',')) by {
        lemma_month_letters(m);
        lemma_digits_only(d, 0, ',');
        lemma_digits_only(y as nat, 4, ',');
        lemma_join_without(ck, yy, ',');
        lemma_join_without(decimal(d), r2, ',');
        lemma_join_without(Seq::empty(), r1, ',');
        assert(Seq::<char>::empty() + sp + r1 =~= sp + r1);
        lemma_join_without(mm, r0, ',');
        lemma_join_without(weekday, mm + sp + r0, ',');
    }
    lemma_no_comma(text);
    assert(text[0] == weekday[0] && !white(weekday[0]));
    assert(text.last() == yy.last() && !white(yy.last()));
    assert(trimmed(text) == text);
}

/// Two texts without `c`, with a space between them.
proof fn lemma_join_without(a: Seq<char>, b: Seq<char>, c: char)
    requires
        !a.contains(c),
        !b.contains(c),
        c != ' ',
    ensures
        !(a + seq![' '] + b).contains(c),
{
    let s = a + seq![' '] + b;
    assert forall|i: int| 0 <= i < s.len() implies s[i] != c by {
        if i < a.len() {
            assert(s[i] == a[i] && a.contains(a[i]));
        } else if i > a.len() {
            assert(s[i] == b[i - a.len() - 1] && b.contains(b[i - a.len() - 1]));
        }
    }
}

/// Counting the days to a day of the calendar and finding the day from their number undo each
/// other: the day with the number `days` has that number, and is found from it.
pub proof fn law_days_roundtrip(days: int)
    ensures
        ({
            let (y, m, d) = civil(days);
            &&& is_date(y, m, d)
            &&& day_number(y, m, d) == days
            &&& epoch_day(y, m, d) == if days >= 0 {
                Some(days)
            } else {
                None
            }
        }),
        forall|y: int, m: int, d: int| #[trigger]
            is_date(y, m, d) && day_number(y, m, d) == days ==> civil(days) == (y, m, d),
{
    lemma_civil_exists(days);
    assert forall|y: int, m: int, d: int| #[trigger]
        is_date(y, m, d) && day_number(y, m, d) == days implies civil(days) == (y, m, d) by {
        lemma_civil(days, y, m, d);
    }
}

/// Every number of days names a day of the calendar.
proof fn lemma_civil_exists(days: int)
    ensures
        is_date(civil(days).0, civil(days).1, civil(days).2),
        day_number(civil(days).0, civil(days).1, civil(days).2) == days,
{
    let z = days + 719468;
    let era = z / 146097;
    let doe = z % 146097;
    lemma_year_of_era_int(doe);
    let yoe = (doe - doe / 1460 + doe / 36524 - doe / 146096) / 365;
    let doy = doe - (365 * yoe + yoe / 4 - yoe / 100);
    lemma_month_of_year_int(doy);
    let mp = (5 * doy + 2) / 153;
    lemma_civil_parts(era, yoe, doy, mp);
    let m = if mp < 10 {
        mp + 3
    } else {
        mp - 9
    };
    let y = if m <= 2 {
        yoe + era * 400 + 1
    } else {
        yoe + era * 400
    };
    lemma_civil(days, y, m, doy - (153 * mp + 2) / 5 + 1);
}

/// The days from 1970 on lie in years from 1970 on, and those before a year in earlier years.
proof fn lemma_civil_year(days: int, y: int, m: int, d: int)
    requires
        is_date(y, m, d),
        day_number(y, m, d) == days,
        0 <= days < day_number(4294967296, 1, 1),
    ensures
        1970 <= y <= u32::MAX,
        1 <= d <= 31,
{
    lemma_year_step(y);
    if y < 1970 {
        lemma_years_grow(y + 1, 1970);
    } else if y > u32::MAX {
        lemma_years_grow(4294967296, y);
    }
}

/// A written date is visible ASCII and spaces.
pub proof fn lemma_date_text_plain(secs: u64)
    ensures
        plain(http_date_text(secs)),
{
    let t = signed(secs);
    let days = t / 86400;
    let time = (t % 86400) as nat;
    let c = civil(days);
    let clock = clock_text(time / 3600, time % 3600 / 60, time % 60);
    reveal_strlit(", ");
    reveal_strlit("GMT");
    let sp = seq![' '];
    lemma_names_plain((days + 4) % 7, c.1);
    lemma_clock_plain(time / 3600, time % 3600 / 60, time % 60);
    lemma_plain_decimal(c.2 as nat, 2);
    lemma_year_plain(c.0);
    lemma_plain_concat(clock, sp);
    lemma_plain_concat(clock + sp, "GMT"@);
    let r3 = clock + sp + "GMT"@;
    lemma_plain_concat(year_text(c.0), sp);
    lemma_plain_concat(year_text(c.0) + sp, r3);
    let r2 = year_text(c.0) + sp + r3;
    lemma_plain_concat(month_name(c.1), sp);
    lemma_plain_concat(month_name(c.1) + sp, r2);
    let r1 = month_name(c.1) + sp + r2;
    lemma_plain_concat(two_digits(c.2 as nat), sp);
    lemma_plain_concat(two_digits(c.2 as nat) + sp, r1);
    lemma_plain_concat(weekday_name((days + 4) % 7), ", "@);
    lemma_plain_concat(
        weekday_name((days + 4) % 7) + ", "@,
        two_digits(c.2 as nat) + sp + r1,
    );
}

proof fn lemma_year_plain(y: int)
    ensures
        plain(year_text(y)),
{
    lemma_plain_decimal(y as nat, 4);
    lemma_plain_decimal((-y) as nat, 3);
    lemma_plain_concat(seq!['-'], zero_padded(decimal((-y) as nat), 3));
}

proof fn lemma_clock_plain(h: nat, m: nat, s: nat)
    ensures
        plain(clock_text(h, m, s)),
{
    lemma_plain_decimal(h, 2);
    lemma_plain_decimal(m, 2);
    lemma_plain_decimal(s, 2);
    lemma_plain_concat(two_digits(m), seq![':']);
    lemma_plain_concat(two_digits(m) + seq![':'], two_digits(s));
    lemma_plain_concat(two_digits(h), seq![':']);
    lemma_plain_concat(two_digits(h) + seq![':'], two_digits(m) + seq![':'] + two_digits(s));
}

proof fn lemma_names_plain(dow: int, m: int)
    ensures
        plain(weekday_name(dow)),
        plain(month_name(m)),
{
    reveal_strlit("Sun");
    reveal_strlit("Mon");
    reveal_strlit("Tue");
    reveal_strlit("Wed");
    reveal_strlit("Thu");
    reveal_strlit("Fri");
    reveal_strlit("Sat");
    reveal_strlit("Jan");
    reveal_strlit("Feb");
    reveal_strlit("Mar");
    reveal_strlit("Apr");
    reveal_strlit("May");
    reveal_strlit("Jun");
    reveal_strlit("Jul");
    reveal_strlit("Aug");
    reveal_strlit("Sep");
    reveal_strlit("Oct");
    reveal_strlit("Nov");
    reveal_strlit("Dec");
    let w = weekday_name(dow);
    let n = month_name(m);
    assert(w.len() == 3 && n.len() == 3);
    assert(plain_char(w[0]) && plain_char(w[1]) && plain_char(w[2]));
    assert(plain_char(n[0]) && plain_char(n[1]) && plain_char(n[2]));
}

} // verus!
