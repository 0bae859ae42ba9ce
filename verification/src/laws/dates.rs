//! Dates: the calendar day by day, and how times are written and read.

use vstd::prelude::*;

use crate::http_date::{
    as_nat, clock, date_to_unix, day_number, days_before_month, days_before_year, days_since_epoch,
    field, format_http_date, http_date_text, is_date, law_date_roundtrip, law_days_roundtrip, leap,
    lemma_civil, lemma_last_position, lemma_month_letters, lemma_month_name,
    lemma_position_of_comma, lemma_year_step, lemma_years_grow, month_name, month_number,
    parse_asctime, parse_http_date, parse_imf_fixdate, parse_month, parse_rfc850_date, signed,
    time_from, two_digits, unix_days_to_civil, weekday_name, year_text,
};
use crate::laws::texts::{lemma_texts_of, texts_of};
use crate::text::{
    decimal, find, find_text, lemma_pieces_cons, lemma_pieces_single, lemma_position_at,
    lemma_words_cons, lemma_words_single, no_white, pad_zeros, parse_number, pieces, rfind,
    slice_texts, split, split_words, to_decimal, trim, white, words,
};

verus! {

/// The twelve months by the first three letters of their names, in the order of the year.
pub open spec fn is_month(s: Seq<char>, m: int) -> bool {
    1 <= m <= 12 && s == "JanFebMarAprMayJunJulAugSepOctNovDec"@.subrange(3 * m - 3, 3 * m)
}

/// The seven days by the first three letters of their names, from Sunday on.
pub open spec fn is_weekday(s: Seq<char>, d: int) -> bool {
    0 <= d <= 6 && s == "SunMonTueWedThuFriSat"@.subrange(3 * d, 3 * d + 3)
}

proof fn lemma_months(m: int)
    requires
        1 <= m <= 12,
    ensures
        is_month(month_name(m), m),
        month_number(month_name(m)) == Some(m as nat),
        month_name(m).len() == 3,
{
    reveal_strlit("JanFebMarAprMayJunJulAugSepOctNovDec");
    reveal_strlit("Jan");
    reveal_strlit("Feb");
    reveal_strlit("Mar");
    reveal_strlit("Apr");
    reveal_strlit("May");
    reveal_strlit("Jun");
    reveal_strlit("Jul");
    reveal_strlit("Aug");
    reveal_strlit("Sep");
    reveal_strlit("Oct");
    reveal_strlit("Nov");
    reveal_strlit("Dec");
    let all = "JanFebMarAprMayJunJulAugSepOctNovDec"@;
    let s = month_name(m);
    assert(s.len() == 3);
    assert(s[0] == all[3 * m - 3] && s[1] == all[3 * m - 2] && s[2] == all[3 * m - 1]);
    assert(s =~= all.subrange(3 * m - 3, 3 * m));
    crate::http_date::lemma_month_name(m);
}

/// A month is read from the first three letters of its name, and from nothing else.
pub proof fn law_month_read(s: &[char], r: Option<u32>)
    requires
        call_ensures(parse_month, (s,), r),
    ensures
        r matches Some(m) ==> is_month(s@, m as int),
        r is None ==> forall|m: int| 1 <= m <= 12 ==> !(#[trigger] is_month(s@, m)),
{
    assert forall|m: int| #[trigger] is_month(s@, m) implies r == Some(m as u32) by {
        lemma_months(m);
    }
    if let Some(m) = r {
        lemma_months(m as int);
        lemma_month_unique(s@, m as int);
    }
}

proof fn lemma_month_unique(s: Seq<char>, m: int)
    requires
        month_number(s) == Some(m as nat),
        1 <= m <= 12,
    ensures
        s == month_name(m),
{
}

/// How long a month is: 31 days in January, March, May, July, August, October and December, 28 or
/// in a leap year 29 in February, and 30 in the others. A leap year is one that four divides, but
/// of those that a hundred divides only the ones that four hundred divides.
pub open spec fn days_in(y: int, m: int) -> int {
    if m == 2 {
        if y % 400 == 0 || (y % 4 == 0 && y % 100 != 0) {
            29
        } else {
            28
        }
    } else if m == 4 || m == 6 || m == 9 || m == 11 {
        30
    } else {
        31
    }
}

/// 1 January 1970 has the number 0, the day after a day has the next number, and a date before the
/// first has none.
pub proof fn law_days_count(
    y: i64,
    m: i64,
    d: i64,
    next: (i64, i64, i64),
    first: Option<i64>,
    r: Option<i64>,
    s: Option<i64>,
)
    requires
        1 <= m <= 12,
        1 <= d <= days_in(y as int, m as int),
        -100_000_000_000_000 <= y <= 100_000_000_000_000,
        next == if d < days_in(y as int, m as int) {
            (y, m, (d + 1) as i64)
        } else if m < 12 {
            (y, (m + 1) as i64, 1i64)
        } else {
            ((y + 1) as i64, 1i64, 1i64)
        },
        call_ensures(days_since_epoch, (1970i64, 1i64, 1i64), first),
        call_ensures(days_since_epoch, (y, m, d), r),
        call_ensures(days_since_epoch, next, s),
    ensures
        first == Some(0i64),
        r matches Some(n) ==> n >= 0 && s == Some((n + 1) as i64),
        r is Some <==> y >= 1970,
        r is None && next.0 == 1970 ==> s == Some(0i64),
{
    lemma_year_sign(y as int, m as int, d as int);
    lemma_next_day(y as int, m as int, d as int);
}

proof fn lemma_next_day(y: int, m: int, d: int)
    requires
        1 <= m <= 12,
        1 <= d <= days_in(y, m),
    ensures
        day_number(1970, 1, 1) == 0,
        d < days_in(y, m) ==> day_number(y, m, d + 1) == day_number(y, m, d) + 1,
        d == days_in(y, m) && m < 12 ==> day_number(y, m + 1, 1) == day_number(y, m, d) + 1,
        d == days_in(y, m) && m == 12 ==> day_number(y + 1, 1, 1) == day_number(y, m, d) + 1,
{
    assert(days_before_year(1970) == 719528);
    lemma_leap(y);
    if m == 12 {
        lemma_year_step(y);
    } else {
        lemma_month_step(leap(y), y, m);
    }
}

proof fn lemma_leap(y: int)
    ensures
        leap(y) <==> y % 400 == 0 || (y % 4 == 0 && y % 100 != 0),
{
}

proof fn lemma_month_step(is_leap: bool, y: int, m: int)
    requires
        1 <= m < 12,
        is_leap <==> y % 400 == 0 || (y % 4 == 0 && y % 100 != 0),
    ensures
        days_before_month(is_leap, m + 1) == days_before_month(is_leap, m) + days_in(y, m),
{
}

proof fn lemma_day_in_year(y: int, m: int, d: int)
    requires
        1 <= m <= 12,
        1 <= d <= days_in(y, m),
    ensures
        days_before_year(y) - 719528 <= day_number(y, m, d) < days_before_year(y + 1) - 719528,
{
    let within = days_before_month(leap(y), m) + d - 1;
    assert(0 <= within < if leap(y) {
        366int
    } else {
        365
    });
    lemma_year_step(y);
}

proof fn lemma_year_sign(y: int, m: int, d: int)
    requires
        1 <= m <= 12,
        1 <= d <= days_in(y, m),
    ensures
        day_number(y, m, d) >= 0 <==> y >= 1970,
        y >= 0 ==> day_number(y, m, d) <= 366 * y + 400,
{
    lemma_day_in_year(y, m, d);
    assert(days_before_year(1970) == 719528);
    if y < 1970 {
        lemma_years_grow(y + 1, 1970);
    } else {
        lemma_years_grow(1970, y);
    }
    if y >= 0 {
        assert(days_before_year(y + 1) <= 366 * (y + 1) + 2);
    }
}

/// A day past the end of its month counts on from the first, and a day before the first back.
pub proof fn law_days_run_on(y: i64, m: i64, d: i64, first: Option<i64>, r: Option<i64>)
    requires
        1 <= m <= 12,
        call_ensures(days_since_epoch, (y, m, 1i64), first),
        call_ensures(days_since_epoch, (y, m, d), r),
    ensures
        first matches Some(n) ==> r == if n + d - 1 >= 0 {
            Some((n + d - 1) as i64)
        } else {
            None
        },
        r matches Some(n) ==> n - d + 1 >= 0 ==> first == Some((n - d + 1) as i64),
{
}

/// The date of a number of days is the one that lies so many days after 1 January 1970.
pub proof fn law_date_of_days(days: i64, r: (i64, i64, i64), y: i64, m: i64, d: i64)
    requires
        call_ensures(unix_days_to_civil, (days,), r),
        1 <= m <= 12,
        1 <= d <= days_in(y as int, m as int),
    ensures
        1 <= r.1 <= 12,
        1 <= r.2 <= days_in(r.0 as int, r.1 as int),
        day_number(r.0 as int, r.1 as int, r.2 as int) == days,
        day_number(y as int, m as int, d as int) == days ==> r == (y, m, d),
{
    law_days_roundtrip(days as int);
    lemma_is_date(y as int, m as int, d as int);
    lemma_is_date(r.0 as int, r.1 as int, r.2 as int);
}

/// The number 0 has the date 1 January 1970, and the next number the date of the next day.
pub proof fn law_next_date(days: i64, r: (i64, i64, i64), next: (i64, i64, i64))
    requires
        days < i64::MAX,
        call_ensures(unix_days_to_civil, (days,), r),
        call_ensures(unix_days_to_civil, ((days + 1) as i64,), next),
    ensures
        days == 0 ==> r == (1970i64, 1i64, 1i64),
        if r.2 < days_in(r.0 as int, r.1 as int) {
            next.0 == r.0 && next.1 == r.1 && next.2 == r.2 + 1
        } else if r.1 < 12 {
            next.0 == r.0 && next.1 == r.1 + 1 && next.2 == 1
        } else {
            next.0 == r.0 + 1 && next.1 == 1 && next.2 == 1
        },
{
    let (y, m, d) = (r.0 as int, r.1 as int, r.2 as int);
    lemma_is_date(y, m, d);
    lemma_next_day(y, m, d);
    let (ny, nm, nd) = if d < days_in(y, m) {
        (y, m, d + 1)
    } else if m < 12 {
        (y, m + 1, 1int)
    } else {
        (y + 1, 1int, 1int)
    };
    lemma_is_date(ny, nm, nd);
    lemma_civil(days + 1, ny, nm, nd);
    if days == 0 {
        lemma_is_date(1970, 1, 1);
        lemma_civil(0, 1970, 1, 1);
    }
}

proof fn lemma_is_date(y: int, m: int, d: int)
    ensures
        is_date(y, m, d) <==> 1 <= m <= 12 && 1 <= d <= days_in(y, m),
{
}

/// A time is the seconds of the days before it, of its hours, of its minutes and its own. Months
/// beyond the twelve, days beyond the thirty-first and years before 1970 have none.
pub proof fn law_seconds(
    y: u32,
    m: u32,
    d: u32,
    h: u32,
    mi: u32,
    s: u32,
    days: Option<i64>,
    r: Option<u64>,
)
    requires
        call_ensures(date_to_unix, (y, m, d, h, mi, s), r),
        1 <= m <= 12 ==> call_ensures(days_since_epoch, (y as i64, m as i64, d as i64), days),
    ensures
        r is Some <==> y >= 1970 && 1 <= m <= 12 && 1 <= d <= 31,
        r matches Some(t) ==> (days matches Some(n) && t == 86400 * n + 3600 * h + 60 * mi + s),
{
    if y >= 1970 && 1 <= m <= 12 && 1 <= d <= 31 {
        lemma_years_grow(1970, y as int);
        assert(days_before_year(1970) == 719528);
        assert(day_number(y as int, m as int, d as int) >= 0);
    }
}

/// The number that two digits write.
pub open spec fn two(s: Seq<char>, i: int) -> int {
    (s[i] as u32 - 48) * 10 + (s[i + 1] as u32 - 48)
}

/// A time up to the year 9999 is written in 29 characters: the day of the week, the day, the month,
/// the year and the time of day in digits, and `GMT`. 1 January 1970 was a Thursday.
pub proof fn law_date_written(secs: u64, r: String, y: int, m: int, d: int)
    requires
        call_ensures(format_http_date, (secs,), r),
        1 <= m <= 12,
        1 <= d <= days_in(y, m),
        1970 <= y <= 9999,
        day_number(y, m, d) == secs as int / 86400,
    ensures
        r@.len() == 29,
        is_weekday(r@.subrange(0, 3), (secs as int / 86400 + 4) % 7),
        r@[3] == ',' && r@[4] == ' ',
        two(r@, 5) == d,
        r@[7] == ' ',
        is_month(r@.subrange(8, 11), m),
        r@[11] == ' ',
        two(r@, 12) * 100 + two(r@, 14) == y,
        r@[16] == ' ',
        two(r@, 17) == secs as int % 86400 / 3600,
        r@[19] == ':',
        two(r@, 20) == secs as int % 3600 / 60,
        r@[22] == ':',
        two(r@, 23) == secs as int % 60,
        r@.subrange(25, 29) == " GMT"@,
{
    let days = secs as int / 86400;
    let time = (secs as int % 86400) as nat;
    let (h, mi, s) = (time / 3600, time % 3600 / 60, time % 60);
    lemma_date_parts(secs, y, m, d);
    lemma_clock_parts(secs);
    lemma_months(m);
    lemma_weekdays((days + 4) % 7);
    lemma_two_digits(d as nat);
    lemma_two_digits(h);
    lemma_two_digits(mi);
    lemma_two_digits(s);
    lemma_four_digits(y as nat);
    lemma_date_layout(
        weekday_name((days + 4) % 7),
        two_digits(d as nat),
        month_name(m),
        year_text(y),
        two_digits(h),
        two_digits(mi),
        two_digits(s),
        r@,
    );
}

/// Any time is written so, from the date of its day. The seconds beyond the largest signed number
/// stand for times before 1970. A year has at least four characters, with the sign of one before
/// the year 0 among them.
pub proof fn law_any_date_written(
    secs: u64,
    t: int,
    days: i64,
    date: (i64, i64, i64),
    names: (Seq<char>, Seq<char>),
    digits: (String, String, String, String, String),
    r: String,
    padded: (String, String, String, String, String),
)
    requires
        call_ensures(format_http_date, (secs,), r),
        t == if secs < 0x8000_0000_0000_0000 {
            secs as int
        } else {
            secs - 0x1_0000_0000_0000_0000
        },
        86400 * days <= t < 86400 * days + 86400,
        call_ensures(unix_days_to_civil, (days,), date),
        is_weekday(names.0, (days + 4) % 7),
        is_month(names.1, date.1 as int),
        call_ensures(to_decimal, (date.2 as u64,), digits.0),
        call_ensures(pad_zeros, (digits.0, 2usize), padded.0),
        date.0 >= 0 ==> call_ensures(to_decimal, (date.0 as u64,), digits.1) && call_ensures(
            pad_zeros,
            (digits.1, 4usize),
            padded.1,
        ),
        date.0 < 0 ==> call_ensures(to_decimal, ((-date.0) as u64,), digits.1) && call_ensures(
            pad_zeros,
            (digits.1, 3usize),
            padded.1,
        ),
        call_ensures(to_decimal, (((t - 86400 * days) / 3600) as u64,), digits.2),
        call_ensures(pad_zeros, (digits.2, 2usize), padded.2),
        call_ensures(to_decimal, (((t - 86400 * days) % 3600 / 60) as u64,), digits.3),
        call_ensures(pad_zeros, (digits.3, 2usize), padded.3),
        call_ensures(to_decimal, (((t - 86400 * days) % 60) as u64,), digits.4),
        call_ensures(pad_zeros, (digits.4, 2usize), padded.4),
    ensures
        r@ == names.0 + ", "@ + padded.0@ + " "@ + names.1 + " "@ + (if date.0 < 0 {
            "-"@
        } else {
            ""@
        }) + padded.1@ + " "@ + padded.2@ + ":"@ + padded.3@ + ":"@ + padded.4@ + " GMT"@,
{
    let time = t - 86400 * days;
    assert(t / 86400 == days as int && t % 86400 == time);
    lemma_civil(days as int, date.0 as int, date.1 as int, date.2 as int);
    lemma_is_date(date.0 as int, date.1 as int, date.2 as int);
    lemma_months(date.1 as int);
    lemma_weekdays((days + 4) % 7);
    let yy = (if date.0 < 0 {
        "-"@
    } else {
        ""@
    }) + padded.1@;
    assert(yy == year_text(date.0 as int)) by {
        reveal_strlit("-");
        reveal_strlit("");
        assert(yy =~= year_text(date.0 as int));
    }
    lemma_written(
        names.0,
        padded.0@,
        names.1,
        if date.0 < 0 {
            "-"@
        } else {
            ""@
        },
        padded.1@,
        padded.2@,
        padded.3@,
        padded.4@,
    );
}

proof fn lemma_written(
    wd: Seq<char>,
    dd: Seq<char>,
    mm: Seq<char>,
    sign: Seq<char>,
    yy: Seq<char>,
    h: Seq<char>,
    mi: Seq<char>,
    s: Seq<char>,
)
    ensures
        wd + ", "@ + (dd + seq![' '] + (mm + seq![' '] + ((sign + yy) + seq![' '] + ((h + seq![':']
            + (mi + seq![':'] + s)) + seq![' '] + "GMT"@)))) == wd + ", "@ + dd + " "@ + mm + " "@
            + sign + yy + " "@ + h + ":"@ + mi + ":"@ + s + " GMT"@,
{
    reveal_strlit(" ");
    reveal_strlit(":");
    reveal_strlit("GMT");
    reveal_strlit(" GMT");
    assert(" "@ =~= seq![' ']);
    assert(":"@ =~= seq![':']);
    assert(" GMT"@ =~= seq![' '] + "GMT"@);
    let z = "GMT"@;
    let c = h + seq![':'] + (mi + seq![':'] + s);
    let a = (sign + yy) + seq![' '] + (c + seq![' '] + z);
    assert(c + seq![' '] + z =~= h + ":"@ + mi + ":"@ + s + " GMT"@);
    assert(a =~= sign + yy + " "@ + (h + ":"@ + mi + ":"@ + s + " GMT"@));
    assert(a =~= sign + yy + " "@ + h + ":"@ + mi + ":"@ + s + " GMT"@);
    assert(wd + ", "@ + (dd + seq![' '] + (mm + seq![' '] + a)) =~= wd + ", "@ + dd + " "@ + mm
        + " "@ + a);
    assert(wd + ", "@ + dd + " "@ + mm + " "@ + a =~= wd + ", "@ + dd + " "@ + mm + " "@ + sign + yy
        + " "@ + h + ":"@ + mi + ":"@ + s + " GMT"@);
}

proof fn lemma_clock_parts(secs: u64)
    ensures
        ({
            let time = (secs as int % 86400) as nat;
            &&& time / 3600 < 24
            &&& time % 3600 / 60 < 60
            &&& time % 60 < 60
            &&& time % 3600 == secs as int % 3600
            &&& time % 60 == secs as int % 60
        }),
{
    let t = secs as int;
    vstd::arithmetic::div_mod::lemma_mod_mod(t, 3600, 24);
    vstd::arithmetic::div_mod::lemma_mod_mod(t, 60, 1440);
}

proof fn lemma_date_parts(secs: u64, y: int, m: int, d: int)
    requires
        1 <= m <= 12,
        1 <= d <= days_in(y, m),
        1970 <= y <= 9999,
        day_number(y, m, d) == secs as int / 86400,
    ensures
        ({
            let days = secs as int / 86400;
            let time = (secs as int % 86400) as nat;
            http_date_text(secs) == weekday_name((days + 4) % 7) + ", "@ + (two_digits(d as nat)
                + seq![' '] + (month_name(m) + seq![' '] + (year_text(y) + seq![' '] + ((two_digits(
                time / 3600,
            ) + seq![':'] + (two_digits(time % 3600 / 60) + seq![':'] + two_digits(time % 60)))
                + seq![' '] + "GMT"@))))
        }),
{
    let days = secs as int / 86400;
    lemma_is_date(y, m, d);
    lemma_civil(days, y, m, d);
    lemma_year_sign(y, m, d);
    assert(secs <= i64::MAX);
    assert(signed(secs) == secs);
}

proof fn lemma_date_layout(
    wd: Seq<char>,
    dd: Seq<char>,
    mm: Seq<char>,
    yy: Seq<char>,
    h: Seq<char>,
    mi: Seq<char>,
    s: Seq<char>,
    t: Seq<char>,
)
    requires
        wd.len() == 3,
        dd.len() == 2,
        mm.len() == 3,
        yy.len() == 4,
        h.len() == 2,
        mi.len() == 2,
        s.len() == 2,
        t == wd + ", "@ + (dd + seq![' '] + (mm + seq![' '] + (yy + seq![' '] + ((h + seq![':'] + (mi
            + seq![':'] + s)) + seq![' '] + "GMT"@)))),
    ensures
        t.len() == 29,
        t.subrange(0, 3) == wd,
        t[3] == ',' && t[4] == ' ',
        t[5] == dd[0] && t[6] == dd[1] && t[7] == ' ',
        t.subrange(8, 11) == mm,
        t[11] == ' ',
        t[12] == yy[0] && t[13] == yy[1] && t[14] == yy[2] && t[15] == yy[3] && t[16] == ' ',
        t[17] == h[0] && t[18] == h[1] && t[19] == ':',
        t[20] == mi[0] && t[21] == mi[1] && t[22] == ':',
        t[23] == s[0] && t[24] == s[1],
        t.subrange(25, 29) == " GMT"@,
{
    reveal_strlit(", ");
    reveal_strlit("GMT");
    reveal_strlit(" GMT");
    assert(t.subrange(0, 3) =~= wd);
    assert(t.subrange(8, 11) =~= mm);
    assert(t.subrange(25, 29) =~= " GMT"@);
}

proof fn lemma_weekdays(dow: int)
    requires
        0 <= dow <= 6,
    ensures
        is_weekday(weekday_name(dow), dow),
        weekday_name(dow).len() == 3,
{
    reveal_strlit("SunMonTueWedThuFriSat");
    reveal_strlit("Sun");
    reveal_strlit("Mon");
    reveal_strlit("Tue");
    reveal_strlit("Wed");
    reveal_strlit("Thu");
    reveal_strlit("Fri");
    reveal_strlit("Sat");
    let all = "SunMonTueWedThuFriSat"@;
    let s = weekday_name(dow);
    assert(s.len() == 3);
    assert(s[0] == all[3 * dow] && s[1] == all[3 * dow + 1] && s[2] == all[3 * dow + 2]);
    assert(s =~= all.subrange(3 * dow, 3 * dow + 3));
}

proof fn lemma_two_digits(n: nat)
    requires
        n < 100,
    ensures
        two_digits(n).len() == 2,
        two(two_digits(n), 0) == n,
{
    reveal_with_fuel(decimal, 3);
}

proof fn lemma_four_digits(n: nat)
    requires
        1000 <= n <= 9999,
    ensures
        year_text(n as int).len() == 4,
        two(year_text(n as int), 0) * 100 + two(
            year_text(n as int),
            2,
        ) == n,
{
    reveal_with_fuel(decimal, 5);
}

/// A date is read in the first of its three forms that the text has, white space around it left
/// out: as an IMF-fixdate, in the form of RFC 850, and in the form of C's `asctime`.
pub proof fn law_forms_in_order(
    s: &str,
    chars: &[char],
    inner: &[char],
    a: Option<u64>,
    b: Option<u64>,
    c: Option<u64>,
    r: Option<u64>,
)
    requires
        chars@ == s@,
        call_ensures(trim, (chars,), inner),
        call_ensures(parse_imf_fixdate, (inner,), a),
        call_ensures(parse_rfc850_date, (inner,), b),
        call_ensures(parse_asctime, (inner,), c),
        call_ensures(parse_http_date, (s,), r),
    ensures
        r == if a is Some {
            a
        } else if b is Some {
            b
        } else {
            c
        },
{
}

/// A time that is written is read back, up to the end of the year 4294967295.
pub proof fn law_date_read_back(secs: u64, text: String, s: &str, r: Option<u64>)
    requires
        call_ensures(format_http_date, (secs,), text),
        s@ == text@,
        call_ensures(parse_http_date, (s,), r),
        secs < day_number(4294967296, 1, 1) * 86400,
    ensures
        r == Some(secs),
{
    law_date_roundtrip(secs);
}

/// The time that the numbers of a date come to, where all of them are numbers of 32 bits and the
/// month is one of the twelve.
pub open spec fn is_time_of(
    day: Option<u64>,
    month: int,
    year: Option<u64>,
    clock: (Option<u64>, Option<u64>, Option<u64>),
    t: Option<u64>,
    r: Option<u64>,
) -> bool {
    match (day, year, clock.0, clock.1, clock.2) {
        (Some(d), Some(y), Some(h), Some(m), Some(s)) => if y <= u32::MAX {
            call_ensures(
                date_to_unix,
                (y as u32, month as u32, d as u32, h as u32, m as u32, s as u32),
                t,
            ) ==> r == t
        } else {
            r is None
        },
        _ => r is None,
    }
}

/// Whether a text is a word: not empty and without white space.
pub open spec fn word(s: Seq<char>) -> bool {
    s.len() > 0 && no_white(s)
}

/// The parts of a date, each as a text: the day, the month, the year, the hours, the minutes and
/// the seconds, with the numbers that they write.
pub struct Parts<'a> {
    pub day: &'a [char],
    pub month: &'a [char],
    pub year: &'a [char],
    pub hour: &'a [char],
    pub minute: &'a [char],
    pub second: &'a [char],
    pub numbers: (Option<u64>, Option<u64>, (Option<u64>, Option<u64>, Option<u64>)),
}

impl<'a> Parts<'a> {
    /// Whether the texts are words, the month is the one with the number `m`, and the numbers are
    /// those that the other texts write in 32 bits.
    pub open spec fn wf(self, m: int) -> bool {
        &&& word(self.day@) && word(self.year@) && word(self.hour@) && word(self.minute@) && word(
            self.second@,
        )
        &&& is_month(self.month@, m)
        &&& !self.hour@.contains(':') && !self.minute@.contains(':') && !self.second@.contains(':')
        &&& call_ensures(parse_number, (self.day, 4294967295u64), self.numbers.0)
        &&& call_ensures(parse_number, (self.year, 4294967295u64), self.numbers.1)
        &&& call_ensures(parse_number, (self.hour, 4294967295u64), self.numbers.2.0)
        &&& call_ensures(parse_number, (self.minute, 4294967295u64), self.numbers.2.1)
        &&& call_ensures(parse_number, (self.second, 4294967295u64), self.numbers.2.2)
    }

    /// The time of day, `08:49:37`.
    pub open spec fn clock(self) -> Seq<char> {
        self.hour@ + seq![':'] + (self.minute@ + seq![':'] + self.second@)
    }
}

proof fn lemma_parts<'a>(p: Parts<'a>, m: int)
    requires
        p.wf(m),
    ensures
        month_number(p.month@) == Some(m as nat),
        word(p.month@),
        !p.month@.contains('-'),
        word(p.clock()),
        field(p.day@) == as_nat(p.numbers.0),
        field(p.year@) == as_nat(p.numbers.1),
        p.numbers.0 matches Some(n) ==> n <= u32::MAX,
        p.numbers.1 matches Some(n) ==> n <= u32::MAX,
        clock(p.clock()) == match (p.numbers.2.0, p.numbers.2.1, p.numbers.2.2) {
            (Some(h), Some(mi), Some(s)) => Some((h as nat, mi as nat, s as nat)),
            _ => None,
        },
        p.numbers.2.0 matches Some(n) ==> n <= u32::MAX,
        p.numbers.2.1 matches Some(n) ==> n <= u32::MAX,
        p.numbers.2.2 matches Some(n) ==> n <= u32::MAX,
{
    lemma_months(m);
    lemma_month_name(m);
    lemma_month_letters(m);
    let (h, mi, s) = (p.hour@, p.minute@, p.second@);
    lemma_pieces_cons(mi, ':', s);
    lemma_pieces_cons(h, ':', mi + seq![':'] + s);
    lemma_pieces_single(s, ':');
    assert(pieces(p.clock(), ':') =~= seq![h, mi, s]);
    let c = p.clock();
    assert forall|i: int| 0 <= i < c.len() implies !white(#[trigger] c[i]) by {
        if i < h.len() {
            assert(c[i] == h[i]);
        } else if h.len() < i < h.len() + 1 + mi.len() {
            assert(c[i] == mi[i - h.len() - 1]);
        } else if i > h.len() + 1 + mi.len() {
            assert(c[i] == s[i - h.len() - 2 - mi.len()]);
        }
    }
}

proof fn lemma_time_of(p: Parts<'_>, m: int, year: Option<u64>, t: Option<u64>, r: Option<u64>)
    requires
        p.wf(m),
        year matches Some(y) ==> y <= u32::MAX,
        as_nat(r) == time_from(as_nat(year), Some(m as nat), field(p.day@), clock(p.clock())),
    ensures
        is_time_of(p.numbers.0, m, year, p.numbers.2, t, r),
{
    lemma_parts(p, m);
}

/// An IMF-fixdate is a word, a comma and a space, then the day, the month, the year and the time of
/// day with a space after each, and `GMT`. With any other word at the end it is none.
pub proof fn law_imf_read(
    p: Parts<'_>,
    m: int,
    weekday: Seq<char>,
    zone: Seq<char>,
    s: &[char],
    t: Option<u64>,
    r: Option<u64>,
)
    requires
        p.wf(m),
        !weekday.contains(','),
        word(zone),
        s@ == weekday + ", "@ + (p.day@ + seq![' '] + (p.month@ + seq![' '] + (p.year@ + seq![' ']
            + (p.clock() + seq![' '] + zone)))),
        call_ensures(parse_imf_fixdate, (s,), r),
    ensures
        zone == "GMT"@ ==> is_time_of(p.numbers.0, m, p.numbers.1, p.numbers.2, t, r),
        zone != "GMT"@ ==> r is None,
{
    let rest3 = p.clock() + seq![' '] + zone;
    let rest2 = p.year@ + seq![' '] + rest3;
    let rest1 = p.month@ + seq![' '] + rest2;
    let rest = p.day@ + seq![' '] + rest1;
    lemma_parts(p, m);
    lemma_position_of_comma(weekday, rest);
    reveal_strlit(", ");
    assert(s@.skip(weekday.len() as int + 2) =~= rest);
    lemma_words_single(zone);
    lemma_words_cons(p.clock(), zone);
    lemma_words_cons(p.year@, rest3);
    lemma_words_cons(p.month@, rest2);
    lemma_words_cons(p.day@, rest1);
    assert(words(rest) =~= seq![p.day@, p.month@, p.year@, p.clock(), zone]);
    if zone == "GMT"@ {
        lemma_time_of(p, m, p.numbers.1, t, r);
    }
}

/// A date in the form of RFC 850 is a word, a comma and a space, then the day, the month and the
/// year with hyphens between them, the time of day and `GMT`. Years below 70 count from 2000,
/// others from 1900.
#[verifier::spinoff_prover]
#[verifier::rlimit(30)]
pub proof fn law_rfc850_read(
    p: Parts<'_>,
    m: int,
    weekday: Seq<char>,
    zone: Seq<char>,
    s: &[char],
    t: Option<u64>,
    r: Option<u64>,
)
    requires
        p.wf(m),
        !weekday.contains(','),
        word(zone),
        !p.day@.contains('-') && !p.year@.contains('-'),
        s@ == weekday + ", "@ + (p.day@ + seq!['-'] + (p.month@ + seq!['-'] + p.year@) + seq![' ']
            + (p.clock() + seq![' '] + zone)),
        call_ensures(parse_rfc850_date, (s,), r),
    ensures
        zone == "GMT"@ ==> is_time_of(
            p.numbers.0,
            m,
            match p.numbers.1 {
                Some(yy) => if yy < 70 {
                    Some((2000 + yy) as u64)
                } else {
                    Some((1900 + yy) as u64)
                },
                None => None,
            },
            p.numbers.2,
            t,
            r,
        ),
        zone != "GMT"@ ==> r is None,
{
    let date = p.day@ + seq!['-'] + (p.month@ + seq!['-'] + p.year@);
    let tail = p.clock() + seq![' '] + zone;
    let rest = date + seq![' '] + tail;
    lemma_parts(p, m);
    lemma_position_of_comma(weekday, rest);
    reveal_strlit(", ");
    assert(s@.skip(weekday.len() as int + 2) =~= rest);
    lemma_solid(p.day@, p.month@, p.year@);
    assert forall|j: int| 0 <= j < date.len() implies rest[j] != ' ' by {
        assert(rest[j] == date[j] && date.contains(date[j]));
    }
    assert(rest[date.len() as int] == ' ');
    lemma_position_at(rest, ' ', date.len());
    assert(rest.take(date.len() as int) =~= date);
    assert(rest.skip(date.len() as int + 1) =~= tail);
    lemma_no_space(zone);
    lemma_last_position(p.clock(), ' ', zone);
    assert(tail.take(p.clock().len() as int) =~= p.clock());
    assert(tail.skip(p.clock().len() as int + 1) =~= zone);
    lemma_pieces_single(p.year@, '-');
    lemma_pieces_cons(p.month@, '-', p.year@);
    lemma_pieces_cons(p.day@, '-', p.month@ + seq!['-'] + p.year@);
    assert(pieces(date, '-') =~= seq![p.day@, p.month@, p.year@]);
    if zone == "GMT"@ {
        if let Some(yy) = p.numbers.1 {
            if yy < 70 {
                lemma_time_of(p, m, Some((2000 + yy) as u64), t, r);
            } else if 1900 + yy <= u32::MAX {
                lemma_time_of(p, m, Some((1900 + yy) as u64), t, r);
            }
        }
    }
}

proof fn lemma_solid(a: Seq<char>, b: Seq<char>, c: Seq<char>)
    requires
        no_white(a),
        no_white(b),
        no_white(c),
    ensures
        !(a + seq!['-'] + (b + seq!['-'] + c)).contains(' '),
{
    let s = a + seq!['-'] + (b + seq!['-'] + c);
    lemma_no_space(a);
    lemma_no_space(b);
    lemma_no_space(c);
    assert forall|i: int| 0 <= i < s.len() implies s[i] != ' ' by {
        let (n, k) = (a.len(), b.len());
        if i < n {
            assert(a.contains(s[i]));
        } else if n < i < n + 1 + k {
            assert(b[i - n - 1] == s[i]);
            assert(b.contains(s[i]));
        } else if i > n + 1 + k {
            assert(c[i - n - 2 - k] == s[i]);
            assert(c.contains(s[i]));
        }
    }
}

proof fn lemma_no_space(s: Seq<char>)
    requires
        no_white(s),
    ensures
        !s.contains(' '),
{
    assert(white(' '));
}

/// A date in the form of C's `asctime` is five words: the day of the week, the month, the day, the
/// time of day and the year. With more or fewer words it is none.
pub proof fn law_asctime_read(
    p: Parts<'_>,
    m: int,
    weekday: Seq<char>,
    s: &[char],
    w: Vec<&[char]>,
    t: Option<u64>,
    r: Option<u64>,
)
    requires
        p.wf(m),
        call_ensures(split_words, (s,), w),
        call_ensures(parse_asctime, (s,), r),
    ensures
        w@.len() != 5 ==> r is None,
        texts_of(w@) == seq![weekday, p.month@, p.day@, p.clock(), p.year@] ==> is_time_of(
            p.numbers.0,
            m,
            p.numbers.1,
            p.numbers.2,
            t,
            r,
        ),
{
    lemma_parts(p, m);
    lemma_texts_of(w@);
    if texts_of(w@) == seq![weekday, p.month@, p.day@, p.clock(), p.year@] {
        lemma_time_of(p, m, p.numbers.1, t, r);
    }
}

/// The numbers of a time of day, where its text falls into three by its colons.
pub open spec fn clock_numbers(
    c: Vec<&[char]>,
    n: (Option<u64>, Option<u64>, Option<u64>),
) -> bool {
    c@.len() == 3 ==> {
        &&& call_ensures(parse_number, (c@[0], 4294967295u64), n.0)
        &&& call_ensures(parse_number, (c@[1], 4294967295u64), n.1)
        &&& call_ensures(parse_number, (c@[2], 4294967295u64), n.2)
    }
}

proof fn lemma_clock<'a>(
    text: &'a [char],
    c: Vec<&'a [char]>,
    n: (Option<u64>, Option<u64>, Option<u64>),
)
    requires
        call_ensures(split, (text, ':'), c),
        clock_numbers(c, n),
    ensures
        c@.len() != 3 ==> clock(text@) is None,
        c@.len() == 3 ==> clock(text@) == match n {
            (Some(h), Some(mi), Some(s)) => Some((h as nat, mi as nat, s as nat)),
            _ => None,
        },
        c@.len() == 3 ==> (n.0 matches Some(h) ==> h <= u32::MAX) && (n.1 matches Some(h)
            ==> h <= u32::MAX) && (n.2 matches Some(h) ==> h <= u32::MAX),
{
    let all = slice_texts(c@);
    assert(all.len() == c@.len());
    if c@.len() == 3 {
        assert(all[0] == c@[0]@ && all[1] == c@[1]@ && all[2] == c@[2]@);
    }
}

/// An IMF-fixdate has a comma and a space, five words behind that, of which the second is a month
/// and the last `GMT`, and two colons in the fourth. Nothing else is one.
pub proof fn law_imf_words<'a>(
    s: &'a [char],
    at: Option<usize>,
    rest: &'a [char],
    w: Vec<&'a [char]>,
    month: Option<u32>,
    c: Vec<&'a [char]>,
    day: Option<u64>,
    year: Option<u64>,
    time: (Option<u64>, Option<u64>, Option<u64>),
    t: Option<u64>,
    r: Option<u64>,
)
    requires
        call_ensures(parse_imf_fixdate, (s,), r),
        call_ensures(find_text, (s, ", "), at),
        at matches Some(i) ==> rest@ == s@.skip(i + 2),
        call_ensures(split_words, (rest,), w),
        w@.len() == 5 ==> call_ensures(parse_month, (w@[1],), month) && call_ensures(
            split,
            (w@[3], ':'),
            c,
        ) && call_ensures(parse_number, (w@[0], 4294967295u64), day) && call_ensures(
            parse_number,
            (w@[2], 4294967295u64),
            year,
        ) && clock_numbers(c, time),
    ensures
        if at is Some && w@.len() == 5 && w@[4]@ == "GMT"@ && month is Some && c@.len() == 3 {
            is_time_of(day, month->0 as int, year, time, t, r)
        } else {
            r is None
        },
{
    let all = slice_texts(w@);
    assert(all.len() == w@.len());
    if w@.len() == 5 {
        assert(all[0] == w@[0]@ && all[1] == w@[1]@ && all[2] == w@[2]@ && all[3] == w@[3]@
            && all[4] == w@[4]@);
        lemma_clock(w@[3], c, time);
    }
}

/// A date in the form of RFC 850 has a comma and a space, then a text up to a space that falls into
/// three by its hyphens, of which the second is a month, a text with two colons up to the last
/// space, and `GMT`. Nothing else is one.
pub proof fn law_rfc850_words<'a>(
    s: &'a [char],
    at: Option<usize>,
    rest: &'a [char],
    gap: Option<usize>,
    date: &'a [char],
    tail: &'a [char],
    last: Option<usize>,
    text: &'a [char],
    d: Vec<&'a [char]>,
    month: Option<u32>,
    c: Vec<&'a [char]>,
    day: Option<u64>,
    year: Option<u64>,
    time: (Option<u64>, Option<u64>, Option<u64>),
    t: Option<u64>,
    r: Option<u64>,
)
    requires
        call_ensures(parse_rfc850_date, (s,), r),
        call_ensures(find_text, (s, ", "), at),
        at matches Some(i) ==> rest@ == s@.skip(i + 2),
        call_ensures(find, (rest, ' '), gap),
        gap matches Some(i) ==> date@ == rest@.take(i as int) && tail@ == rest@.skip(i + 1),
        call_ensures(rfind, (tail, ' '), last),
        last matches Some(i) ==> text@ == tail@.take(i as int),
        call_ensures(split, (date, '-'), d),
        call_ensures(split, (text, ':'), c),
        clock_numbers(c, time),
        d@.len() == 3 ==> call_ensures(parse_month, (d@[1],), month) && call_ensures(
            parse_number,
            (d@[0], 4294967295u64),
            day,
        ) && call_ensures(parse_number, (d@[2], 4294967295u64), year),
    ensures
        if at is Some && gap is Some && last is Some && tail@.skip(last->0 + 1) == "GMT"@
            && d@.len() == 3 && month is Some && c@.len() == 3 {
            is_time_of(
                day,
                month->0 as int,
                match year {
                    Some(yy) => if yy < 70 {
                        Some((2000 + yy) as u64)
                    } else {
                        Some((1900 + yy) as u64)
                    },
                    None => None,
                },
                time,
                t,
                r,
            )
        } else {
            r is None
        },
{
    let all = slice_texts(d@);
    assert(all.len() == d@.len());
    if d@.len() == 3 {
        assert(all[0] == d@[0]@ && all[1] == d@[1]@ && all[2] == d@[2]@);
    }
    lemma_clock(text, c, time);
}

/// A date in the form of C's `asctime` has five words, of which the second is a month and the fourth
/// has two colons. Nothing else is one.
pub proof fn law_asctime_words<'a>(
    s: &'a [char],
    w: Vec<&'a [char]>,
    month: Option<u32>,
    c: Vec<&'a [char]>,
    day: Option<u64>,
    year: Option<u64>,
    time: (Option<u64>, Option<u64>, Option<u64>),
    t: Option<u64>,
    r: Option<u64>,
)
    requires
        call_ensures(parse_asctime, (s,), r),
        call_ensures(split_words, (s,), w),
        w@.len() == 5 ==> call_ensures(parse_month, (w@[1],), month) && call_ensures(
            split,
            (w@[3], ':'),
            c,
        ) && call_ensures(parse_number, (w@[2], 4294967295u64), day) && call_ensures(
            parse_number,
            (w@[4], 4294967295u64),
            year,
        ) && clock_numbers(c, time),
    ensures
        if w@.len() == 5 && month is Some && c@.len() == 3 {
            is_time_of(day, month->0 as int, year, time, t, r)
        } else {
            r is None
        },
{
    let all = slice_texts(w@);
    assert(all.len() == w@.len());
    if w@.len() == 5 {
        assert(all[1] == w@[1]@ && all[2] == w@[2]@ && all[3] == w@[3]@ && all[4] == w@[4]@);
        lemma_clock(w@[3], c, time);
    }
}

} // verus!
