//! Calendar arithmetic on the proleptic Gregorian calendar, in UTC.
//!
//! Event timestamps parse to epoch seconds for windowing, and reports carry a
//! generated-at stamp. Both rest on one conversion between a day count and a
//! civil date, which is stated here against the calendar's own rules: the
//! length of every month and the placement of leap days.

use crate::ordered;
use crate::text;
use crate::text::{append_padded, read_digits};
use std::time::{Duration, SystemTime, SystemTimeError};
use vstd::prelude::*;
use vstd::utf8::*;

verus! {

// ---------------------------------------------------------------------------
// The calendar
// ---------------------------------------------------------------------------

/// Whether `y` has a 29 February.
pub open spec fn is_leap(y: int) -> bool {
    y % 4 == 0 && (y % 100 != 0 || y % 400 == 0)
}

/// How many days month `m` of year `y` has.
pub open spec fn days_in_month(y: int, m: int) -> int {
    if m == 2 {
        if is_leap(y) {
            29
        } else {
            28
        }
    } else if m == 4 || m == 6 || m == 9 || m == 11 {
        30
    } else {
        31
    }
}

/// How many days of year `y` precede the first of month `m`.
pub open spec fn days_before_month(y: int, m: int) -> int
    decreases m,
{
    if m <= 1 {
        0
    } else {
        days_before_month(y, m - 1) + days_in_month(y, m - 1)
    }
}

/// How many days lie between 1 January 1970 and 1 January of year `y`:
/// 365 for each year, and one more for each leap year.
pub open spec fn days_before_year(y: int) -> int {
    365 * (y - 1970) + (leap_years_before(y) - leap_years_before(1970))
}

/// Leap years from year 1 up to and without year `y`; negative before year 1.
pub open spec fn leap_years_before(y: int) -> int {
    (y - 1) / 4 - (y - 1) / 100 + (y - 1) / 400
}

/// Whether `(y, m, d)` names a day.
pub open spec fn is_date(y: int, m: int, d: int) -> bool {
    1 <= m <= 12 && 1 <= d <= days_in_month(y, m)
}

/// Days since 1 January 1970.
pub open spec fn day_number(y: int, m: int, d: int) -> int {
    days_before_year(y) + days_before_month(y, m) + (d - 1)
}

/// The date whose day number is `days`.
pub open spec fn date_of(days: int) -> (int, int, int) {
    choose|date: (int, int, int)| names_day(date, days)
}

/// Whether `date` is the date with day number `days`.
pub open spec fn names_day(date: (int, int, int), days: int) -> bool {
    is_date(date.0, date.1, date.2) && day_number(date.0, date.1, date.2) == days
}

// ---------------------------------------------------------------------------
// Years that start in March
// ---------------------------------------------------------------------------

/// Days between 1 January 1970 and 1 March of year `y`.
pub open spec fn march_first(y: int) -> int {
    365 * y + y / 4 - y / 100 + y / 400 - 719_468
}

/// Days between 1 March and the first of the month that starts `mp` months
/// later.
pub open spec fn days_since_march(mp: int) -> int {
    (153 * mp + 2) / 5
}

/// The day count of `(y, m, d)` by the rule that years start in March. A month
/// outside `1..=12` or a day outside the month counts on past it.
pub open spec fn counted_day(y: int, m: int, d: int) -> int {
    let year = if m <= 2 {
        y - 1
    } else {
        y
    };
    let mp = if m > 2 {
        m - 3
    } else {
        m + 9
    };
    march_first(year) + days_since_march(mp) + (d - 1)
}

/// A year is as long as its months, and the next year starts after it.
pub proof fn lemma_years_follow(y: int)
    ensures
        days_before_year(y + 1) == days_before_year(y) + days_before_month(y, 13),
        days_before_month(y, 13) == if is_leap(y) {
            366int
        } else {
            365int
        },
{
    lemma_months(y);
}

proof fn lemma_months(y: int)
    ensures
        days_before_month(y, 1) == 0,
        days_before_month(y, 2) == 31,
        days_before_month(y, 3) == 31 + days_in_month(y, 2),
        days_before_month(y, 4) == 62 + days_in_month(y, 2),
        days_before_month(y, 5) == 92 + days_in_month(y, 2),
        days_before_month(y, 6) == 123 + days_in_month(y, 2),
        days_before_month(y, 7) == 153 + days_in_month(y, 2),
        days_before_month(y, 8) == 184 + days_in_month(y, 2),
        days_before_month(y, 9) == 215 + days_in_month(y, 2),
        days_before_month(y, 10) == 245 + days_in_month(y, 2),
        days_before_month(y, 11) == 276 + days_in_month(y, 2),
        days_before_month(y, 12) == 306 + days_in_month(y, 2),
        days_before_month(y, 13) == 337 + days_in_month(y, 2),
{
    reveal_with_fuel(days_before_month, 14);
}

/// March starts after January and February of its year, and 306 days before
/// the next.
proof fn lemma_march_first(y: int)
    ensures
        march_first(y) == days_before_year(y) + 31 + days_in_month(y, 2),
        march_first(y) + 306 == days_before_year(y + 1),
{
    lemma_years_follow(y);
    assert(leap_years_before(1970) == 477);
}

/// Within the calendar, counting from March and counting from January agree.
pub proof fn lemma_counted_day_is_day_number(y: int, m: int, d: int)
    requires
        1 <= m <= 12,
    ensures
        counted_day(y, m, d) == day_number(y, m, d),
{
    lemma_months(y);
    lemma_march_first(y);
    lemma_march_first(y - 1);
    if m == 1 || m == 2 || m == 3 || m == 4 || m == 5 || m == 6 {
    } else {
        assert(m == 7 || m == 8 || m == 9 || m == 10 || m == 11 || m == 12);
    }
}

/// A date is the only one with its day number.
pub proof fn lemma_dates_are_unique(y1: int, m1: int, d1: int, y2: int, m2: int, d2: int)
    requires
        is_date(y1, m1, d1),
        is_date(y2, m2, d2),
        day_number(y1, m1, d1) == day_number(y2, m2, d2),
    ensures
        y1 == y2 && m1 == m2 && d1 == d2,
{
    lemma_within_year(y1, m1, d1);
    lemma_within_year(y2, m2, d2);
    if y1 < y2 {
        lemma_years_ascend(y1 + 1, y2);
    } else if y2 < y1 {
        lemma_years_ascend(y2 + 1, y1);
    } else {
        lemma_months(y1);
    }
}

/// Every day has a date: the one that [`date_of`] picks.
pub proof fn lemma_every_day_has_a_date(days: int)
    ensures
        names_day(date_of(days), days),
{
    let (y, m, d) = march_date(days);
    lemma_march_date(days);
    assert(names_day((y, m, d), days));
}

/// What [`date_of`] gives for the day of a date is that date.
pub proof fn lemma_date_of_day_number(y: int, m: int, d: int)
    requires
        is_date(y, m, d),
    ensures
        date_of(day_number(y, m, d)) == (y, m, d),
{
    let days = day_number(y, m, d);
    lemma_every_day_has_a_date(days);
    let date = date_of(days);
    lemma_dates_are_unique(date.0, date.1, date.2, y, m, d);
}

proof fn lemma_within_year(y: int, m: int, d: int)
    requires
        is_date(y, m, d),
    ensures
        days_before_year(y) <= day_number(y, m, d) < days_before_year(y + 1),
{
    lemma_months(y);
    lemma_years_follow(y);
}

proof fn lemma_years_ascend(a: int, b: int)
    requires
        a <= b,
    ensures
        days_before_year(a) <= days_before_year(b),
    decreases b - a,
{
    if a < b {
        lemma_years_ascend(a, b - 1);
        lemma_years_follow(b - 1);
    }
}

/// The date of a day, counted in eras of 400 years that start in March.
spec fn march_date(days: int) -> (int, int, int) {
    let z = days + 719_468;
    let era = z / 146_097;
    let day_of_era = z % 146_097;
    let year_of_era = (day_of_era - day_of_era / 1460 + day_of_era / 36_524 - day_of_era / 146_096)
        / 365;
    let year = year_of_era + era * 400;
    let day_of_year = day_of_era - (365 * year_of_era + year_of_era / 4 - year_of_era / 100);
    let mp = (5 * day_of_year + 2) / 153;
    let day = day_of_year - (153 * mp + 2) / 5 + 1;
    let month = if mp < 10 {
        mp + 3
    } else {
        mp - 9
    };
    (
        if month <= 2 {
            year + 1
        } else {
            year
        },
        month,
        day,
    )
}

/// The year of an era holds the day: it starts no later and ends no earlier,
/// and it has a 366th day only where the next February has 29.
proof fn lemma_year_of_era(day_of_era: int)
    requires
        0 <= day_of_era <= 146_096,
    ensures
        ({
            let yoe = (day_of_era - day_of_era / 1460 + day_of_era / 36_524 - day_of_era / 146_096)
                / 365;
            let doy = day_of_era - (365 * yoe + yoe / 4 - yoe / 100);
            &&& 0 <= yoe <= 399
            &&& 0 <= doy <= 365
            &&& doy == 365 ==> is_leap(yoe + 1)
        }),
{
    if day_of_era < 146_096 {
        // Century, cycle of four years and year, each counted from March.
        let c = day_of_era / 36_524;
        let d = day_of_era % 36_524;
        let q = d / 1461;
        let r = d % 1461;
        let y = if r / 365 == 4 {
            3
        } else {
            r / 365
        };
        let doy = r - 365 * y;
        let yoe = 100 * c + 4 * q + y;
        assert(0 <= c <= 3 && 0 <= q <= 24 && 0 <= y <= 3 && 0 <= doy <= 365);
        let carry = (24 * c + q + r) / 1460;
        assert(day_of_era / 1460 == 25 * c + q + carry);
        assert(day_of_era / 146_096 == 0);
        let x = day_of_era - day_of_era / 1460 + day_of_era / 36_524 - day_of_era / 146_096;
        assert(x == 365 * yoe + doy - carry);
        assert(carry == 0 || carry == 1 && r >= 1364);
        assert(doy == 365 ==> r == 1460 && carry == 1);
        assert(x / 365 == yoe);
        assert(yoe / 4 == 25 * c + q);
        assert(yoe / 100 == c);
        if doy == 365 {
            assert(q <= 23);
            assert((yoe + 1) % 4 == 0);
            assert((yoe + 1) % 100 != 0);
        }
    }
}

proof fn lemma_march_date(days: int)
    ensures
        names_day(march_date(days), days),
{
    let z = days + 719_468;
    let era = z / 146_097;
    let day_of_era = z % 146_097;
    lemma_year_of_era(day_of_era);
    let yoe = (day_of_era - day_of_era / 1460 + day_of_era / 36_524 - day_of_era / 146_096) / 365;
    let doy = day_of_era - (365 * yoe + yoe / 4 - yoe / 100);
    let year = yoe + era * 400;
    let mp = (5 * doy + 2) / 153;
    let (y, m, d) = march_date(days);
    lemma_eras(yoe, era);
    assert(march_first(year) + doy == days);
    lemma_month_of_march_year(doy);
    assert(1 <= m <= 12);
    assert(counted_day(y, m, d) == days);
    lemma_counted_day_is_day_number(y, m, d);
    assert(m == 2 ==> y == year + 1);
    assert(is_date(y, m, d));
}

/// Leap years repeat with every era.
proof fn lemma_eras(yoe: int, era: int)
    requires
        0 <= yoe <= 399,
    ensures
        march_first(yoe + era * 400) == 365 * yoe + yoe / 4 - yoe / 100 + 146_097 * era - 719_468,
        is_leap(yoe + 1 + era * 400) == is_leap(yoe + 1),
{
    let y = yoe + era * 400;
    assert(y / 4 == yoe / 4 + 100 * era);
    assert(y / 100 == yoe / 100 + 4 * era);
    assert(y / 400 == era);
    assert((y + 1) % 4 == (yoe + 1) % 4);
    assert((y + 1) % 100 == (yoe + 1) % 100);
    assert((y + 1) % 400 == (yoe + 1) % 400);
}

/// The month of a day of the year that starts in March, and the day in it.
proof fn lemma_month_of_march_year(doy: int)
    requires
        0 <= doy <= 365,
    ensures
        ({
            let mp = (5 * doy + 2) / 153;
            let d = doy - days_since_march(mp) + 1;
            let m = if mp < 10 {
                mp + 3
            } else {
                mp - 9
            };
            &&& 0 <= mp <= 11
            &&& 1 <= d
            &&& m != 2 ==> forall|y: int| d <= #[trigger] days_in_month(y, m)
            &&& m == 2 ==> d <= 29 && (d == 29 ==> doy == 365)
        }),
{
    let mp = (5 * doy + 2) / 153;
    assert(mp == 0 || mp == 1 || mp == 2 || mp == 3 || mp == 4 || mp == 5 || mp == 6 || mp == 7
        || mp == 8 || mp == 9 || mp == 10 || mp == 11);
}

// ---------------------------------------------------------------------------
// Conversions
// ---------------------------------------------------------------------------

/// The quotient, rounded down, and the remainder that it leaves.
fn floor_div(value: i64, by: i64) -> (r: (i64, i64))
    requires
        by > 0,
    ensures
        r.0 == value as int / by as int,
        r.1 == value as int % by as int,
{
    if value >= 0 {
        (value / by, value % by)
    } else {
        let n: i64 = -(value + 1);
        let q: i64 = n / by;
        let rest: i64 = n % by;
        proof {
            vstd::arithmetic::div_mod::lemma_fundamental_div_mod(n as int, by as int);
            vstd::arithmetic::div_mod::lemma_mod_bound(n as int, by as int);
            assert(value == by * (-q - 1) + (by - 1 - rest)) by (nonlinear_arith)
                requires
                    n == by * q + rest,
                    n == -(value + 1),
            ;
            vstd::arithmetic::div_mod::lemma_fundamental_div_mod_converse(
                value as int,
                by as int,
                -q - 1,
                by - 1 - rest,
            );
        }
        (-q - 1, by - 1 - rest)
    }
}

/// Days since 1 January 1970 to a civil `(year, month, day)`.
pub fn civil_from_days(days_since_epoch: i64) -> (r: (i64, u32, u32))
    requires
        days_since_epoch <= i64::MAX - 719_468,
    ensures
        (r.0 as int, r.1 as int, r.2 as int) == date_of(days_since_epoch as int),
        names_day((r.0 as int, r.1 as int, r.2 as int), days_since_epoch as int),
{
    // Shift the epoch to 1 March of year 0 so leap days land at the end of the cycle.
    let z: i64 = days_since_epoch + 719_468;
    let (era, day_of_era) = floor_div(z, 146_097);
    let ghost days = days_since_epoch as int;
    proof {
        lemma_year_of_era(day_of_era as int);
    }
    let year_of_era: i64 = (day_of_era - day_of_era / 1460 + day_of_era / 36_524 - day_of_era
        / 146_096) / 365;
    let year: i64 = year_of_era + era * 400;
    let day_of_year: i64 = day_of_era - (365 * year_of_era + year_of_era / 4 - year_of_era / 100);
    proof {
        lemma_month_of_march_year(day_of_year as int);
    }
    let mp: i64 = (5 * day_of_year + 2) / 153;
    let day: u32 = (day_of_year - (153 * mp + 2) / 5 + 1) as u32;
    let month: u32 = if mp < 10 {
        (mp + 3) as u32
    } else {
        (mp - 9) as u32
    };
    let date = (
        if month <= 2 {
            year + 1
        } else {
            year
        },
        month,
        day,
    );
    proof {
        lemma_march_date(days);
        assert((date.0 as int, date.1 as int, date.2 as int) == march_date(days));
        lemma_date_of_day_number(date.0 as int, date.1 as int, date.2 as int);
    }
    date
}

/// Inverse of [`civil_from_days`]. A month or day past the calendar's range
/// counts on from where the range ends.
pub fn days_from_civil(year: i64, month: u32, day: u32) -> (r: i64)
    requires
        i64::MIN <= counted_day(year as int, month as int, day as int) <= i64::MAX,
    ensures
        r == counted_day(year as int, month as int, day as int),
        1 <= month <= 12 ==> r == day_number(year as int, month as int, day as int),
{
    let year_in: i64 = year;
    proof {
        assert(i64::MIN < year < i64::MAX);
    }
    let year: i64 = if month <= 2 {
        year - 1
    } else {
        year
    };
    let (era, year_of_era) = floor_div(year, 400);
    let month_in: u32 = month;
    let month: i64 = month as i64;
    let mp: i64 = if month > 2 {
        month - 3
    } else {
        month + 9
    };
    let day_of_year: i64 = (153 * mp + 2) / 5 + day as i64 - 1;
    let day_of_era: i64 = year_of_era * 365 + year_of_era / 4 - year_of_era / 100 + day_of_year;
    proof {
        lemma_eras(year_of_era as int, era as int);
        if 1 <= month_in <= 12 {
            lemma_counted_day_is_day_number(year_in as int, month_in as int, day as int);
        }
    }
    let r: i128 = era as i128 * 146_097 + day_of_era as i128 - 719_468;
    r as i64
}

/// A day's date and time of day as RFC 3339, in UTC.
pub open spec fn timestamp(y: int, m: int, d: int, second_of_day: int) -> Seq<char> {
    text::padded(y, 4) + seq!['-'] + text::padded(m, 2) + seq!['-']
        + text::padded(d, 2) + seq!['T'] + text::padded(second_of_day / 3600, 2)
        + seq![':'] + text::padded((second_of_day % 3600) / 60, 2) + seq![':']
        + text::padded(second_of_day % 60, 2) + seq!['Z']
}

/// Epoch seconds as RFC 3339, in UTC.
pub open spec fn epoch_text(epoch_seconds: int) -> Seq<char> {
    let (y, m, d) = date_of(epoch_seconds / 86_400);
    timestamp(y, m, d, epoch_seconds % 86_400)
}

/// Format epoch seconds as RFC 3339 UTC.
pub fn format_epoch(epoch_seconds: i64) -> (r: String)
    ensures
        r@ == epoch_text(epoch_seconds as int),
{
    let (days, time_of_day) = floor_div(epoch_seconds, 86_400);
    let (year, month, day) = civil_from_days(days);
    let mut out = String::new();
    append_padded(&mut out, year, 4);
    out.push('-');
    append_padded(&mut out, month as i64, 2);
    out.push('-');
    append_padded(&mut out, day as i64, 2);
    out.push('T');
    append_padded(&mut out, time_of_day / 3600, 2);
    out.push(':');
    append_padded(&mut out, (time_of_day % 3600) / 60, 2);
    out.push(':');
    append_padded(&mut out, time_of_day % 60, 2);
    out.push('Z');
    proof {
        assert(out@ =~= timestamp(
            year as int,
            month as int,
            day as int,
            time_of_day as int,
        ));
    }
    out
}

/// The bytes from `lo` up to `hi`, each read as one character.
pub open spec fn field(bytes: Seq<u8>, lo: int, hi: int) -> Seq<char> {
    Seq::new((hi - lo) as nat, |i: int| bytes[lo + i] as char)
}

/// The number that the digits from `lo` up to `hi` write, if all are digits.
pub open spec fn number_at(bytes: Seq<u8>, lo: int, hi: int) -> Option<nat> {
    text::digits_value(field(bytes, lo, hi), 10)
}

/// Whether a byte is an ASCII digit.
pub open spec fn is_digit(b: u8) -> bool {
    '0' as u8 <= b <= '9' as u8
}

/// Whether a timestamp ends at position 19 as one in UTC does: in `Z`, or in a
/// fraction of at least one digit and `Z`.
pub open spec fn ends_in_utc(bytes: Seq<u8>) -> bool {
    &&& bytes.len() >= 20
    &&& bytes.last() == 'Z' as u8
    &&& bytes.len() > 20 ==> {
        &&& bytes.len() >= 22
        &&& bytes[19] == '.' as u8
        &&& forall|i: int| 20 <= i < bytes.len() - 1 ==> is_digit(#[trigger] bytes[i])
    }
}

/// Whether bytes have the layout `YYYY-MM-DDTHH:MM:SS[.fraction]Z`, whatever
/// stands in place of the numbers before the fraction.
pub open spec fn has_layout(bytes: Seq<u8>) -> bool {
    &&& ends_in_utc(bytes)
    &&& bytes[4] == '-' as u8
    &&& bytes[7] == '-' as u8
    &&& bytes[10] == 'T' as u8
    &&& bytes[13] == ':' as u8
    &&& bytes[16] == ':' as u8
}

/// The epoch seconds of a date and a time of day, if there are such.
pub open spec fn epoch_of(y: int, m: int, d: int, hour: int, minute: int, second: int) -> Option<
    int,
> {
    if is_date(y, m, d) && hour <= 23 && minute <= 59 && second <= 59 {
        Some(day_number(y, m, d) * 86_400 + hour * 3600 + minute * 60 + second)
    } else {
        None
    }
}

/// The epoch seconds that a timestamp writes, from its bytes: those of its
/// date and time of day. A fraction of a second is left out.
pub open spec fn written_epoch(bytes: Seq<u8>) -> Option<int> {
    if !has_layout(bytes) {
        None
    } else {
        match (
            (number_at(bytes, 0, 4), number_at(bytes, 5, 7), number_at(bytes, 8, 10)),
            (number_at(bytes, 11, 13), number_at(bytes, 14, 16), number_at(bytes, 17, 19)),
        ) {
            ((Some(year), Some(month), Some(day)), (Some(hour), Some(minute), Some(second))) =>
                epoch_of(
                year as int,
                month as int,
                day as int,
                hour as int,
                minute as int,
                second as int,
            ),
            _ => None,
        }
    }
}

fn read_number(bytes: &[u8], lo: usize, hi: usize) -> (r: Option<u32>)
    requires
        lo <= hi <= bytes.len(),
        hi - lo <= 4,
    ensures
        match r {
            Some(n) => number_at(bytes@, lo as int, hi as int) == Some(n as nat) && n <= 9999,
            None => number_at(bytes@, lo as int, hi as int) is None,
        },
{
    let mut out: Vec<char> = Vec::new();
    let mut i: usize = lo;
    while i < hi
        invariant
            lo <= i <= hi <= bytes.len(),
            out@ == field(bytes@, lo as int, i as int),
        decreases hi - i,
    {
        out.push(bytes[i] as char);
        i = i + 1;
        proof {
            assert(out@ =~= field(bytes@, lo as int, i as int));
        }
    }
    proof {
        reveal_with_fuel(text::pow10, 5);
        text::lemma_digits_below(out@);
    }
    match read_digits(out.as_slice(), 10) {
        Some(n) => Some(n as u32),
        None => None,
    }
}

fn ends_so(bytes: &[u8]) -> (r: bool)
    ensures
        r == ends_in_utc(bytes@),
{
    let n: usize = bytes.len();
    if n < 20 || bytes[n - 1] != 0x5a {
        return false;
    }
    if n == 20 {
        return true;
    }
    if n < 22 || bytes[19] != 0x2e {
        return false;
    }
    let mut i: usize = 20;
    while i < n - 1
        invariant
            22 <= n == bytes@.len(),
            20 <= i <= n - 1,
            forall|j: int| 20 <= j < i ==> is_digit(#[trigger] bytes@[j]),
        decreases n - i,
    {
        if bytes[i] < 0x30 || bytes[i] > 0x39 {
            proof {
                assert(!is_digit(bytes@[i as int]));
            }
            return false;
        }
        i = i + 1;
    }
    true
}

/// How many days month `month` of year `year` has.
fn month_length(year: u32, month: u32) -> (r: u32)
    ensures
        r == days_in_month(year as int, month as int),
{
    if month == 2 {
        if year % 4 == 0 && (year % 100 != 0 || year % 400 == 0) {
            29
        } else {
            28
        }
    } else if month == 4 || month == 6 || month == 9 || month == 11 {
        30
    } else {
        31
    }
}

/// Parse `2026-07-20T08:50:30.1234567Z` to seconds since the Unix epoch.
///
/// Only the shape the Windows event renderer emits is accepted; anything else
/// is `None` rather than a guess.
pub fn epoch_from_iso8601(value: &str) -> (r: Option<i64>)
    ensures
        match r {
            Some(seconds) => written_epoch(encode_utf8(value@)) == Some(seconds as int),
            None => written_epoch(encode_utf8(value@)) is None,
        },
{
    let bytes = value.as_bytes();
    if !ends_so(bytes) || bytes[4] != 0x2d || bytes[7] != 0x2d || bytes[10] != 0x54 || bytes[13]
        != 0x3a || bytes[16] != 0x3a {
        return None;
    }
    let year: u32 = read_number(bytes, 0, 4)?;
    let month: u32 = read_number(bytes, 5, 7)?;
    let day: u32 = read_number(bytes, 8, 10)?;
    let hour: u32 = read_number(bytes, 11, 13)?;
    let minute: u32 = read_number(bytes, 14, 16)?;
    let second: u32 = read_number(bytes, 17, 19)?;
    if month < 1 || month > 12 || day < 1 || day > month_length(year, month) || hour > 23 || minute
        > 59 || second > 59 {
        return None;
    }
    proof {
        lemma_counted_range(year as int, month as int, day as int);
    }
    let days: i64 = days_from_civil(year as i64, month, day);
    Some(days * 86_400 + hour as i64 * 3600 + minute as i64 * 60 + second as i64)
}

proof fn lemma_counted_range(y: int, m: int, d: int)
    requires
        0 <= y <= 9999,
        0 <= m <= 9999,
        0 <= d <= 9999,
    ensures
        -10_000_000 <= counted_day(y, m, d) <= 10_000_000,
{
}

/// The first second of year 0.
pub open spec fn first_second() -> int {
    -62_167_219_200
}

/// The last second of year 9999.
pub open spec fn last_second() -> int {
    253_402_300_799
}

/// The years 0 to 9999 are those between their first and their last second.
pub proof fn lemma_four_digit_years(epoch_seconds: int)
    ensures
        first_second() <= epoch_seconds <= last_second() <==> 0 <= date_of(
            epoch_seconds / 86_400,
        ).0 <= 9999,
{
    let days = epoch_seconds / 86_400;
    let (y, m, d) = date_of(days);
    lemma_every_day_has_a_date(days);
    lemma_within_year(y, m, d);
    assert(days_before_year(0) == -719_528);
    assert(days_before_year(10_000) == 2_932_897);
    if y < 0 {
        lemma_years_ascend(y + 1, 0);
    } else if y > 9999 {
        lemma_years_ascend(10_000, y);
    } else {
        lemma_years_ascend(0, y);
        lemma_years_ascend(y + 1, 10_000);
    }
}

/// Reading a formatted timestamp gives its seconds back, and it takes twenty
/// bytes, for the years whose number has at most four digits.
pub proof fn lemma_timestamps_round_trip(epoch_seconds: int)
    requires
        first_second() <= epoch_seconds <= last_second(),
    ensures
        written_epoch(encode_utf8(epoch_text(epoch_seconds))) == Some(epoch_seconds),
        encode_utf8(epoch_text(epoch_seconds)).len() == 20,
        has_layout(encode_utf8(epoch_text(epoch_seconds))),
{
    let days = epoch_seconds / 86_400;
    let tod = epoch_seconds % 86_400;
    let (y, m, d) = date_of(days);
    lemma_every_day_has_a_date(days);
    lemma_four_digit_years(epoch_seconds);
    let hour = tod / 3600;
    let minute = (tod % 3600) / 60;
    let second = tod % 60;
    assert(tod == hour * 3600 + minute * 60 + second);
    lemma_stamp_reads_back(y, m, d, hour, minute, second);
}

/// A timestamp from its six parts.
spec fn stamp(y: int, m: int, d: int, hour: int, minute: int, second: int) -> Seq<char> {
    text::padded(y, 4) + seq!['-'] + text::padded(m, 2) + seq!['-'] + text::padded(d, 2) + seq!['T']
        + text::padded(hour, 2) + seq![':'] + text::padded(minute, 2) + seq![':'] + text::padded(
        second,
        2,
    ) + seq!['Z']
}

proof fn lemma_stamp_reads_back(y: int, m: int, d: int, hour: int, minute: int, second: int)
    requires
        0 <= y <= 9999,
        0 <= m <= 99,
        0 <= d <= 99,
        0 <= hour <= 99,
        0 <= minute <= 99,
        0 <= second <= 99,
    ensures
        written_epoch(encode_utf8(stamp(y, m, d, hour, minute, second))) == epoch_of(
            y,
            m,
            d,
            hour,
            minute,
            second,
        ),
        encode_utf8(stamp(y, m, d, hour, minute, second)).len() == 20,
        has_layout(encode_utf8(stamp(y, m, d, hour, minute, second))),
{
    lemma_fits(y, 4);
    lemma_fits(m, 2);
    lemma_fits(d, 2);
    lemma_fits(hour, 2);
    lemma_fits(minute, 2);
    lemma_fits(second, 2);
    let text = stamp(y, m, d, hour, minute, second);
    lemma_stamp_layout(
        text::padded(y, 4),
        text::padded(m, 2),
        text::padded(d, 2),
        text::padded(hour, 2),
        text::padded(minute, 2),
        text::padded(second, 2),
        text,
    );
    is_ascii_chars_encode_utf8(text);
    let bytes = encode_utf8(text);
    assert forall|i: int| 0 <= i < 20 implies bytes[i] as char == #[trigger] text[i] by {}
    assert(field(bytes, 0, 4) =~= text.subrange(0, 4));
    assert(field(bytes, 5, 7) =~= text.subrange(5, 7));
    assert(field(bytes, 8, 10) =~= text.subrange(8, 10));
    assert(field(bytes, 11, 13) =~= text.subrange(11, 13));
    assert(field(bytes, 14, 16) =~= text.subrange(14, 16));
    assert(field(bytes, 17, 19) =~= text.subrange(17, 19));
    assert(text[4] == '-' && text[7] == '-' && text[10] == 'T');
    assert(text[13] == ':' && text[16] == ':' && text[19] == 'Z');
}

proof fn lemma_stamp_layout(
    y: Seq<char>,
    m: Seq<char>,
    d: Seq<char>,
    hour: Seq<char>,
    minute: Seq<char>,
    second: Seq<char>,
    text: Seq<char>,
)
    requires
        y.len() == 4,
        m.len() == 2,
        d.len() == 2,
        hour.len() == 2,
        minute.len() == 2,
        second.len() == 2,
        is_ascii_chars(y) && is_ascii_chars(m) && is_ascii_chars(d) && is_ascii_chars(hour)
            && is_ascii_chars(minute) && is_ascii_chars(second),
        text == y + seq!['-'] + m + seq!['-'] + d + seq!['T'] + hour + seq![':'] + minute
            + seq![':'] + second + seq!['Z'],
    ensures
        text.len() == 20,
        is_ascii_chars(text),
        text.subrange(0, 4) == y,
        text[4] == '-',
        text.subrange(5, 7) == m,
        text[7] == '-',
        text.subrange(8, 10) == d,
        text[10] == 'T',
        text.subrange(11, 13) == hour,
        text[13] == ':',
        text.subrange(14, 16) == minute,
        text[16] == ':',
        text.subrange(17, 19) == second,
        text[19] == 'Z',
{
    assert(text.subrange(0, 4) =~= y);
    assert(text.subrange(5, 7) =~= m);
    assert(text.subrange(8, 10) =~= d);
    assert(text.subrange(11, 13) =~= hour);
    assert(text.subrange(14, 16) =~= minute);
    assert(text.subrange(17, 19) =~= second);
}

proof fn lemma_fits(i: int, width: nat)
    requires
        width == 4 && 0 <= i <= 9999 || width == 2 && 0 <= i <= 99,
    ensures
        text::padded(i, width).len() == width,
        is_ascii_chars(text::padded(i, width)),
        text::digits_value(text::padded(i, width), 10) == Some(i as nat),
{
    reveal_with_fuel(text::pow10, 5);
    text::lemma_decimal_len_below(i as nat, width);
    text::lemma_padded_reads_back(i as nat, width);
}

// ---------------------------------------------------------------------------
// The order of timestamps
// ---------------------------------------------------------------------------

/// Of two times of the years 0 to 9999 the later one has the timestamp that
/// comes later, by its characters and by its bytes.
pub proof fn lemma_timestamps_ascend(earlier: int, later: int)
    requires
        first_second() <= earlier < later <= last_second(),
    ensures
        ordered::text_less(epoch_text(earlier), epoch_text(later)),
        exists|i: int| #[trigger]
            bytes_differ_at(encode_utf8(epoch_text(earlier)), encode_utf8(epoch_text(later)), i),
{
    let (y1, m1, d1) = date_of(earlier / 86_400);
    let (y2, m2, d2) = date_of(later / 86_400);
    lemma_every_day_has_a_date(earlier / 86_400);
    lemma_every_day_has_a_date(later / 86_400);
    lemma_four_digit_years(earlier);
    lemma_four_digit_years(later);
    let t1 = earlier % 86_400;
    let t2 = later % 86_400;
    if earlier / 86_400 < later / 86_400 {
        lemma_dates_ascend(y1, m1, d1, y2, m2, d2);
    } else {
        assert(t1 < t2);
        lemma_hours_ascend(t1, t2);
    }
    lemma_stamps_stand_apart(
        (y1, m1, d1),
        (t1 / 3600, (t1 % 3600) / 60, t1 % 60),
        (y2, m2, d2),
        (t2 / 3600, (t2 % 3600) / 60, t2 % 60),
    );
}

proof fn lemma_hours_ascend(t1: int, t2: int)
    requires
        0 <= t1 < t2 < 86_400,
    ensures
        t1 / 3600 < t2 / 3600 || t1 / 3600 == t2 / 3600 && ((t1 % 3600) / 60 < (t2 % 3600) / 60 || (
        t1 % 3600) / 60 == (t2 % 3600) / 60 && t1 % 60 < t2 % 60),
{
}

/// The timestamps of two moments, the first of which is earlier, come in that
/// order.
proof fn lemma_stamps_stand_apart(
    date1: (int, int, int),
    time1: (int, int, int),
    date2: (int, int, int),
    time2: (int, int, int),
)
    requires
        are_parts(date1, time1),
        are_parts(date2, time2),
        parts_less(date1, time1, date2, time2),
    ensures
        ({
            let a = stamp(date1.0, date1.1, date1.2, time1.0, time1.1, time1.2);
            let b = stamp(date2.0, date2.1, date2.2, time2.0, time2.1, time2.2);
            &&& ordered::text_less(a, b)
            &&& exists|i: int| #[trigger] bytes_differ_at(encode_utf8(a), encode_utf8(b), i)
        }),
{
    let a = stamp(date1.0, date1.1, date1.2, time1.0, time1.1, time1.2);
    let b = stamp(date2.0, date2.1, date2.2, time2.0, time2.1, time2.2);
    let i = lemma_stamps_ascend(date1, time1, date2, time2);
    assert(ordered::less_at(a, b, i));
    lemma_stamp_is_ascii(date1.0, date1.1, date1.2, time1.0, time1.1, time1.2);
    lemma_stamp_is_ascii(date2.0, date2.1, date2.2, time2.0, time2.1, time2.2);
    is_ascii_chars_encode_utf8(a);
    is_ascii_chars_encode_utf8(b);
    assert(bytes_differ_at(encode_utf8(a), encode_utf8(b), i));
}

spec fn are_parts(date: (int, int, int), time: (int, int, int)) -> bool {
    &&& 0 <= date.0 <= 9999
    &&& 0 <= date.1 <= 99
    &&& 0 <= date.2 <= 99
    &&& 0 <= time.0 <= 99
    &&& 0 <= time.1 <= 99
    &&& 0 <= time.2 <= 99
}

spec fn parts_less(
    date1: (int, int, int),
    time1: (int, int, int),
    date2: (int, int, int),
    time2: (int, int, int),
) -> bool {
    date1.0 < date2.0 || date1.0 == date2.0 && (date1.1 < date2.1 || date1.1 == date2.1 && (date1.2
        < date2.2 || date1.2 == date2.2 && (time1.0 < time2.0 || time1.0 == time2.0 && (time1.1
        < time2.1 || time1.1 == time2.1 && time1.2 < time2.2))))
}

/// Whether two byte strings agree before position `i`, and `a` has the smaller
/// byte there.
pub open spec fn bytes_differ_at(a: Seq<u8>, b: Seq<u8>, i: int) -> bool {
    &&& 0 <= i < a.len()
    &&& i < b.len()
    &&& a[i] < b[i]
    &&& forall|j: int| 0 <= j < i ==> a[j] == b[j]
}

proof fn lemma_dates_ascend(y1: int, m1: int, d1: int, y2: int, m2: int, d2: int)
    requires
        is_date(y1, m1, d1),
        is_date(y2, m2, d2),
        day_number(y1, m1, d1) < day_number(y2, m2, d2),
    ensures
        y1 < y2 || y1 == y2 && (m1 < m2 || m1 == m2 && d1 < d2),
{
    lemma_within_year(y1, m1, d1);
    lemma_within_year(y2, m2, d2);
    if y2 < y1 {
        lemma_years_ascend(y2 + 1, y1);
    } else if y1 == y2 {
        lemma_months(y1);
    }
}

proof fn lemma_stamp_is_ascii(y: int, m: int, d: int, hour: int, minute: int, second: int)
    requires
        0 <= y <= 9999,
        0 <= m <= 99,
        0 <= d <= 99,
        0 <= hour <= 99,
        0 <= minute <= 99,
        0 <= second <= 99,
    ensures
        is_ascii_chars(stamp(y, m, d, hour, minute, second)),
        stamp(y, m, d, hour, minute, second).len() == 20,
{
    lemma_fits(y, 4);
    lemma_fits(m, 2);
    lemma_fits(d, 2);
    lemma_fits(hour, 2);
    lemma_fits(minute, 2);
    lemma_fits(second, 2);
    lemma_stamp_layout(
        text::padded(y, 4),
        text::padded(m, 2),
        text::padded(d, 2),
        text::padded(hour, 2),
        text::padded(minute, 2),
        text::padded(second, 2),
        stamp(y, m, d, hour, minute, second),
    );
}

/// Where the timestamps of two moments, the first of which is earlier, differ
/// first.
proof fn lemma_stamps_ascend(
    date1: (int, int, int),
    time1: (int, int, int),
    date2: (int, int, int),
    time2: (int, int, int),
) -> (i: int)
    requires
        are_parts(date1, time1),
        are_parts(date2, time2),
        parts_less(date1, time1, date2, time2),
    ensures
        0 <= i < 20,
        ordered::less_at(
            stamp(date1.0, date1.1, date1.2, time1.0, time1.1, time1.2),
            stamp(date2.0, date2.1, date2.2, time2.0, time2.1, time2.2),
            i,
        ),
{
    lemma_stamp_is_ascii(date1.0, date1.1, date1.2, time1.0, time1.1, time1.2);
    lemma_stamp_is_ascii(date2.0, date2.1, date2.2, time2.0, time2.1, time2.2);
    lemma_fits(date1.0, 4);
    lemma_fits(date2.0, 4);
    lemma_fits(date1.1, 2);
    lemma_fits(date2.1, 2);
    lemma_fits(date1.2, 2);
    lemma_fits(date2.2, 2);
    lemma_fits(time1.0, 2);
    lemma_fits(time2.0, 2);
    lemma_fits(time1.1, 2);
    lemma_fits(time2.1, 2);
    lemma_fits(time1.2, 2);
    lemma_fits(time2.2, 2);
    if date1.0 < date2.0 {
        lemma_numbers_ascend(date1.0, date2.0, 4)
    } else if date1.1 < date2.1 {
        5 + lemma_numbers_ascend(date1.1, date2.1, 2)
    } else if date1.2 < date2.2 {
        8 + lemma_numbers_ascend(date1.2, date2.2, 2)
    } else if time1.0 < time2.0 {
        11 + lemma_numbers_ascend(time1.0, time2.0, 2)
    } else if time1.1 < time2.1 {
        14 + lemma_numbers_ascend(time1.1, time2.1, 2)
    } else {
        17 + lemma_numbers_ascend(time1.2, time2.2, 2)
    }
}

proof fn lemma_numbers_ascend(a: int, b: int, width: nat) -> (i: int)
    requires
        width == 4 && 0 <= a < b <= 9999 || width == 2 && 0 <= a < b <= 99,
    ensures
        0 <= i < width,
        ordered::less_at(text::padded(a, width), text::padded(b, width), i),
{
    lemma_fits(a, width);
    lemma_fits(b, width);
    lemma_digits_ascend(text::padded(a, width), text::padded(b, width))
}

/// Of two numbers with equally many digits, the smaller has the smaller digit
/// where they first differ.
proof fn lemma_digits_ascend(a: Seq<char>, b: Seq<char>) -> (i: int)
    requires
        a.len() == b.len(),
        text::digits_value(a, 10) is Some,
        text::digits_value(b, 10) is Some,
        text::digits_value(a, 10)->0 < text::digits_value(b, 10)->0,
    ensures
        0 <= i < a.len(),
        ordered::less_at(a, b, i),
        a[i] < b[i],
    decreases a.len(),
{
    let heads = (a.drop_last(), b.drop_last());
    let (x, y) = (text::digits_value(heads.0, 10)->0, text::digits_value(heads.1, 10)->0);
    if x < y {
        let i = lemma_digits_ascend(heads.0, heads.1);
        assert forall|j: int| 0 <= j < i implies a[j] == b[j] by {
            assert(heads.0[j] == heads.1[j]);
        }
        i
    } else {
        lemma_digits_are_unique(heads.0, heads.1);
        assert forall|j: int| 0 <= j < a.len() - 1 implies a[j] == b[j] by {
            assert(heads.0[j] == heads.1[j]);
        }
        a.len() - 1
    }
}

/// Equally many digits that write the same number are the same.
proof fn lemma_digits_are_unique(a: Seq<char>, b: Seq<char>)
    requires
        a.len() == b.len(),
        text::digits_value(a, 10) is Some,
        text::digits_value(a, 10) == text::digits_value(b, 10),
    ensures
        a == b,
    decreases a.len(),
{
    if a.len() > 0 {
        lemma_digits_are_unique(a.drop_last(), b.drop_last());
        assert(a =~= a.drop_last().push(a.last()));
        assert(b =~= b.drop_last().push(b.last()));
    } else {
        assert(a =~= b);
    }
}

// ---------------------------------------------------------------------------
// The wall clock
// ---------------------------------------------------------------------------

/// A reading of the wall clock.
#[verifier::external_type_specification]
#[verifier::external_body]
pub struct ExSystemTime(SystemTime);

/// What a reading before another one gives instead of a distance.
#[verifier::external_type_specification]
#[verifier::external_body]
pub struct ExSystemTimeError(SystemTimeError);

/// Where a reading of the wall clock lies, in nanoseconds from the Unix epoch.
pub uninterp spec fn clock_nanos(reading: SystemTime) -> int;

/// How many nanoseconds a duration lasts.
pub uninterp spec fn duration_nanos(duration: Duration) -> nat;

/// `SystemTime::now` reads the wall clock; nothing is known of the reading.
#[verifier::external_body]
fn wall_clock() -> (r: SystemTime) {
    SystemTime::now()
}

/// `SystemTime::duration_since` gives the distance from `earlier`, or an error
/// where `earlier` is the later of the two.
pub assume_specification[ SystemTime::duration_since ](
    reading: &SystemTime,
    earlier: SystemTime,
) -> (r: Result<Duration, SystemTimeError>)
    ensures
        match r {
            Ok(d) => duration_nanos(d) == clock_nanos(*reading) - clock_nanos(earlier),
            Err(_) => clock_nanos(*reading) < clock_nanos(earlier),
        },
;

/// `Duration::from_secs` makes a duration of whole seconds.
pub assume_specification[ Duration::from_secs ](secs: u64) -> (r: Duration)
    ensures
        duration_nanos(r) == secs * 1_000_000_000,
;

/// `Duration::as_secs` counts the whole seconds of a duration.
pub assume_specification[ Duration::as_secs ](duration: &Duration) -> (r: u64)
    ensures
        r == duration_nanos(*duration) / 1_000_000_000,
;

/// `Duration::as_millis` counts the whole milliseconds of a duration.
pub assume_specification[ Duration::as_millis ](duration: &Duration) -> (r: u128)
    ensures
        r == duration_nanos(*duration) / 1_000_000,
;

/// `std::time::UNIX_EPOCH`, from which clock readings are counted.
#[verifier::external_body]
fn unix_epoch() -> (r: SystemTime)
    ensures
        clock_nanos(r) == 0,
{
    std::time::UNIX_EPOCH
}

/// Seconds since the Unix epoch at a reading of the wall clock. A clock that
/// is set before the epoch reads zero.
pub open spec fn seconds_at(reading: SystemTime) -> i64 {
    if clock_nanos(reading) < 0 {
        0
    } else {
        (clock_nanos(reading) / 1_000_000_000) as u64 as i64
    }
}

/// Seconds since the Unix epoch at `reading`.
pub fn epoch_seconds_at(reading: SystemTime) -> (r: i64)
    ensures
        r == seconds_at(reading),
{
    match reading.duration_since(unix_epoch()) {
        Ok(d) => d.as_secs() as i64,
        Err(_) => 0,
    }
}

/// Seconds since the Unix epoch.
pub fn now_epoch_seconds() -> (r: i64)
    ensures
        exists|reading: SystemTime| r == #[trigger] seconds_at(reading),
{
    let reading = wall_clock();
    let seconds: i64 = epoch_seconds_at(reading);
    proof {
        assert(seconds == seconds_at(reading));
    }
    seconds
}

/// Current UTC time as RFC 3339, e.g. `2026-07-20T08:50:30Z`.
pub fn now_iso8601() -> (r: String)
    ensures
        exists|reading: SystemTime| r@ == epoch_text(#[trigger] seconds_at(reading) as int),
{
    format_epoch(now_epoch_seconds())
}

// ---------------------------------------------------------------------------
// Laws of the calendar and of reading it
// ---------------------------------------------------------------------------

/// Days follow each other: within a month, from the last day of one to the first
/// of the next, and from the last of a year to the first of the next. The count
/// starts on 1 January 1970.
pub proof fn lemma_days_follow_each_other(y: int, m: int, d: int)
    requires
        1 <= m <= 12,
    ensures
        day_number(1970, 1, 1) == 0,
        day_number(y, m, d + 1) == day_number(y, m, d) + 1,
        m < 12 ==> day_number(y, m + 1, 1) == day_number(y, m, days_in_month(y, m)) + 1,
        day_number(y + 1, 1, 1) == day_number(y, 12, 31) + 1,
{
    lemma_years_follow(y);
    lemma_months(y);
    reveal_with_fuel(days_before_month, 13);
}

/// How long the months are. February has a day more in one year of four, unless
/// that year ends a century whose number four does not divide; four centuries
/// are always of one length.
pub proof fn lemma_months_have_their_lengths(y: int)
    ensures
        forall|m: int|
            #![trigger days_in_month(y, m)]
            m == 1 || m == 3 || m == 5 || m == 7 || m == 8 || m == 10 || m == 12
                ==> days_in_month(y, m) == 31,
        forall|m: int|
            #![trigger days_in_month(y, m)]
            m == 4 || m == 6 || m == 9 || m == 11 ==> days_in_month(y, m) == 30,
        y % 4 != 0 ==> days_in_month(y, 2) == 28,
        y % 4 == 0 && y % 100 != 0 ==> days_in_month(y, 2) == 29,
        y % 100 == 0 && y % 400 != 0 ==> days_in_month(y, 2) == 28,
        y % 400 == 0 ==> days_in_month(y, 2) == 29,
        days_before_year(y + 400) - days_before_year(y) == 146_097,
{
}

/// A timestamp of such numbers is read exactly where they are a date and a time
/// of day, as the seconds since the epoch.
pub proof fn lemma_timestamps_are_checked(
    y: int,
    m: int,
    d: int,
    hour: int,
    minute: int,
    second: int,
)
    requires
        0 <= y <= 9999,
        0 <= m <= 99,
        0 <= d <= 99,
        0 <= hour <= 99,
        0 <= minute <= 99,
        0 <= second <= 99,
    ensures
        ({
            let written = text::padded(y, 4) + seq!['-'] + text::padded(m, 2) + seq!['-']
                + text::padded(d, 2) + seq!['T'] + text::padded(hour, 2) + seq![':']
                + text::padded(minute, 2) + seq![':'] + text::padded(second, 2) + seq!['Z'];
            let read = written_epoch(encode_utf8(written));
            &&& read is Some <==> 1 <= m && m <= 12 && 1 <= d && d <= days_in_month(y, m) && hour
                < 24 && minute < 60 && second < 60
            &&& read matches Some(seconds) ==> seconds == 86_400 * day_number(y, m, d) + 3_600
                * hour + 60 * minute + second
        }),
{
    lemma_stamp_reads_back(y, m, d, hour, minute, second);
}

/// A fraction of a second changes nothing, however many digits it has; one
/// without a digit, or a time that is not marked as UTC, is not read.
pub proof fn lemma_fractions_are_left_out(head: Seq<u8>, fraction: Seq<u8>, end: Seq<u8>)
    requires
        head.len() == 19,
        fraction.len() > 0,
        forall|i: int| 0 <= i < fraction.len() ==> 0x30 <= #[trigger] fraction[i] <= 0x39,
    ensures
        written_epoch(head + seq![0x2eu8] + fraction + seq![0x5au8]) == written_epoch(
            head + seq![0x5au8],
        ),
        written_epoch(head + seq![0x2eu8, 0x5au8]) is None,
        end.len() == 0 || end.last() != 0x5a ==> written_epoch(head + end) is None,
{
    let bare = head + seq![0x5au8];
    let full = head + seq![0x2eu8] + fraction + seq![0x5au8];
    assert(full[19] == 0x2e);
    assert(full.last() == 0x5a);
    assert(bare.last() == 0x5a);
    assert forall|i: int| 20 <= i < full.len() - 1 implies is_digit(#[trigger] full[i]) by {
        assert(full[i] == fraction[i - 20]);
    }
    assert forall|i: int| 0 <= i < 19 implies #[trigger] full[i] == bare[i] by {
        assert(full[i] == head[i]);
        assert(bare[i] == head[i]);
    }
    assert(full[4] == bare[4] && full[7] == bare[7] && full[10] == bare[10]);
    assert(full[13] == bare[13] && full[16] == bare[16]);
    assert(field(full, 0, 4) =~= field(bare, 0, 4));
    assert(field(full, 5, 7) =~= field(bare, 5, 7));
    assert(field(full, 8, 10) =~= field(bare, 8, 10));
    assert(field(full, 11, 13) =~= field(bare, 11, 13));
    assert(field(full, 14, 16) =~= field(bare, 14, 16));
    assert(field(full, 17, 19) =~= field(bare, 17, 19));
    let point = head + seq![0x2eu8, 0x5au8];
    assert(point.len() == 21);
    let other = head + end;
    if end.len() > 0 {
        assert(other.last() == end.last());
    }
}

/// A reading of the clock is in whole seconds since the epoch, and zero before
/// it.
pub proof fn lemma_clocks_read_whole_seconds(reading: SystemTime)
    ensures
        clock_nanos(reading) < 0 ==> seconds_at(reading) == 0,
        0 <= clock_nanos(reading) < 9_223_372_036_854_775_807_000_000_000 ==> {
            &&& seconds_at(reading) >= 0
            &&& 0 <= clock_nanos(reading) - seconds_at(reading) * 1_000_000_000 < 1_000_000_000
        },
{
}

/// A timestamp has its marks where they belong, and nothing else is one.
pub proof fn lemma_timestamps_have_their_marks(bytes: Seq<u8>)
    requires
        written_epoch(bytes) is Some,
    ensures
        bytes.len() >= 20,
        bytes[4] == 0x2d && bytes[7] == 0x2d,
        bytes[10] == 0x54,
        bytes[13] == 0x3a && bytes[16] == 0x3a,
        bytes.last() == 0x5a,
        bytes.len() != 21,
        bytes.len() > 20 ==> bytes[19] == 0x2e,
        number_at(bytes, 0, 4) is Some && number_at(bytes, 5, 7) is Some && number_at(
            bytes,
            8,
            10,
        ) is Some,
        number_at(bytes, 11, 13) is Some && number_at(bytes, 14, 16) is Some && number_at(
            bytes,
            17,
            19,
        ) is Some,
{
}

} // verus!
