//! The date line of a response: a point in time, to the second, in the
//! fixed-length format of HTTP, such as `Wed, 01 Jan 2025 00:00:00 GMT`.
//!
//! Time is counted in seconds from the start of 1 January 1970, a Thursday,
//! in the Gregorian calendar and without leap seconds.

use crate::buffer::{buffer_extend, buffer_len, bytes_mut_contents};
use bytes::BytesMut;
use vstd::prelude::*;

verus! {

/// The length of a date line in bytes.
pub const DATE_VALUE_LENGTH: usize = 29;

/// The seconds of one day.
pub const SECS_PER_DAY: u64 = 86400;

/// The first year that does not fit the four digits of a date line.
pub const YEAR_END: u64 = 10000;

/// The number of days from the start of 1970 to the start of that year.
pub const DAYS_END: u64 = 2932897;

/// Whether `y` is a leap year.
pub open spec fn leap(y: int) -> bool {
    y % 4 == 0 && (y % 100 != 0 || y % 400 == 0)
}

/// The number of days of the year `y`.
pub open spec fn year_len(y: int) -> int {
    if leap(y) {
        366
    } else {
        365
    }
}

/// The number of days of the month `m` of the year `y`.
pub open spec fn month_len(y: int, m: int) -> int {
    if m == 2 {
        if leap(y) {
            29
        } else {
            28
        }
    } else if m == 4 || m == 6 || m == 9 || m == 11 {
        30
    } else {
        31
    }
}

/// The number of days from the start of 1970 to the start of the year `y`.
pub open spec fn days_before_year(y: int) -> int
    decreases y,
{
    if y <= 1970 {
        0
    } else {
        days_before_year(y - 1) + year_len(y - 1)
    }
}

/// The number of days from the start of the year `y` to the start of its
/// month `m`.
pub open spec fn days_before_month(y: int, m: int) -> int
    decreases m,
{
    if m <= 1 {
        0
    } else {
        days_before_month(y, m - 1) + month_len(y, m - 1)
    }
}

/// Whether `d` is a day of the month `m` of a year `y` from 1970 on.
pub open spec fn is_date(y: int, m: int, d: int) -> bool {
    1970 <= y && 1 <= m <= 12 && 1 <= d <= month_len(y, m)
}

/// The number of days from 1 January 1970 to the day `d` of the month `m`
/// of the year `y`.
pub open spec fn day_number(y: int, m: int, d: int) -> int {
    days_before_year(y) + days_before_month(y, m) + (d - 1)
}

/// The year, the month and the day of the month of the day that lies
/// `days` days after 1 January 1970.
pub open spec fn civil(days: int) -> (int, int, int) {
    choose|c: (int, int, int)| is_date(c.0, c.1, c.2) && day_number(c.0, c.1, c.2) == days
}

/// The three letters of the day of the week `w`, where 0 is Sunday.
pub open spec fn weekday_name(w: int) -> Seq<u8> {
    if w == 0 {
        seq!['S' as u8, 'u' as u8, 'n' as u8]
    } else if w == 1 {
        seq!['M' as u8, 'o' as u8, 'n' as u8]
    } else if w == 2 {
        seq!['T' as u8, 'u' as u8, 'e' as u8]
    } else if w == 3 {
        seq!['W' as u8, 'e' as u8, 'd' as u8]
    } else if w == 4 {
        seq!['T' as u8, 'h' as u8, 'u' as u8]
    } else if w == 5 {
        seq!['F' as u8, 'r' as u8, 'i' as u8]
    } else {
        seq!['S' as u8, 'a' as u8, 't' as u8]
    }
}

/// The three letters of the month `m`, where 1 is January.
pub open spec fn month_name(m: int) -> Seq<u8> {
    if m == 1 {
        seq!['J' as u8, 'a' as u8, 'n' as u8]
    } else if m == 2 {
        seq!['F' as u8, 'e' as u8, 'b' as u8]
    } else if m == 3 {
        seq!['M' as u8, 'a' as u8, 'r' as u8]
    } else if m == 4 {
        seq!['A' as u8, 'p' as u8, 'r' as u8]
    } else if m == 5 {
        seq!['M' as u8, 'a' as u8, 'y' as u8]
    } else if m == 6 {
        seq!['J' as u8, 'u' as u8, 'n' as u8]
    } else if m == 7 {
        seq!['J' as u8, 'u' as u8, 'l' as u8]
    } else if m == 8 {
        seq!['A' as u8, 'u' as u8, 'g' as u8]
    } else if m == 9 {
        seq!['S' as u8, 'e' as u8, 'p' as u8]
    } else if m == 10 {
        seq!['O' as u8, 'c' as u8, 't' as u8]
    } else if m == 11 {
        seq!['N' as u8, 'o' as u8, 'v' as u8]
    } else {
        seq!['D' as u8, 'e' as u8, 'c' as u8]
    }
}

/// The decimal digit of `n` at the place of `place`, which is a power of
/// ten, as a character.
pub open spec fn digit(n: int, place: int) -> u8 {
    (('0' as u8) + n / place % 10) as u8
}

/// The date line for the second `ss` of the minute `mm` of the hour `hh` of
/// the day `d` of the month `m` of the year `y`, a day `w` of the week.
pub open spec fn date_line(w: int, d: int, m: int, y: int, hh: int, mm: int, ss: int) -> Seq<u8> {
    weekday_name(w) + seq![',' as u8, ' ' as u8, digit(d, 10), digit(d, 1), ' ' as u8] + month_name(m)
        + seq![
        ' ' as u8,
        digit(y, 1000),
        digit(y, 100),
        digit(y, 10),
        digit(y, 1),
        ' ' as u8,
        digit(hh, 10),
        digit(hh, 1),
        ':' as u8,
        digit(mm, 10),
        digit(mm, 1),
        ':' as u8,
        digit(ss, 10),
        digit(ss, 1),
        ' ' as u8,
        'G' as u8,
        'M' as u8,
        'T' as u8,
    ]
}

/// The date line of the point in time `secs` seconds after the start of
/// 1 January 1970.
pub open spec fn http_date(secs: int) -> Seq<u8> {
    let days = secs / 86400;
    let rest = secs % 86400;
    let (y, m, d) = civil(days);
    date_line((days + 4) % 7, d, m, y, rest / 3600, rest % 3600 / 60, rest % 60)
}

/// A year begins where the year before it ends.
pub proof fn lemma_year_starts(y: int)
    requires
        1970 <= y,
    ensures
        days_before_year(y + 1) == days_before_year(y) + year_len(y),
        0 <= days_before_year(y),
    decreases y,
{
    if y > 1970 {
        lemma_year_starts(y - 1);
    }
}

/// The number of days before a year, counted out: 365 for every year since
/// 1970 and one more for every leap year among them.
pub proof fn lemma_days_before_year(y: int)
    requires
        1970 <= y,
    ensures
        days_before_year(y) == 365 * (y - 1970) + (y - 1) / 4 - (y - 1) / 100 + (y - 1) / 400
            - 477,
    decreases y,
{
    if y > 1970 {
        lemma_days_before_year(y - 1);
    }
}

/// The four-digit years end 2932897 days after the start of 1970.
pub proof fn lemma_days_end()
    ensures
        days_before_year(YEAR_END as int) == DAYS_END,
{
    lemma_days_before_year(YEAR_END as int);
}

/// A later year begins no earlier than the year before it ends.
pub proof fn lemma_years_in_order(y1: int, y2: int)
    requires
        1970 <= y1 < y2,
    ensures
        days_before_year(y1) + year_len(y1) <= days_before_year(y2),
    decreases y2,
{
    lemma_year_starts(y1);
    if y1 + 1 < y2 {
        lemma_years_in_order(y1, y2 - 1);
        lemma_year_starts(y2 - 1);
    }
}

/// A later month begins no earlier than the month before it ends, and the
/// twelve months make up the year.
pub proof fn lemma_months_in_order(y: int, m1: int, m2: int)
    requires
        1 <= m1 < m2 <= 13,
    ensures
        0 <= days_before_month(y, m1),
        days_before_month(y, m1) + month_len(y, m1) <= days_before_month(y, m2),
        days_before_month(y, 13) == year_len(y),
    decreases m2,
{
    reveal_with_fuel(days_before_month, 14);
    if m1 + 1 < m2 {
        lemma_months_in_order(y, m1, m2 - 1);
    }
}

/// Every day of a year lies within the days of that year.
pub proof fn lemma_day_within_year(y: int, m: int, d: int)
    requires
        is_date(y, m, d),
    ensures
        days_before_year(y) <= day_number(y, m, d) < days_before_year(y) + year_len(y),
{
    lemma_months_in_order(y, m, 13);
}

/// No two days have the same number.
pub proof fn lemma_day_number_is_one_to_one(a: (int, int, int), b: (int, int, int))
    requires
        is_date(a.0, a.1, a.2),
        is_date(b.0, b.1, b.2),
        day_number(a.0, a.1, a.2) == day_number(b.0, b.1, b.2),
    ensures
        a == b,
{
    lemma_day_within_year(a.0, a.1, a.2);
    lemma_day_within_year(b.0, b.1, b.2);
    if a.0 < b.0 {
        lemma_years_in_order(a.0, b.0);
    } else if b.0 < a.0 {
        lemma_years_in_order(b.0, a.0);
    } else if a.1 < b.1 {
        lemma_months_in_order(a.0, a.1, b.1);
        lemma_months_in_order(a.0, b.1, 13);
    } else if b.1 < a.1 {
        lemma_months_in_order(a.0, b.1, a.1);
        lemma_months_in_order(a.0, a.1, 13);
    }
}

/// The day with a given number is the one day that has it.
pub proof fn lemma_civil(days: int, y: int, m: int, d: int)
    requires
        is_date(y, m, d),
        day_number(y, m, d) == days,
    ensures
        civil(days) == (y, m, d),
{
    let c = (y, m, d);
    assert(is_date(c.0, c.1, c.2) && day_number(c.0, c.1, c.2) == days);
    lemma_day_number_is_one_to_one(civil(days), c);
}

/// Whether `y` is a leap year.
pub fn is_leap(y: u64) -> (b: bool)
    ensures
        b == leap(y as int),
{
    y % 4 == 0 && (y % 100 != 0 || y % 400 == 0)
}

/// The number of days of the year `y`.
pub fn days_in_year(y: u64) -> (n: u64)
    ensures
        n == year_len(y as int),
{
    if is_leap(y) {
        366
    } else {
        365
    }
}

/// The number of days of the month `m` of the year `y`.
pub fn days_in_month(y: u64, m: u64) -> (n: u64)
    ensures
        n == month_len(y as int, m as int),
{
    if m == 2 {
        if is_leap(y) {
            29
        } else {
            28
        }
    } else if m == 4 || m == 6 || m == 9 || m == 11 {
        30
    } else {
        31
    }
}

/// The year, the month and the day of the month of the day that lies
/// `days` days after 1 January 1970, as long as the year has four digits.
pub fn civil_from_days(days: u64) -> (r: Option<(u64, u64, u64)>)
    ensures
        r is Some <==> days < DAYS_END,
        r matches Some(c) ==> civil(days as int) == (c.0 as int, c.1 as int, c.2 as int)
            && is_date(c.0 as int, c.1 as int, c.2 as int) && c.0 < YEAR_END,
{
    if days >= DAYS_END {
        return None;
    }
    let mut y: u64 = 1970;
    let mut rest: u64 = days;
    proof {
        lemma_days_end();
    }
    while rest >= days_in_year(y)
        invariant
            1970 <= y < YEAR_END,
            days_before_year(y as int) + rest == days,
            days < days_before_year(YEAR_END as int),
        decreases rest,
    {
        proof {
            lemma_year_starts(y as int);
            if y + 1 < YEAR_END {
                lemma_years_in_order(y + 1, YEAR_END as int);
            }
        }
        rest = rest - days_in_year(y);
        y = y + 1;
    }
    let mut m: u64 = 1;
    let ghost in_year = rest;
    while m < 12 && rest >= days_in_month(y, m)
        invariant
            1 <= m <= 12,
            days_before_month(y as int, m as int) + rest == in_year,
            in_year < year_len(y as int),
        decreases 12 - m,
    {
        rest = rest - days_in_month(y, m);
        m = m + 1;
    }
    proof {
        lemma_months_in_order(y as int, m as int, 13);
        lemma_civil(days as int, y as int, m as int, rest + 1);
    }
    Some((y, m, rest + 1))
}

/// The three letters of the day of the week `w`, where 0 is Sunday.
fn weekday_letters(w: u64) -> (r: [u8; 3])
    ensures
        r@ == weekday_name(w as int),
{
    if w == 0 {
        ['S' as u8, 'u' as u8, 'n' as u8]
    } else if w == 1 {
        ['M' as u8, 'o' as u8, 'n' as u8]
    } else if w == 2 {
        ['T' as u8, 'u' as u8, 'e' as u8]
    } else if w == 3 {
        ['W' as u8, 'e' as u8, 'd' as u8]
    } else if w == 4 {
        ['T' as u8, 'h' as u8, 'u' as u8]
    } else if w == 5 {
        ['F' as u8, 'r' as u8, 'i' as u8]
    } else {
        ['S' as u8, 'a' as u8, 't' as u8]
    }
}

/// The three letters of the month `m`, where 1 is January.
fn month_letters(m: u64) -> (r: [u8; 3])
    ensures
        r@ == month_name(m as int),
{
    if m == 1 {
        ['J' as u8, 'a' as u8, 'n' as u8]
    } else if m == 2 {
        ['F' as u8, 'e' as u8, 'b' as u8]
    } else if m == 3 {
        ['M' as u8, 'a' as u8, 'r' as u8]
    } else if m == 4 {
        ['A' as u8, 'p' as u8, 'r' as u8]
    } else if m == 5 {
        ['M' as u8, 'a' as u8, 'y' as u8]
    } else if m == 6 {
        ['J' as u8, 'u' as u8, 'n' as u8]
    } else if m == 7 {
        ['J' as u8, 'u' as u8, 'l' as u8]
    } else if m == 8 {
        ['A' as u8, 'u' as u8, 'g' as u8]
    } else if m == 9 {
        ['S' as u8, 'e' as u8, 'p' as u8]
    } else if m == 10 {
        ['O' as u8, 'c' as u8, 't' as u8]
    } else if m == 11 {
        ['N' as u8, 'o' as u8, 'v' as u8]
    } else {
        ['D' as u8, 'e' as u8, 'c' as u8]
    }
}

/// The decimal digit of `n` at the place of `place`, as a character.
fn digit_of(n: u64, place: u64) -> (c: u8)
    requires
        place > 0,
    ensures
        c == digit(n as int, place as int),
{
    '0' as u8 + (n / place % 10) as u8
}

/// A date line: the 29 bytes that say a point in time in the format of HTTP.
pub struct Date {
    bytes: [u8; DATE_VALUE_LENGTH],
}

impl View for Date {
    type V = Seq<u8>;

    closed spec fn view(&self) -> Seq<u8> {
        self.bytes@
    }
}

impl Date {
    /// The date line of the point in time `secs` seconds after the start of
    /// 1 January 1970, or nothing where the year has more than four digits.
    pub fn from_unix(secs: u64) -> (r: Option<Date>)
        ensures
            r is Some <==> secs / SECS_PER_DAY < DAYS_END,
            r matches Some(date) ==> date@ == http_date(secs as int),
    {
        let days = secs / SECS_PER_DAY;
        let rest = secs % SECS_PER_DAY;
        let (y, m, d) = match civil_from_days(days) {
            Some(c) => c,
            None => {
                return None;
            },
        };
        let wd = weekday_letters((days % 7 + 4) % 7);
        let mon = month_letters(m);
        let hh = rest / 3600;
        let mm = rest % 3600 / 60;
        let ss = rest % 60;
        let bytes = [
            wd[0],
            wd[1],
            wd[2],
            ',' as u8,
            ' ' as u8,
            digit_of(d, 10),
            digit_of(d, 1),
            ' ' as u8,
            mon[0],
            mon[1],
            mon[2],
            ' ' as u8,
            digit_of(y, 1000),
            digit_of(y, 100),
            digit_of(y, 10),
            digit_of(y, 1),
            ' ' as u8,
            digit_of(hh, 10),
            digit_of(hh, 1),
            ':' as u8,
            digit_of(mm, 10),
            digit_of(mm, 1),
            ':' as u8,
            digit_of(ss, 10),
            digit_of(ss, 1),
            ' ' as u8,
            'G' as u8,
            'M' as u8,
            'T' as u8,
        ];
        Some(Date { bytes })
    }

    /// The bytes of the date line.
    pub fn as_bytes(&self) -> (b: &[u8])
        ensures
            b@ == self@,
            b@.len() == DATE_VALUE_LENGTH,
    {
        self.bytes.as_slice()
    }
}

/// Appends the date line `date` to `dst`.
pub fn append_date(dst: &mut BytesMut, date: &Date)
    requires
        bytes_mut_contents(*old(dst)).len() + DATE_VALUE_LENGTH <= isize::MAX / 4,
    ensures
        bytes_mut_contents(*final(dst)) == bytes_mut_contents(*old(dst)) + date@,
{
    buffer_extend(dst, date.as_bytes())
}

/// Appends the date line `date` to `dst` if `dst` has not grown too long
/// for it, and says whether it did.
pub fn try_append_date(dst: &mut BytesMut, date: &Date) -> (appended: bool)
    ensures
        appended == (bytes_mut_contents(*old(dst)).len() + DATE_VALUE_LENGTH <= isize::MAX / 4),
        appended ==> bytes_mut_contents(*final(dst)) == bytes_mut_contents(*old(dst)) + date@,
        !appended ==> *final(dst) == *old(dst),
{
    if buffer_len(dst) <= isize::MAX as usize / 4 - DATE_VALUE_LENGTH {
        append_date(dst, date);
        true
    } else {
        false
    }
}

} // verus!
