//! Timestamps of events.

use chrono::{Datelike, Timelike, Utc};
use vstd::prelude::*;

verus! {

pub const TIMESTAMP_FORMAT: &'static str = "%Y-%m-%d %H:%M:%S";

/// The number of January 1, 1970, where January 1 of the year 1 is day 1.
pub const UNIX_EPOCH_DAY: i64 = 719_163;

pub const MIN_YEAR: i32 = -262_143;

pub const MAX_YEAR: i32 = 262_142;

/// Whether a year of the proleptic Gregorian calendar has a February 29.
pub open spec fn is_leap_year(year: int) -> bool {
    year % 4 == 0 && (year % 100 != 0 || year % 400 == 0)
}

pub open spec fn days_in_month(year: int, month: int) -> int {
    if month == 2 {
        if is_leap_year(year) {
            29
        } else {
            28
        }
    } else if month == 4 || month == 6 || month == 9 || month == 11 {
        30
    } else {
        31
    }
}

/// The number of days from January 1 of the year 1 to January 1 of `year`.
pub open spec fn days_before_year(year: int) -> int {
    365 * (year - 1) + (year - 1) / 4 - (year - 1) / 100 + (year - 1) / 400
}

/// The number of days of `year` before the first day of `month`.
pub open spec fn days_before_month(year: int, month: int) -> int
    decreases month,
{
    if month <= 1 {
        0
    } else {
        days_before_month(year, month - 1) + days_in_month(year, month - 1)
    }
}

/// The number of a date, where January 1 of the year 1 is day 1.
pub open spec fn day_number(year: int, month: int, day: int) -> int {
    days_before_year(year) + days_before_month(year, month) + day
}

/// A date and a time of day. The nanosecond can exceed a billion, which stands
/// for a leap second that follows the second.
#[derive(Debug, Clone, Copy, PartialEq, Eq, Structural)]
pub struct NaiveDateTime {
    pub year: i32,
    pub month: u32,
    pub day: u32,
    pub hour: u32,
    pub minute: u32,
    pub second: u32,
    pub nanosecond: u32,
}

impl NaiveDateTime {
    /// The date exists and is one that can be told, and so is the time.
    pub open spec fn valid(self) -> bool {
        &&& MIN_YEAR <= self.year <= MAX_YEAR
        &&& 1 <= self.month <= 12
        &&& 1 <= self.day <= days_in_month(self.year as int, self.month as int)
        &&& self.hour < 24
        &&& self.minute < 60
        &&& self.second < 60
        &&& self.nanosecond < 2_000_000_000
    }

    /// A leap second, if this is one, is at the end of its minute.
    pub open spec fn is_regular(self) -> bool {
        self.nanosecond < 1_000_000_000 || self.second == 59
    }

    /// The number of seconds since midnight on January 1, 1970, not counting
    /// leap seconds.
    pub open spec fn timestamp(self) -> int {
        (day_number(self.year as int, self.month as int, self.day as int) - UNIX_EPOCH_DAY) * 86_400
            + self.hour * 3_600 + self.minute * 60 + self.second
    }
}

/// Whether a number of seconds since midnight on January 1, 1970 and of
/// nanoseconds since the last whole second stand for a date and time.
pub open spec fn is_timestamp(secs: int, nanos: int) -> bool {
    &&& day_number(MIN_YEAR as int, 1, 1) <= secs / 86_400 + UNIX_EPOCH_DAY <= day_number(
        MAX_YEAR as int,
        12,
        31,
    )
    &&& 0 <= nanos < 2_000_000_000
    &&& nanos < 1_000_000_000 || secs % 60 == 59
}

/// The decimal digit for a number below ten.
pub open spec fn digit(n: nat) -> char {
    (n + '0' as nat) as char
}

/// A number in decimal digits, filled up with zeros to at least `width`.
pub open spec fn padded(n: nat, width: nat) -> Seq<char>
    decreases n, width,
{
    if n < 10 && width <= 1 {
        seq![digit(n)]
    } else {
        padded(n / 10, (if width == 0 { 0 } else { width - 1 }) as nat).push(digit(n % 10))
    }
}

/// A year in at least four digits. Years of less than zero or of more than
/// four digits have a sign.
pub open spec fn year_text(year: int) -> Seq<char> {
    if year < 0 {
        seq!['-'] + padded((-year) as nat, 4)
    } else if year > 9999 {
        seq!['+'] + padded(year as nat, 4)
    } else {
        padded(year as nat, 4)
    }
}

/// The text of a date and time in `TIMESTAMP_FORMAT`.
pub open spec fn timestamp_text(t: NaiveDateTime) -> Seq<char> {
    year_text(t.year as int) + seq!['-'] + padded(t.month as nat, 2) + seq!['-'] + padded(
        t.day as nat,
        2,
    ) + seq![' '] + padded(t.hour as nat, 2) + seq![':'] + padded(t.minute as nat, 2) + seq![':']
        + padded(t.second as nat + t.nanosecond as nat / 1_000_000_000, 2)
}

/// Calls `chrono::Utc::now` and reads the result with `DateTime::timestamp`
/// and `DateTime::timestamp_subsec_nanos`. These give back the seconds and
/// nanoseconds that the current time was made of, so they stand for a date and
/// time. `Utc::now` panics if the clock of the machine is set to a time before
/// 1970 or past the last year that can be told.
#[verifier::external_body]
fn utc_now() -> (now: (i64, u32))
    ensures
        is_timestamp(now.0 as int, now.1 as int),
{
    let now = Utc::now();
    (now.timestamp(), now.timestamp_subsec_nanos())
}

/// Calls `chrono::NaiveDateTime::from_timestamp_opt` and reads the fields of
/// the result. It returns `None` if the day is out of range or the nanoseconds
/// are too many, and otherwise the date and time in UTC that lies `secs`
/// seconds after the start of 1970, with `nanos` as its nanosecond.
#[verifier::external_body]
#[allow(deprecated)]
fn civil_time(secs: i64, nanos: u32) -> (t: Option<NaiveDateTime>)
    ensures
        t is Some <==> is_timestamp(secs as int, nanos as int),
        t matches Some(t) ==> t.valid() && t.timestamp() == secs && t.nanosecond == nanos,
{
    chrono::NaiveDateTime::from_timestamp_opt(secs, nanos).map(
        |t|
            NaiveDateTime {
                year: t.year(),
                month: t.month(),
                day: t.day(),
                hour: t.hour(),
                minute: t.minute(),
                second: t.second(),
                nanosecond: t.nanosecond(),
            },
    )
}

/// Makes a `chrono::NaiveDateTime` of the fields and calls its `format`. The
/// specifiers `%Y`, `%m`, `%d`, `%H`, `%M` and `%S` stand for the year in at
/// least four digits, with a sign where it is below 0 or above 9999, and for
/// the other fields in two digits, where a leap second is counted as the second
/// after the one that it follows. All of them are filled up with zeros.
#[verifier::external_body]
fn format_civil_time(t: &NaiveDateTime, pattern: &str) -> (text: String)
    requires
        t.valid(),
        pattern@ == "%Y-%m-%d %H:%M:%S"@,
    ensures
        text@ == timestamp_text(*t),
{
    chrono::NaiveDate::from_ymd_opt(t.year, t.month, t.day)
        .and_then(|d| d.and_hms_opt(t.hour, t.minute, t.second))
        .and_then(|d| d.with_nanosecond(t.nanosecond))
        .unwrap()
        .format(pattern)
        .to_string()
}

/// The number of days in a month of a year that can be told.
fn last_day(year: i32, month: u32) -> (day: u32)
    requires
        MIN_YEAR <= year <= MAX_YEAR,
    ensures
        day == days_in_month(year as int, month as int),
{
    if month == 2 {
        let y: i32 = year + 400 * 656;
        proof {
            lemma_leap_years_recur(year as int, 656);
        }
        if y % 4 == 0 && (y % 100 != 0 || y % 400 == 0) {
            29
        } else {
            28
        }
    } else if month == 4 || month == 6 || month == 9 || month == 11 {
        30
    } else {
        31
    }
}

impl NaiveDateTime {
    /// Whether this is a date and a time that exist and can be told.
    pub fn is_valid(&self) -> (valid: bool)
        ensures
            valid == self.valid(),
    {
        MIN_YEAR <= self.year && self.year <= MAX_YEAR && 1 <= self.month && self.month <= 12 && 1
            <= self.day && self.day <= last_day(self.year, self.month) && self.hour < 24
            && self.minute < 60 && self.second < 60 && self.nanosecond < 2_000_000_000
    }

    /// The date and time in UTC that lies `secs` seconds and `nanos`
    /// nanoseconds after the start of 1970.
    pub fn from_timestamp_opt(secs: i64, nanos: u32) -> (t: Option<Self>)
        ensures
            t is Some <==> is_timestamp(secs as int, nanos as int),
            t matches Some(t) ==> t.valid() && t.timestamp() == secs && t.nanosecond == nanos,
    {
        civil_time(secs, nanos)
    }
}

/// Whether the clock may read `drawn`, in seconds and nanoseconds since the
/// start of 1970.
pub closed spec fn may_draw(drawn: (i64, u32)) -> bool {
    call_ensures(utc_now, (), drawn)
}

/// Whether `t` is the date and time of the reading `drawn` of the clock.
pub open spec fn is_reading(drawn: (i64, u32), t: NaiveDateTime) -> bool {
    &&& may_draw(drawn)
    &&& t.valid()
    &&& t.timestamp() == drawn.0
    &&& t.nanosecond == drawn.1
}

/// Whether the clock may read `t`.
pub open spec fn may_read(t: NaiveDateTime) -> bool {
    exists|drawn: (i64, u32)| #[trigger] is_reading(drawn, t)
}

/// Whether `text` is the text of a date and time that the clock may read.
pub open spec fn may_read_text(text: Seq<char>) -> bool {
    exists|t: NaiveDateTime| may_read(t) && text == #[trigger] timestamp_text(t)
}

/// The current time as text. `now` and `format` give the same in two steps.
pub fn create_timestamp() -> (text: String)
    ensures
        may_read_text(text@),
{
    let t = now();
    format(&t)
}

/// The current date and time in UTC.
pub fn now() -> (t: NaiveDateTime)
    ensures
        t.valid(),
        may_read(t),
{
    let (secs, nanos) = utc_now();
    let t = NaiveDateTime::from_timestamp_opt(secs, nanos).expect("invalid timestamp");
    assert(is_reading((secs, nanos), t));
    t
}

pub fn format(t: &NaiveDateTime) -> (text: String)
    requires
        t.valid(),
    ensures
        text@ == timestamp_text(*t),
{
    format_civil_time(t, TIMESTAMP_FORMAT)
}

/// Within a year, the days before a month are the fewer the earlier the month
/// is, and all months together make up the year.
proof fn lemma_days_before_month(year: int, month: int, day: int)
    requires
        1 <= month <= 12,
        1 <= day <= days_in_month(year, month),
    ensures
        1 <= days_before_month(year, month) + day <= 365 + if is_leap_year(year) {
            1int
        } else {
            0
        },
        forall|m: int|
            month < m <= 12 ==> days_before_month(year, month) + day <= #[trigger] days_before_month(
                year,
                m,
            ),
{
    reveal_with_fuel(days_before_month, 13);
}

/// A quotient grows by one where the dividend reaches a multiple of the
/// divisor.
proof fn lemma_quotient_step(n: int, d: int)
    requires
        d > 1,
    ensures
        n / d == (n - 1) / d + if n % d == 0 {
            1int
        } else {
            0
        },
{
    vstd::arithmetic::div_mod::lemma_fundamental_div_mod(n, d);
    vstd::arithmetic::div_mod::lemma_mod_bound(n, d);
    let q = n / d;
    let r = n % d;
    assert(q * d == d * q && (q - 1) * d == q * d - d) by (nonlinear_arith);
    if r == 0 {
        vstd::arithmetic::div_mod::lemma_fundamental_div_mod_converse(n - 1, d, q - 1, d - 1);
    } else {
        vstd::arithmetic::div_mod::lemma_fundamental_div_mod_converse(n - 1, d, q, r - 1);
    }
}

/// A multiple of a multiple of `d` is a multiple of `d`.
proof fn lemma_multiple_of_multiple(n: int, d: int, k: int)
    requires
        d > 0,
        k > 0,
        n % (d * k) == 0,
    ensures
        n % d == 0,
{
    assert(d * k > 0) by (nonlinear_arith)
        requires
            d > 0,
            k > 0,
    ;
    vstd::arithmetic::div_mod::lemma_fundamental_div_mod(n, d * k);
    let q = n / (d * k);
    assert((d * k) * q == (k * q) * d) by (nonlinear_arith);
    vstd::arithmetic::div_mod::lemma_fundamental_div_mod_converse(n, d, k * q, 0);
}

/// A year takes 365 days, and a leap year one more.
proof fn lemma_year_length(year: int)
    ensures
        days_before_year(year + 1) == days_before_year(year) + 365 + if is_leap_year(year) {
            1int
        } else {
            0
        },
{
    lemma_quotient_step(year, 4);
    lemma_quotient_step(year, 100);
    lemma_quotient_step(year, 400);
    if year % 100 == 0 {
        lemma_multiple_of_multiple(year, 4, 25);
    }
    if year % 400 == 0 {
        lemma_multiple_of_multiple(year, 100, 4);
    }
}

/// Leap years recur every 400 years.
proof fn lemma_leap_years_recur(year: int, k: int)
    ensures
        is_leap_year(year + 400 * k) == is_leap_year(year),
{
    vstd::arithmetic::div_mod::lemma_mod_multiples_vanish(100 * k, year, 4);
    vstd::arithmetic::div_mod::lemma_mod_multiples_vanish(4 * k, year, 100);
    vstd::arithmetic::div_mod::lemma_mod_multiples_vanish(k, year, 400);
}

proof fn lemma_days_before_year_is_monotonic(a: int, b: int)
    requires
        a <= b,
    ensures
        days_before_year(a) <= days_before_year(b),
    decreases b - a,
{
    if a < b {
        lemma_days_before_year_is_monotonic(a, b - 1);
        lemma_year_length(b - 1);
    }
}

/// Later dates have larger numbers.
proof fn lemma_day_number_is_increasing(a: NaiveDateTime, b: NaiveDateTime)
    requires
        a.valid(),
        b.valid(),
        a.year < b.year || a.year == b.year && (a.month < b.month || a.month == b.month && a.day
            < b.day),
    ensures
        day_number(a.year as int, a.month as int, a.day as int) < day_number(
            b.year as int,
            b.month as int,
            b.day as int,
        ),
{
    lemma_days_before_month(a.year as int, a.month as int, a.day as int);
    lemma_days_before_month(b.year as int, b.month as int, b.day as int);
    if a.year < b.year {
        lemma_year_length(a.year as int);
        lemma_days_before_year_is_monotonic(a.year + 1, b.year as int);
    }
}

/// Dates and times that differ before the nanosecond have different numbers of
/// seconds: these and the nanosecond identify a date and time.
pub proof fn law_timestamp_identifies(a: NaiveDateTime, b: NaiveDateTime)
    requires
        a.valid(),
        b.valid(),
        a.timestamp() == b.timestamp(),
        a.nanosecond == b.nanosecond,
    ensures
        a == b,
{
    let da = day_number(a.year as int, a.month as int, a.day as int);
    let db = day_number(b.year as int, b.month as int, b.day as int);
    assert(da == db);
    if (a.year, a.month, a.day) != (b.year, b.month, b.day) {
        if a.year < b.year || a.year == b.year && (a.month < b.month || a.month == b.month && a.day
            < b.day) {
            lemma_day_number_is_increasing(a, b);
        } else {
            lemma_day_number_is_increasing(b, a);
        }
    }
}

/// Seconds divide into days and a time of day.
proof fn lemma_split_seconds(days: int, hour: int, minute: int, second: int)
    requires
        0 <= hour < 24,
        0 <= minute < 60,
        0 <= second < 60,
    ensures
        (days * 86_400 + hour * 3_600 + minute * 60 + second) / 86_400 == days,
        (days * 86_400 + hour * 3_600 + minute * 60 + second) % 60 == second,
{
    let all = days * 86_400 + hour * 3_600 + minute * 60 + second;
    let rest = hour * 3_600 + minute * 60 + second;
    vstd::arithmetic::div_mod::lemma_fundamental_div_mod_converse(all, 86_400, days, rest);
    let minutes = days * 1_440 + hour * 60 + minute;
    vstd::arithmetic::div_mod::lemma_fundamental_div_mod_converse(all, 60, minutes, second);
}

/// Every date and time has a timestamp that stands for it, except for leap
/// seconds within a minute.
pub proof fn law_every_time_has_a_timestamp(t: NaiveDateTime)
    requires
        t.valid(),
        t.is_regular(),
    ensures
        is_timestamp(t.timestamp(), t.nanosecond as int),
{
    let day = day_number(t.year as int, t.month as int, t.day as int);
    lemma_split_seconds(
        day - UNIX_EPOCH_DAY,
        t.hour as int,
        t.minute as int,
        t.second as int,
    );
    let midnight = NaiveDateTime { hour: 0, minute: 0, second: 0, nanosecond: 0, ..t };
    let first = NaiveDateTime { year: MIN_YEAR, month: 1, day: 1, ..midnight };
    let last = NaiveDateTime { year: MAX_YEAR, month: 12, day: 31, ..midnight };
    if midnight != first {
        lemma_day_number_is_increasing(first, midnight);
    }
    if midnight != last {
        lemma_day_number_is_increasing(midnight, last);
    }
}

/// One reading of the clock has one text: on the same reading, `format` of `now`
/// and `create_timestamp` give the same.
pub proof fn law_reading_has_one_text(drawn: (i64, u32), a: NaiveDateTime, b: NaiveDateTime)
    requires
        is_reading(drawn, a),
        is_reading(drawn, b),
    ensures
        a == b,
        timestamp_text(a) == timestamp_text(b),
{
    law_timestamp_identifies(a, b);
}

/// The text of a date and time in the years from 0 to 9999 has 19 characters.
pub proof fn law_timestamp_text_has_fixed_width(t: NaiveDateTime)
    requires
        t.valid(),
        0 <= t.year <= 9999,
    ensures
        timestamp_text(t).len() == 19,
{
    reveal_with_fuel(padded, 5);
}

/// The number that a decimal digit stands for.
pub open spec fn digit_value(c: char) -> int {
    c as int - '0' as int
}

/// The number that the two digits at `i` stand for.
pub open spec fn two_digits(text: Seq<char>, i: int) -> int {
    digit_value(text[i]) * 10 + digit_value(text[i + 1])
}

/// The date and time that a text in `TIMESTAMP_FORMAT` tells, for years of four
/// digits.
pub open spec fn told_by(text: Seq<char>) -> NaiveDateTime {
    NaiveDateTime {
        year: (two_digits(text, 0) * 100 + two_digits(text, 2)) as i32,
        month: two_digits(text, 5) as u32,
        day: two_digits(text, 8) as u32,
        hour: two_digits(text, 11) as u32,
        minute: two_digits(text, 14) as u32,
        second: two_digits(text, 17) as u32,
        nanosecond: 0,
    }
}

/// The same date and time without the fraction of the second.
pub open spec fn whole_second(t: NaiveDateTime) -> NaiveDateTime {
    NaiveDateTime { nanosecond: 0, ..t }
}

/// A date and time with a year of four digits and no leap second.
pub open spec fn is_plain(t: NaiveDateTime) -> bool {
    &&& t.valid()
    &&& 0 <= t.year <= 9999
    &&& t.nanosecond < 1_000_000_000
}

/// The first of the two digits of a number.
#[verifier::opaque]
spec fn tens(n: nat) -> char {
    digit(n / 10)
}

/// The second of the two digits of a number.
#[verifier::opaque]
spec fn ones(n: nat) -> char {
    digit(n % 10)
}

/// The number of whole centuries before a year.
#[verifier::opaque]
spec fn century(year: int) -> nat {
    (year / 100) as nat
}

/// The number of a year within its century.
#[verifier::opaque]
spec fn year_of_century(year: int) -> nat {
    (year % 100) as nat
}

/// The digits of a text, one by one.
spec fn text_digits(t: NaiveDateTime) -> Seq<char> {
    seq![
        tens(century(t.year as int)),
        ones(century(t.year as int)),
        tens(year_of_century(t.year as int)),
        ones(year_of_century(t.year as int)),
        '-',
        tens(t.month as nat),
        ones(t.month as nat),
        '-',
        tens(t.day as nat),
        ones(t.day as nat),
        ' ',
        tens(t.hour as nat),
        ones(t.hour as nat),
        ':',
        tens(t.minute as nat),
        ones(t.minute as nat),
        ':',
        tens(t.second as nat),
        ones(t.second as nat),
    ]
}

/// Two digits stand for the number that they were made of.
proof fn lemma_two_digits(text: Seq<char>, i: int, n: nat)
    requires
        n < 100,
        text[i] == tens(n),
        text[i + 1] == ones(n),
    ensures
        two_digits(text, i) == n,
{
    reveal(tens);
    reveal(ones);
}

proof fn lemma_padded_to_two(n: nat)
    requires
        n < 100,
    ensures
        padded(n, 2) == seq![tens(n), ones(n)],
{
    reveal(tens);
    reveal(ones);
    reveal_with_fuel(padded, 3);
}

/// The four digits of a year are the two digits of its century and two more.
proof fn lemma_padded_year(year: int)
    requires
        0 <= year < 10_000,
    ensures
        century(year) < 100,
        year_of_century(year) < 100,
        year == century(year) * 100 + year_of_century(year),
        padded(year as nat, 4) == seq![
            tens(century(year)),
            ones(century(year)),
            tens(year_of_century(year)),
            ones(year_of_century(year)),
        ],
{
    reveal(tens);
    reveal(ones);
    reveal(century);
    reveal(year_of_century);
    let c = year / 100;
    let r = year % 100;
    assert(year == c * 100 + r && 0 <= r < 100 && c < 100);
    let (c1, c0) = (c / 10, c % 10);
    let (r1, r0) = (r / 10, r % 10);
    assert(c == c1 * 10 + c0 && r == r1 * 10 + r0);
    vstd::arithmetic::div_mod::lemma_fundamental_div_mod_converse(year, 10, c * 10 + r1, r0);
    vstd::arithmetic::div_mod::lemma_fundamental_div_mod_converse(c * 10 + r1, 10, c, r1);
    reveal_with_fuel(padded, 5);
}

proof fn lemma_text_digits(t: NaiveDateTime)
    requires
        is_plain(t),
    ensures
        timestamp_text(t) == text_digits(t),
{
    lemma_padded_year(t.year as int);
    lemma_padded_to_two(t.month as nat);
    lemma_padded_to_two(t.day as nat);
    lemma_padded_to_two(t.hour as nat);
    lemma_padded_to_two(t.minute as nat);
    lemma_padded_to_two(t.second as nat);
}

/// The text of a date and time tells it, up to the whole second.
pub proof fn law_text_can_be_read_back(t: NaiveDateTime)
    requires
        is_plain(t),
    ensures
        told_by(timestamp_text(t)) == whole_second(t),
{
    lemma_text_digits(t);
    lemma_padded_year(t.year as int);
    let text = text_digits(t);
    lemma_two_digits(text, 0, century(t.year as int));
    lemma_two_digits(text, 2, year_of_century(t.year as int));
    lemma_two_digits(text, 5, t.month as nat);
    lemma_two_digits(text, 8, t.day as nat);
    lemma_two_digits(text, 11, t.hour as nat);
    lemma_two_digits(text, 14, t.minute as nat);
    lemma_two_digits(text, 17, t.second as nat);
}

/// Two dates and times have the same text if and only if they agree up to the
/// whole second.
pub proof fn law_text_identifies_the_second(a: NaiveDateTime, b: NaiveDateTime)
    requires
        is_plain(a),
        is_plain(b),
    ensures
        timestamp_text(a) == timestamp_text(b) <==> whole_second(a) == whole_second(b),
{
    law_text_can_be_read_back(a);
    law_text_can_be_read_back(b);
    if whole_second(a) == whole_second(b) {
        lemma_text_digits(a);
        lemma_text_digits(b);
    }
}

/// The first character in which `a` and `b` differ is at `k`, and it comes
/// earlier in `a`.
pub open spec fn differs_first_at(a: Seq<char>, b: Seq<char>, k: int) -> bool {
    &&& 0 <= k < a.len()
    &&& k < b.len()
    &&& a.take(k) == b.take(k)
    &&& (a[k] as int) < (b[k] as int)
}

/// Whether `a` comes before `b` in the order of strings, or is equal to it.
pub open spec fn sorts_up_to(a: Seq<char>, b: Seq<char>) -> bool {
    a.is_prefix_of(b) || exists|k: int| #[trigger] differs_first_at(a, b, k)
}

/// Texts that first differ in two digits are ordered as the numbers in them.
proof fn lemma_order_of_two_digits(a: Seq<char>, b: Seq<char>, i: int, m: nat, n: nat)
    requires
        0 <= i,
        i + 1 < a.len(),
        a.len() == b.len(),
        a.take(i) == b.take(i),
        m < n < 100,
        a[i] == tens(m),
        a[i + 1] == ones(m),
        b[i] == tens(n),
        b[i + 1] == ones(n),
    ensures
        sorts_up_to(a, b),
{
    reveal(tens);
    reveal(ones);
    if m / 10 < n / 10 {
        assert(differs_first_at(a, b, i));
    } else {
        assert(m / 10 == n / 10 && m % 10 < n % 10);
        assert(a.take(i + 1) == a.take(i).push(a[i]));
        assert(b.take(i + 1) == b.take(i).push(b[i]));
        assert(differs_first_at(a, b, i + 1));
    }
}

/// Dates and times are ordered as their fields are, from the year down.
proof fn lemma_order_of_fields(a: NaiveDateTime, b: NaiveDateTime)
    requires
        a.valid(),
        b.valid(),
        a.timestamp() <= b.timestamp(),
    ensures
        a.year < b.year || a.year == b.year && (a.month < b.month || a.month == b.month && (a.day
            < b.day || a.day == b.day && (a.hour < b.hour || a.hour == b.hour && (a.minute
            < b.minute || a.minute == b.minute && a.second <= b.second)))),
{
    let da = day_number(a.year as int, a.month as int, a.day as int);
    let db = day_number(b.year as int, b.month as int, b.day as int);
    if (a.year, a.month, a.day) != (b.year, b.month, b.day) && !(a.year < b.year || a.year == b.year
        && (a.month < b.month || a.month == b.month && a.day < b.day)) {
        lemma_day_number_is_increasing(b, a);
        assert(da >= db + 1);
    }
}

/// The texts of dates and times are ordered as the fields are.
proof fn lemma_order_of_texts(a: NaiveDateTime, b: NaiveDateTime)
    requires
        0 <= a.year <= 9999 && a.month < 100 && a.day < 100 && a.hour < 100 && a.minute < 100
            && a.second < 100,
        0 <= b.year <= 9999 && b.month < 100 && b.day < 100 && b.hour < 100 && b.minute < 100
            && b.second < 100,
        a.year < b.year || a.year == b.year && (a.month < b.month || a.month == b.month && (a.day
            < b.day || a.day == b.day && (a.hour < b.hour || a.hour == b.hour && (a.minute
            < b.minute || a.minute == b.minute && a.second <= b.second)))),
    ensures
        sorts_up_to(text_digits(a), text_digits(b)),
{
    let x = text_digits(a);
    let y = text_digits(b);
    lemma_padded_year(a.year as int);
    lemma_padded_year(b.year as int);
    if century(a.year as int) < century(b.year as int) {
        assert(x.take(0) == y.take(0));
        lemma_order_of_two_digits(x, y, 0, century(a.year as int), century(b.year as int));
    } else if a.year < b.year {
        assert(x.take(2) == y.take(2));
        lemma_order_of_two_digits(
            x,
            y,
            2,
            year_of_century(a.year as int),
            year_of_century(b.year as int),
        );
    } else if a.month < b.month {
        assert(x.take(5) == y.take(5));
        lemma_order_of_two_digits(x, y, 5, a.month as nat, b.month as nat);
    } else if a.day < b.day {
        assert(x.take(8) == y.take(8));
        lemma_order_of_two_digits(x, y, 8, a.day as nat, b.day as nat);
    } else if a.hour < b.hour {
        assert(x.take(11) == y.take(11));
        lemma_order_of_two_digits(x, y, 11, a.hour as nat, b.hour as nat);
    } else if a.minute < b.minute {
        assert(x.take(14) == y.take(14));
        lemma_order_of_two_digits(x, y, 14, a.minute as nat, b.minute as nat);
    } else if a.second < b.second {
        assert(x.take(17) == y.take(17));
        lemma_order_of_two_digits(x, y, 17, a.second as nat, b.second as nat);
    } else {
        assert(x == y);
        assert(x.is_prefix_of(y));
    }
}

/// The texts of dates and times are ordered as these are.
pub proof fn law_texts_are_ordered_as_times(a: NaiveDateTime, b: NaiveDateTime)
    requires
        is_plain(a),
        is_plain(b),
        a.timestamp() < b.timestamp() || a.timestamp() == b.timestamp() && a.nanosecond
            <= b.nanosecond,
    ensures
        sorts_up_to(timestamp_text(a), timestamp_text(b)),
{
    lemma_order_of_fields(a, b);
    lemma_text_digits(a);
    lemma_text_digits(b);
    lemma_order_of_texts(a, b);
}

} // verus!
