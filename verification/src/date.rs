//! Calendar dates: days since the Unix epoch from ISO date text, and the
//! ISO date text of a timestamp. The calendar work is done by `chrono`.

use vstd::prelude::*;

use crate::error::Error;
use crate::text::{decimal_digits, digits_value, is_digit};
use chrono::{Datelike, NaiveDate, TimeZone, Utc};
use std::str::FromStr;

verus! {

// ------------------------------------------------------------------
// The proleptic Gregorian calendar
// ------------------------------------------------------------------

pub open spec fn is_leap_year(y: int) -> bool {
    (y % 4 == 0 && y % 100 != 0) || y % 400 == 0
}

pub open spec fn days_in_month(y: int, m: int) -> int {
    if m == 2 {
        if is_leap_year(y) {
            29
        } else {
            28
        }
    } else if m == 4 || m == 6 || m == 9 || m == 11 {
        30
    } else {
        31
    }
}

/// Whether day `d` of month `m` exists in year `y`.
pub open spec fn is_valid_date(y: int, m: int, d: int) -> bool {
    1 <= m <= 12 && 1 <= d <= days_in_month(y, m)
}

/// Days of year `y` before the first of month `m`.
pub open spec fn days_before_month(y: int, m: int) -> int
    decreases m,
{
    if m <= 1 {
        0
    } else {
        days_before_month(y, m - 1) + days_in_month(y, m - 1)
    }
}

/// Days of all years before year `y`, counted from January 1 of year 1.
pub open spec fn days_before_year(y: int) -> int {
    let p = y - 1;
    365 * p + p / 4 - p / 100 + p / 400
}

/// The day number of a date with January 1 of year 1 as day 1
/// (what `Datelike::num_days_from_ce` returns).
pub open spec fn days_from_ce(y: int, m: int, d: int) -> int {
    days_before_year(y) + days_before_month(y, m) + d
}

/// The day number of January 1, 1970.
pub open spec fn unix_epoch_day() -> int {
    719163
}

/// Days since January 1, 1970 of a date.
pub open spec fn days_since_epoch(y: int, m: int, d: int) -> int {
    days_from_ce(y, m, d) - unix_epoch_day()
}

/// The years `chrono::NaiveDate` can hold.
pub open spec fn chrono_year_in_range(y: int) -> bool {
    -262143 <= y <= 262142
}

/// `n` in decimal, with zeros in front up to `w` digits.
pub open spec fn padded_digits(n: nat, w: int) -> Seq<char> {
    let t = decimal_digits(n);
    if t.len() >= w {
        t
    } else {
        Seq::new((w - t.len()) as nat, |i: int| '0') + t
    }
}

/// A year as `%Y` writes it: four digits for the years 0 to 9999, other
/// years with a sign and at least four digits.
pub open spec fn year_text(y: int) -> Seq<char> {
    if 0 <= y <= 9999 {
        padded_digits(y as nat, 4)
    } else if y < 0 {
        seq!['-'] + padded_digits((-y) as nat, 4)
    } else {
        seq!['+'] + padded_digits(y as nat, 4)
    }
}

/// A date as `%Y-%m-%d` writes it, e.g. `2024-03-01`.
pub open spec fn date_text(y: int, m: int, d: int) -> Seq<char> {
    year_text(y) + seq!['-'] + padded_digits(m as nat, 2) + seq!['-'] + padded_digits(d as nat, 2)
}

/// Whether `s` is exactly `DDDD-DD-DD` with ASCII digits.
pub open spec fn is_iso_date_shape(s: Seq<char>) -> bool {
    &&& s.len() == 10
    &&& is_digit(s[0]) && is_digit(s[1]) && is_digit(s[2]) && is_digit(s[3])
    &&& s[4] == '-'
    &&& is_digit(s[5]) && is_digit(s[6])
    &&& s[7] == '-'
    &&& is_digit(s[8]) && is_digit(s[9])
}

pub open spec fn iso_year(s: Seq<char>) -> int {
    digits_value(s.subrange(0, 4))
}

pub open spec fn iso_month(s: Seq<char>) -> int {
    digits_value(s.subrange(5, 7))
}

pub open spec fn iso_day(s: Seq<char>) -> int {
    digits_value(s.subrange(8, 10))
}

// ------------------------------------------------------------------
// UTF-8 widths, for slicing a text at a byte offset
// ------------------------------------------------------------------

/// Bytes of a character in UTF-8 (`char::len_utf8`).
pub open spec fn utf8_width(c: char) -> int {
    if (c as int) < 0x80 {
        1
    } else if (c as int) < 0x800 {
        2
    } else if (c as int) < 0x10000 {
        3
    } else {
        4
    }
}

/// The leading characters of `s` that start within its first `n` bytes.
pub open spec fn utf8_prefix(s: Seq<char>, n: int) -> Seq<char>
    decreases s.len(),
{
    if n <= 0 || s.len() == 0 {
        Seq::empty()
    } else {
        seq![s[0]] + utf8_prefix(s.drop_first(), n - utf8_width(s[0]))
    }
}

/// Bytes of `s` in UTF-8.
pub open spec fn utf8_len(s: Seq<char>) -> int
    decreases s.len(),
{
    if s.len() == 0 {
        0
    } else {
        utf8_width(s[0]) + utf8_len(s.drop_first())
    }
}

/// Whether the first ten bytes of `s` are whole characters, i.e. whether
/// `&s[0..10]` is defined.
pub open spec fn has_ten_byte_prefix(s: Seq<char>) -> bool {
    utf8_len(utf8_prefix(s, 10)) == 10
}

/// The text `&s[0..10]`.
pub open spec fn ten_byte_prefix(s: Seq<char>) -> Seq<char> {
    utf8_prefix(s, 10)
}

// ------------------------------------------------------------------
// chrono
// ------------------------------------------------------------------

/// The characters of an optional `String`.
pub open spec fn opt_text(r: Option<String>) -> Option<Seq<char>> {
    match r {
        Some(t) => Some(t@),
        None => None,
    }
}

/// Whether `t` is the `%Y-%m-%d` text of the UTC date of the timestamp
/// `secs` (in seconds), wherever that date lies in chrono's years.
pub open spec fn dates_text_as_iso(secs: int, t: Option<Seq<char>>) -> bool {
    forall|y: int, m: int, d: int|
        #![trigger days_since_epoch(y, m, d)]
        chrono_year_in_range(y) && is_valid_date(y, m, d) && days_since_epoch(y, m, d) == secs
            / 86400 ==> t == Some(date_text(y, m, d))
}

/// Whether the UTC date of the timestamp `secs` (in seconds) is a date of
/// the years chrono can hold.
pub open spec fn utc_date_in_chrono_range(secs: int) -> bool {
    exists|y: int, m: int, d: int|
        #![trigger days_since_epoch(y, m, d)]
        chrono_year_in_range(y) && is_valid_date(y, m, d) && days_since_epoch(y, m, d) == secs
            / 86400
}

/// The day number that `NaiveDate::from_str` gives for a text, or `None`
/// where it refuses the text.
pub uninterp spec fn chrono_parsed_day_number(s: Seq<char>) -> Option<int>;

/// The `%Y-%m-%d` text of a Unix timestamp in seconds, as chrono formats the
/// UTC date time it makes of it, or `None` where chrono refuses the timestamp.
pub uninterp spec fn chrono_utc_date_text(secs: int) -> Option<Seq<char>>;

/// The day number (days since 1970) of the date at the start of `s`.
pub open spec fn day_of(s: Seq<char>) -> Option<int> {
    match chrono_parsed_day_number(ten_byte_prefix(s)) {
        Some(n) => Some(n - unix_epoch_day()),
        None => None,
    }
}

/// `NaiveDate::from_str` followed by `Datelike::num_days_from_ce`.
///
/// Claimed of chrono: the result is a function of the text alone, and on
/// text of the shape `YYYY-MM-DD` it is the day number of that date when the
/// date exists and `None` when it does not (chrono's `FromStr` reads `%Y-%m-%d`).
/// Other accepted shapes (signs, shorter fields, surrounding spaces) are left
/// to the named result.
#[verifier::external_body]
fn chrono_parse_date(s: &str) -> (r: Option<i32>)
    ensures
        r matches Some(n) ==> chrono_parsed_day_number(s@) == Some(n as int),
        r is None ==> chrono_parsed_day_number(s@) is None,
        is_iso_date_shape(s@) ==> (r is Some <==> is_valid_date(
            iso_year(s@),
            iso_month(s@),
            iso_day(s@),
        )),
        is_iso_date_shape(s@) && r is Some ==> r->0 as int == days_from_ce(
            iso_year(s@),
            iso_month(s@),
            iso_day(s@),
        ),
{
    match NaiveDate::from_str(s) {
        Ok(d) => Some(d.num_days_from_ce()),
        Err(_) => None,
    }
}

/// `NaiveDate::from_ymd_opt` followed by `Datelike::num_days_from_ce`.
///
/// Claimed of chrono (as documented): `None` exactly when the date does not
/// exist or its year is outside chrono's range; otherwise the day number of
/// the date, January 1 of year 1 being day 1.
#[verifier::external_body]
pub(crate) fn chrono_day_number(year: i32, month: u32, day: u32) -> (r: Option<i32>)
    ensures
        r is Some <==> (is_valid_date(year as int, month as int, day as int)
            && chrono_year_in_range(year as int)),
        r matches Some(n) ==> n as int == days_from_ce(year as int, month as int, day as int),
{
    match NaiveDate::from_ymd_opt(year, month, day) {
        Some(d) => Some(d.num_days_from_ce()),
        None => None,
    }
}

/// `Utc.timestamp_opt(secs, 0).single()` formatted with `%Y-%m-%d`.
///
/// Claimed of chrono: the result is a function of `secs` alone; it is there
/// exactly when the UTC date of `secs` (the day `secs.div_euclid(86400)`
/// after January 1, 1970) lies in chrono's years, and then it is that date
/// as `%Y-%m-%d` writes it: month and day with two digits, the year with
/// four, and years outside 0 to 9999 with a sign.
#[verifier::external_body]
fn chrono_format_utc_date(secs: i64) -> (r: Option<String>)
    ensures
        r matches Some(t) ==> chrono_utc_date_text(secs as int) == Some(t@),
        r is None ==> chrono_utc_date_text(secs as int) is None,
        r is Some <==> utc_date_in_chrono_range(secs as int),
        dates_text_as_iso(secs as int, opt_text(r)),
{
    match Utc.timestamp_opt(secs, 0).single() {
        Some(dt) => Some(dt.format("%Y-%m-%d").to_string()),
        None => None,
    }
}


// ------------------------------------------------------------------
// Dates of the statements
// ------------------------------------------------------------------

/// Bytes of `c` in UTF-8 (`char::len_utf8`).
pub fn char_utf8_width(c: char) -> (w: usize)
    ensures
        w as int == utf8_width(c),
{
    if (c as u32) < 0x80 {
        1
    } else if (c as u32) < 0x800 {
        2
    } else if (c as u32) < 0x10000 {
        3
    } else {
        4
    }
}

/// `&s[0..10]`, for a text whose first ten bytes are whole characters.
pub fn first_ten_bytes(s: &str) -> (r: &str)
    requires
        has_ten_byte_prefix(s@),
    ensures
        r@ == ten_byte_prefix(s@),
{
    let v = crate::text::chars_of(s);
    let mut acc: usize = 0;
    let mut k: usize = 0;
    assert(s@.skip(0) =~= s@);
    assert(s@.take(0) + utf8_prefix(s@, 10) =~= utf8_prefix(s@, 10));
    while acc < 10 && k < v.len()
        invariant
            v@ == s@,
            k <= v.len(),
            acc <= 10 + 4,
            utf8_prefix(s@, 10) == s@.take(k as int) + utf8_prefix(s@.skip(k as int), 10 - acc),
        decreases v.len() - k,
    {
        let w = char_utf8_width(v[k]);
        proof {
            let t = s@.skip(k as int);
            assert(t.drop_first() =~= s@.skip(k + 1));
            assert(t[0] == s@[k as int]);
            assert(s@.take(k as int) + seq![s@[k as int]] =~= s@.take(k + 1));
            assert(s@.take(k as int) + (seq![t[0]] + utf8_prefix(t.drop_first(), 10 - acc - w))
                =~= s@.take(k + 1) + utf8_prefix(s@.skip(k + 1), 10 - acc - w));
        }
        acc = acc + w;
        k = k + 1;
    }
    proof {
        assert(utf8_prefix(s@.skip(k as int), 10 - acc) =~= Seq::<char>::empty());
        assert(s@.take(k as int) + Seq::<char>::empty() =~= s@.take(k as int));
    }
    s.substring_char(0, k)
}

/// Whether the first ten bytes of `s` are whole characters (`&s[0..10]`
/// is defined).
pub fn has_ten_byte_start(s: &str) -> (b: bool)
    ensures
        b == has_ten_byte_prefix(s@),
{
    let v = crate::text::chars_of(s);
    let mut acc: usize = 0;
    let mut k: usize = 0;
    assert(s@.skip(0) =~= s@);
    while acc < 10 && k < v.len()
        invariant
            v@ == s@,
            k <= v.len(),
            acc <= 10 + 4,
            utf8_len(utf8_prefix(s@, 10)) == acc + utf8_len(utf8_prefix(s@.skip(k as int), 10 - acc)),
        decreases v.len() - k,
    {
        let w = char_utf8_width(v[k]);
        proof {
            let t = s@.skip(k as int);
            assert(t.drop_first() =~= s@.skip(k + 1));
            assert(t[0] == s@[k as int]);
            let x = utf8_prefix(t.drop_first(), 10 - acc - w);
            assert((seq![t[0]] + x).drop_first() =~= x);
            assert((seq![t[0]] + x)[0] == t[0]);
        }
        acc = acc + w;
        k = k + 1;
    }
    acc == 10
}

/// Days since January 1, 1970 of the date at the start of `date`
/// (its first ten bytes, read by chrono as `YYYY-MM-DD`).
pub fn convert_date(date: &str) -> (r: Result<i64, Error>)
    requires
        has_ten_byte_prefix(date@),
    ensures
        r is Ok <==> chrono_parsed_day_number(ten_byte_prefix(date@)) is Some,
        r matches Ok(x) ==> chrono_parsed_day_number(ten_byte_prefix(date@)) == Some(
            x + unix_epoch_day(),
        ),
        r matches Err(e) ==> e == Error::FailedToParseDate,
        is_iso_date_shape(ten_byte_prefix(date@)) ==> ({
            let p = ten_byte_prefix(date@);
            &&& (r is Ok <==> is_valid_date(iso_year(p), iso_month(p), iso_day(p)))
            &&& (r matches Ok(x) ==> x == days_since_epoch(iso_year(p), iso_month(p), iso_day(p)))
        }),
{
    let p = first_ten_bytes(date);
    match chrono_parse_date(p) {
        Some(n) => Ok(n as i64 - 719163),
        None => Err(Error::FailedToParseDate),
    }
}

/// The ISO date text `YYYY-MM-DD` of a Unix timestamp in seconds.
pub fn convert_timestamp_to_date_string(timestamp: i64) -> (r: Result<String, Error>)
    ensures
        r is Ok <==> chrono_utc_date_text(timestamp as int) is Some,
        r is Ok <==> utc_date_in_chrono_range(timestamp as int),
        r matches Ok(t) ==> chrono_utc_date_text(timestamp as int) == Some(t@),
        r matches Err(e) ==> e == Error::FailedToConvertDate,
        dates_text_as_iso(timestamp as int, opt_text(r.ok())),
{
    match chrono_format_utc_date(timestamp) {
        Some(t) => Ok(t),
        None => Err(Error::FailedToConvertDate),
    }
}

} // verus!
