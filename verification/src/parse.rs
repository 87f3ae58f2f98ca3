//! Lenient parsing of partial date strings.
//!
//! A date string is read by keeping only its digit characters, so
//! `2024-04-03`, `2024.04.03`, `2024/04/03`, `2024:04:03` and `20240403` all
//! denote the same date. The digits must number 4 (year), 6 (year and month)
//! or 8 (year, month and day); missing fields default to 1.

use vstd::prelude::*;

use crate::date::CalendarDate;
use crate::date::valid_ymd;
use crate::error::ParseError;

verus! {

/// Whether `c` is a decimal digit.
pub open spec fn is_digit_char(c: char) -> bool {
    48 <= c as u32 <= 57
}

/// The numeric value of the digit `c`.
pub open spec fn digit_val(c: char) -> int {
    c as u32 - 48
}

/// The digit characters of `s`, in order, everything else dropped.
pub open spec fn digits_of(s: Seq<char>) -> Seq<char>
    decreases s.len(),
{
    if s.len() == 0 {
        Seq::empty()
    } else if is_digit_char(s.last()) {
        digits_of(s.drop_last()).push(s.last())
    } else {
        digits_of(s.drop_last())
    }
}

/// The number the two digits of `ds` at `i` and `i + 1` denote.
pub open spec fn two_digit_number(ds: Seq<char>, i: int) -> int {
    10 * digit_val(ds[i]) + digit_val(ds[i + 1])
}

/// The number the four digits at the head of `ds` denote.
pub open spec fn four_digit_number(ds: Seq<char>) -> int {
    1000 * digit_val(ds[0]) + 100 * digit_val(ds[1]) + 10 * digit_val(ds[2]) + digit_val(ds[3])
}

/// The date with the fields (`y`, `m`, `d`), or the error where the triple is
/// no valid calendar date.
pub open spec fn date_from_fields(y: int, m: int, d: int) -> Result<CalendarDate, ParseError> {
    if valid_ymd(y, m, d) {
        Ok(CalendarDate { year: y as u32, month: m as u32, day: d as u32 })
    } else {
        Err(ParseError::InvalidDate)
    }
}

/// What parsing a date string yields: its digits are read as year,
/// year-month or year-month-day, missing fields defaulting to 1; any other
/// digit count is a length error.
pub open spec fn parse_spec(s: Seq<char>) -> Result<CalendarDate, ParseError> {
    let ds = digits_of(s);
    if ds.len() == 4 {
        date_from_fields(four_digit_number(ds), 1, 1)
    } else if ds.len() == 6 {
        date_from_fields(four_digit_number(ds), two_digit_number(ds, 4), 1)
    } else if ds.len() == 8 {
        date_from_fields(four_digit_number(ds), two_digit_number(ds, 4), two_digit_number(ds, 6))
    } else {
        Err(ParseError::InvalidLength)
    }
}

/// Every character [`digits_of`] keeps is a digit.
pub proof fn lemma_digits_of_digits(s: Seq<char>)
    ensures
        forall|i: int| 0 <= i < digits_of(s).len() ==> is_digit_char(#[trigger] digits_of(s)[i]),
    decreases s.len(),
{
    if s.len() > 0 {
        lemma_digits_of_digits(s.drop_last());
        if is_digit_char(s.last()) {
            let ds = digits_of(s);
            assert forall|i: int| 0 <= i < ds.len() implies is_digit_char(#[trigger] ds[i]) by {
                if i < ds.len() - 1 {
                    assert(ds[i] == digits_of(s.drop_last())[i]);
                } else {
                    assert(ds[i] == s.last());
                }
            }
        }
    }
}

/// Digit filtering distributes over concatenation.
pub proof fn lemma_digits_of_append(a: Seq<char>, b: Seq<char>)
    ensures
        digits_of(a + b) == digits_of(a) + digits_of(b),
    decreases b.len(),
{
    if b.len() == 0 {
        assert(a + b =~= a);
        assert(digits_of(a) + digits_of(b) =~= digits_of(a));
    } else {
        lemma_digits_of_append(a, b.drop_last());
        assert((a + b).drop_last() =~= a + b.drop_last());
        assert((a + b).last() == b.last());
        if is_digit_char(b.last()) {
            assert((digits_of(a) + digits_of(b.drop_last())).push(b.last()) =~= digits_of(a)
                + digits_of(b.drop_last()).push(b.last()));
        }
    }
}

/// A text of digits alone is left unchanged by digit filtering.
pub proof fn lemma_digits_of_all_digits(s: Seq<char>)
    requires
        forall|i: int| 0 <= i < s.len() ==> is_digit_char(#[trigger] s[i]),
    ensures
        digits_of(s) == s,
    decreases s.len(),
{
    if s.len() > 0 {
        assert(forall|i: int|
            0 <= i < s.drop_last().len() ==> is_digit_char(#[trigger] s.drop_last()[i]));
        lemma_digits_of_all_digits(s.drop_last());
        assert(s.drop_last().push(s.last()) =~= s);
    }
}

/// Separator invariance: two texts with the same digits parse alike, whatever
/// non-digit characters stand around the digits.
pub proof fn lemma_parse_separator_invariant(s1: Seq<char>, s2: Seq<char>)
    requires
        digits_of(s1) == digits_of(s2),
    ensures
        parse_spec(s1) == parse_spec(s2),
{
}

/// The numeric value of the digit `c`.
fn digit_value(c: char) -> (v: u32)
    requires
        is_digit_char(c),
    ensures
        v == digit_val(c),
        v <= 9,
{
    c as u32 - 48
}

/// Parses a loosely formatted date string into a date.
///
/// Only the digit characters of `s` count; they are read as `yyyy`, `yyyymm`
/// or `yyyymmdd`, with month and day defaulting to 1 where absent.
pub fn parse_date(s: &str) -> (r: Result<CalendarDate, ParseError>)
    ensures
        r == parse_spec(s@),
        r is Ok ==> r->Ok_0.valid(),
{
    let n = s.unicode_len();
    let mut ds: Vec<char> = Vec::new();
    let mut i: usize = 0;
    while i < n
        invariant
            n == s@.len(),
            i <= n,
            ds@ == digits_of(s@.subrange(0, i as int)),
        decreases n - i,
    {
        let c = s.get_char(i);
        proof {
            assert(s@.subrange(0, i + 1).drop_last() =~= s@.subrange(0, i as int));
            assert(s@.subrange(0, i + 1).last() == s@[i as int]);
        }
        let u = c as u32;
        if 48 <= u && u <= 57 {
            ds.push(c);
        }
        i = i + 1;
    }
    proof {
        assert(s@.subrange(0, n as int) =~= s@);
        lemma_digits_of_digits(s@);
    }
    if ds.len() == 4 {
        let y = 1000 * digit_value(ds[0]) + 100 * digit_value(ds[1]) + 10 * digit_value(ds[2])
            + digit_value(ds[3]);
        match CalendarDate::from_ymd(y, 1, 1) {
            Some(date) => Ok(date),
            None => Err(ParseError::InvalidDate),
        }
    } else if ds.len() == 6 {
        let y = 1000 * digit_value(ds[0]) + 100 * digit_value(ds[1]) + 10 * digit_value(ds[2])
            + digit_value(ds[3]);
        let m = 10 * digit_value(ds[4]) + digit_value(ds[5]);
        match CalendarDate::from_ymd(y, m, 1) {
            Some(date) => Ok(date),
            None => Err(ParseError::InvalidDate),
        }
    } else if ds.len() == 8 {
        let y = 1000 * digit_value(ds[0]) + 100 * digit_value(ds[1]) + 10 * digit_value(ds[2])
            + digit_value(ds[3]);
        let m = 10 * digit_value(ds[4]) + digit_value(ds[5]);
        let d = 10 * digit_value(ds[6]) + digit_value(ds[7]);
        match CalendarDate::from_ymd(y, m, d) {
            Some(date) => Ok(date),
            None => Err(ParseError::InvalidDate),
        }
    } else {
        Err(ParseError::InvalidLength)
    }
}

/// Parses `s` leniently into a date, `None` where it denotes none.
pub fn checked_date_from_str(s: &str) -> (r: Option<CalendarDate>)
    ensures
        r is Some <==> parse_spec(s@) is Ok,
        r is Some ==> r == Some(parse_spec(s@)->Ok_0) && r->Some_0.valid(),
{
    match parse_date(s) {
        Ok(d) => Some(d),
        Err(_) => None,
    }
}

/// Parses `s` leniently into a date, an error message where it denotes none.
pub fn try_date_from_str(s: &str) -> (r: Result<CalendarDate, &'static str>)
    ensures
        r is Ok <==> parse_spec(s@) is Ok,
        r is Ok ==> r == Ok::<_, &'static str>(parse_spec(s@)->Ok_0) && r->Ok_0.valid(),
        r is Err ==> r->Err_0@ == "conversion error"@,
{
    match parse_date(s) {
        Ok(d) => Ok(d),
        Err(_) => Err("conversion error"),
    }
}

} // verus!
