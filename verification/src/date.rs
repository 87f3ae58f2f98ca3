//! The calendar date value type and proleptic Gregorian day-number arithmetic.
//!
//! A [`CalendarDate`] is a plain (year, month, day) triple whose validity is
//! the spec predicate [`CalendarDate::valid`]. Dates of the years
//! [`MIN_YEAR`] through [`MAX_YEAR`] are representable; everything outside
//! that range is reported as out of range by the arithmetic.
//!
//! Each valid date corresponds to a unique *day number*: the count of days
//! from the first day of year 0 (so the smallest valid date, January 1 of
//! year 1, has day number 366 — year 0 is a leap year). Day numbers make
//! day-level arithmetic and week computations a matter of integer arithmetic;
//! [`lemma_day_number_injective`] and [`lemma_day_number_surjective`] state
//! that valid dates and in-range day numbers are in bijection.

use vstd::prelude::*;

verus! {

/// The first representable year.
pub const MIN_YEAR: u32 = 1;

/// The last representable year.
pub const MAX_YEAR: u32 = 9999;

/// A proleptic Gregorian calendar date.
///
/// The fields are plain numbers; a date is meaningful when
/// [`CalendarDate::valid`] holds, which every constructor of this crate
/// establishes and every arithmetic function preserves.
#[derive(Debug, Clone, Copy, PartialEq, Eq, Structural)]
pub struct CalendarDate {
    pub year: u32,
    pub month: u32,
    pub day: u32,
}

/// Whether `y` is a leap year of the proleptic Gregorian calendar.
pub open spec fn is_leap_year(y: int) -> bool {
    (y % 4 == 0 && y % 100 != 0) || y % 400 == 0
}

/// How many days year `y` has.
pub open spec fn days_in_year(y: int) -> int {
    if is_leap_year(y) {
        366
    } else {
        365
    }
}

/// How many days month `m` of year `y` has.
pub open spec fn days_in_month(y: int, m: int) -> int {
    if m == 2 {
        if is_leap_year(y) {
            29
        } else {
            28
        }
    } else if m == 4 || m == 6 || m == 9 || m == 11 {
        30
    } else {
        31
    }
}

/// Whether (`y`, `m`, `d`) is a valid calendar date of the representable range.
pub open spec fn valid_ymd(y: int, m: int, d: int) -> bool {
    &&& MIN_YEAR <= y <= MAX_YEAR
    &&& 1 <= m <= 12
    &&& 1 <= d <= days_in_month(y, m)
}

/// Days of the years 0, ..., `y - 1` together: the day number of January 1
/// of year `y`.
pub open spec fn days_before_year(y: int) -> int
    decreases y,
{
    if y <= 0 {
        0
    } else {
        days_before_year(y - 1) + days_in_year(y - 1)
    }
}

/// Days of the months 1, ..., `m - 1` of year `y` together.
pub open spec fn days_before_month(y: int, m: int) -> int
    decreases m,
{
    if m <= 1 {
        0
    } else {
        days_before_month(y, m - 1) + days_in_month(y, m - 1)
    }
}

/// The day number of (`y`, `m`, `d`): days from January 1 of year 0.
pub open spec fn day_number_of(y: int, m: int, d: int) -> int {
    days_before_year(y) + days_before_month(y, m) + d - 1
}

/// The smallest day number of a valid date (January 1 of `MIN_YEAR`).
pub open spec fn min_day_number() -> int {
    day_number_of(MIN_YEAR as int, 1, 1)
}

/// The largest day number of a valid date (December 31 of `MAX_YEAR`).
pub open spec fn max_day_number() -> int {
    day_number_of(MAX_YEAR as int, 12, 31)
}

/// The valid date carrying day number `n`, for `n` in range; unique by
/// [`lemma_day_number_injective`], and existing by
/// [`lemma_day_number_surjective`].
pub open spec fn date_of_day_number(n: int) -> CalendarDate {
    choose|d: CalendarDate| d.valid() && d.day_number() == n
}

impl CalendarDate {
    /// Whether this is a valid date of the representable range.
    pub open spec fn valid(self) -> bool {
        valid_ymd(self.year as int, self.month as int, self.day as int)
    }

    /// The day number of this date.
    pub open spec fn day_number(self) -> int {
        day_number_of(self.year as int, self.month as int, self.day as int)
    }

    /// Builds the date (`year`, `month`, `day`), or `None` where the triple
    /// is no valid calendar date of the representable range.
    pub fn from_ymd(year: u32, month: u32, day: u32) -> (r: Option<CalendarDate>)
        ensures
            r == if valid_ymd(year as int, month as int, day as int) {
                Some(CalendarDate { year, month, day })
            } else {
                None::<CalendarDate>
            },
    {
        if MIN_YEAR <= year && year <= MAX_YEAR && 1 <= month && month <= 12 && 1 <= day
            && day <= month_length(year, month) {
            Some(CalendarDate { year, month, day })
        } else {
            None
        }
    }

    /// The year of this date.
    pub fn year(&self) -> (r: u32)
        ensures
            r == self.year,
    {
        self.year
    }

    /// The month of this date, 1 through 12.
    pub fn month(&self) -> (r: u32)
        ensures
            r == self.month,
    {
        self.month
    }

    /// The day of the month of this date, 1 through 31.
    pub fn day(&self) -> (r: u32)
        ensures
            r == self.day,
    {
        self.day
    }
}

/// Whether `y` is a leap year.
pub fn leap_year(y: u32) -> (r: bool)
    ensures
        r == is_leap_year(y as int),
{
    (y % 4 == 0 && y % 100 != 0) || y % 400 == 0
}

/// How many days year `y` has.
pub fn year_length(y: u32) -> (r: u32)
    ensures
        r == days_in_year(y as int),
{
    if leap_year(y) {
        366
    } else {
        365
    }
}

/// How many days month `m` of year `y` has.
pub fn month_length(y: u32, m: u32) -> (r: u32)
    requires
        1 <= m <= 12,
    ensures
        r == days_in_month(y as int, m as int),
{
    if m == 2 {
        if leap_year(y) {
            29
        } else {
            28
        }
    } else if m == 4 || m == 6 || m == 9 || m == 11 {
        30
    } else {
        31
    }
}

/// Later years have later January firsts: each year adds 365 or 366 days.
pub proof fn lemma_days_before_year_monotone(y1: int, y2: int)
    requires
        0 <= y1 <= y2,
    ensures
        days_before_year(y1) + 365 * (y2 - y1) <= days_before_year(y2),
        days_before_year(y2) <= days_before_year(y1) + 366 * (y2 - y1),
    decreases y2 - y1,
{
    if y1 < y2 {
        lemma_days_before_year_monotone(y1, y2 - 1);
    }
}

/// Later months start later in the year: each month adds 28 to 31 days.
pub proof fn lemma_days_before_month_monotone(y: int, m1: int, m2: int)
    requires
        1 <= m1 <= m2,
    ensures
        days_before_month(y, m1) + 28 * (m2 - m1) <= days_before_month(y, m2),
        days_before_month(y, m2) <= days_before_month(y, m1) + 31 * (m2 - m1),
    decreases m2 - m1,
{
    if m1 < m2 {
        lemma_days_before_month_monotone(y, m1, m2 - 1);
    }
}

/// The twelve months of year `y` together hold all of its days.
pub proof fn lemma_year_days(y: int)
    ensures
        days_before_month(y, 13) == days_in_year(y),
{
    reveal_with_fuel(days_before_month, 13);
}

/// A valid date's day number lies in the representable range, and within the
/// day numbers of its own year.
pub proof fn lemma_day_number_bounds(d: CalendarDate)
    requires
        d.valid(),
    ensures
        min_day_number() <= d.day_number() <= max_day_number(),
        days_before_year(d.year as int) <= d.day_number(),
        d.day_number() < days_before_year(d.year as int + 1),
{
    let y = d.year as int;
    let m = d.month as int;
    lemma_days_before_month_monotone(y, 1, m);
    lemma_days_before_month_monotone(y, m + 1, 13);
    lemma_year_days(y);
    lemma_days_before_year_monotone(1, y);
    lemma_days_before_year_monotone(y + 1, MAX_YEAR + 1);
    lemma_year_days(MAX_YEAR as int);
    lemma_days_before_month_monotone(MAX_YEAR as int, 12, 13);
}

/// Two valid dates with the same day number are the same date.
pub proof fn lemma_day_number_injective(a: CalendarDate, b: CalendarDate)
    requires
        a.valid(),
        b.valid(),
        a.day_number() == b.day_number(),
    ensures
        a == b,
{
    lemma_day_number_bounds(a);
    lemma_day_number_bounds(b);
    if a.year < b.year {
        lemma_days_before_year_monotone(a.year as int + 1, b.year as int);
        assert(false);
    }
    if b.year < a.year {
        lemma_days_before_year_monotone(b.year as int + 1, a.year as int);
        assert(false);
    }
    let y = a.year as int;
    if a.month < b.month {
        lemma_days_before_month_monotone(y, a.month as int + 1, b.month as int);
        assert(false);
    }
    if b.month < a.month {
        lemma_days_before_month_monotone(y, b.month as int + 1, a.month as int);
        assert(false);
    }
}

/// Every day number of the representable range is carried by a valid date,
/// so [`date_of_day_number`] yields it.
pub proof fn lemma_day_number_surjective(n: int)
    requires
        min_day_number() <= n <= max_day_number(),
    ensures
        date_of_day_number(n).valid(),
        date_of_day_number(n).day_number() == n,
    decreases n - min_day_number(),
{
    if n == min_day_number() {
        let e = CalendarDate { year: MIN_YEAR, month: 1, day: 1 };
        assert(e.valid() && e.day_number() == n);
    } else {
        lemma_day_number_surjective(n - 1);
        let d = date_of_day_number(n - 1);
        let y = d.year as int;
        let m = d.month as int;
        if (d.day as int) < days_in_month(y, m) {
            let e = CalendarDate { year: d.year, month: d.month, day: (d.day + 1) as u32 };
            assert(e.valid() && e.day_number() == n);
        } else if d.month < 12 {
            let e = CalendarDate { year: d.year, month: (d.month + 1) as u32, day: 1 };
            assert(e.valid() && e.day_number() == n);
        } else {
            lemma_year_days(y);
            if d.year == MAX_YEAR {
                // d would be the last representable day, but its successor is
                // still in range: impossible.
                assert(d.day_number() == max_day_number());
                assert(false);
            }
            let e = CalendarDate { year: (d.year + 1) as u32, month: 1, day: 1 };
            assert(e.valid() && e.day_number() == n);
        }
    }
}

/// Stepping the numerator of a division by one raises the quotient exactly
/// where the new numerator is a multiple of the divisor.
proof fn lemma_div_succ(x: int, d: int)
    requires
        0 < d,
        0 <= x,
    ensures
        (x + 1) / d == x / d + if (x + 1) % d == 0 {
            1int
        } else {
            0int
        },
{
    let q = x / d;
    let r = x % d;
    vstd::arithmetic::div_mod::lemma_fundamental_div_mod(x, d);
    vstd::arithmetic::div_mod::lemma_mod_bound(x, d);
    if r == d - 1 {
        assert(x + 1 == (q + 1) * d + 0) by (nonlinear_arith)
            requires
                x == d * q + r,
                r == d - 1,
        ;
        vstd::arithmetic::div_mod::lemma_fundamental_div_mod_converse(x + 1, d, q + 1, 0);
    } else {
        assert(x + 1 == q * d + (r + 1)) by (nonlinear_arith)
            requires
                x == d * q + r,
        ;
        vstd::arithmetic::div_mod::lemma_fundamental_div_mod_converse(x + 1, d, q, r + 1);
    }
}

/// A multiple of 400 is a multiple of 100, and one of 100 a multiple of 4.
proof fn lemma_divisibility_chain(x: int)
    ensures
        x % 400 == 0 ==> x % 100 == 0,
        x % 100 == 0 ==> x % 4 == 0,
{
    if x % 400 == 0 {
        vstd::arithmetic::div_mod::lemma_fundamental_div_mod(x, 400);
        vstd::arithmetic::div_mod::lemma_mod_multiples_vanish(4 * (x / 400), 0, 100);
    }
    if x % 100 == 0 {
        vstd::arithmetic::div_mod::lemma_fundamental_div_mod(x, 100);
        vstd::arithmetic::div_mod::lemma_mod_multiples_vanish(25 * (x / 100), 0, 4);
    }
}

/// The closed form of [`days_before_year`]: 365 days a year plus one for
/// every leap year passed.
pub proof fn lemma_days_before_year_closed(y: int)
    requires
        0 <= y,
    ensures
        days_before_year(y) == 365 * y + (y + 3) / 4 - (y + 99) / 100 + (y + 399) / 400,
    decreases y,
{
    if y > 0 {
        let x = y - 1;
        lemma_days_before_year_closed(x);
        lemma_div_succ(x + 3, 4);
        lemma_div_succ(x + 99, 100);
        lemma_div_succ(x + 399, 400);
        vstd::arithmetic::div_mod::lemma_mod_multiples_vanish(1, x, 4);
        vstd::arithmetic::div_mod::lemma_mod_multiples_vanish(1, x, 100);
        vstd::arithmetic::div_mod::lemma_mod_multiples_vanish(1, x, 400);
        lemma_divisibility_chain(x);
    }
}

/// The concrete bounds of the representable day numbers.
pub proof fn lemma_day_number_range()
    ensures
        min_day_number() == 366,
        max_day_number() == 3652424,
{
    lemma_days_before_year_closed(1);
    lemma_days_before_year_closed(10000);
    assert(days_before_year(10000) == days_before_year(9999) + days_in_year(9999));
    lemma_year_days(MAX_YEAR as int);
    lemma_days_before_month_monotone(MAX_YEAR as int, 12, 13);
}

impl CalendarDate {
    /// The day number of this date, as a machine integer.
    pub fn to_day_number(&self) -> (n: u32)
        requires
            self.valid(),
        ensures
            n == self.day_number(),
    {
        let mut acc: u32 = 0;
        let mut y: u32 = 0;
        while y < self.year
            invariant
                self.valid(),
                y <= self.year,
                acc == days_before_year(y as int),
                acc <= 366 * y,
            decreases self.year - y,
        {
            acc = acc + year_length(y);
            y = y + 1;
        }
        let mut m: u32 = 1;
        while m < self.month
            invariant
                self.valid(),
                1 <= m <= self.month,
                acc == days_before_year(self.year as int) + days_before_month(
                    self.year as int,
                    m as int,
                ),
                acc <= 366 * self.year + 31 * m,
            decreases self.month - m,
        {
            acc = acc + month_length(self.year, m);
            m = m + 1;
        }
        acc + self.day - 1
    }
}

/// The weekday of day number `n`, counted Monday = 0 through Sunday = 6.
///
/// January 1 of year 1 (day number 366) is a Monday, which anchors the
/// count: `(366 + 5) % 7 == 0`.
pub open spec fn weekday_of_day_number(n: int) -> int {
    (n + 5) % 7
}

impl CalendarDate {
    /// The day number of the Thursday of this date's ISO 8601 week (the week
    /// runs Monday through Sunday, and its Thursday decides which year the
    /// week belongs to).
    pub open spec fn iso_thursday_number(self) -> int {
        self.day_number() + 3 - weekday_of_day_number(self.day_number())
    }

    /// The ISO 8601 week-numbering year of this date: the calendar year of
    /// the Thursday of its week.
    pub open spec fn iso_week_year(self) -> int {
        date_of_day_number(self.iso_thursday_number()).year as int
    }

    /// The ISO 8601 week of year of this date, 1 through 53: how many whole
    /// weeks its week's Thursday lies after January 1 of the week year.
    pub open spec fn iso_week(self) -> int {
        (self.iso_thursday_number() - day_number_of(self.iso_week_year(), 1, 1)) / 7 + 1
    }
}

/// The Thursday of a valid date's ISO week is itself a representable day:
/// January 1 of year 1 is a Monday, so no week of a valid date starts before
/// it, and December 31 of year 9999 is a Friday, so no such week ends after
/// that year.
pub proof fn lemma_iso_thursday_in_range(d: CalendarDate)
    requires
        d.valid(),
    ensures
        min_day_number() <= d.iso_thursday_number() <= max_day_number(),
{
    lemma_day_number_bounds(d);
    lemma_day_number_range();
    let n = d.day_number();
    vstd::arithmetic::div_mod::lemma_fundamental_div_mod(n + 5, 7);
    vstd::arithmetic::div_mod::lemma_mod_bound(n + 5, 7);
}

/// The ISO week-numbering year and week of year of `date`.
pub fn iso_week_fields(date: &CalendarDate) -> (r: (u32, u32))
    requires
        date.valid(),
    ensures
        r.0 == date.iso_week_year(),
        r.1 == date.iso_week(),
        MIN_YEAR <= r.0 <= MAX_YEAR,
        1 <= r.1 <= 53,
{
    proof {
        lemma_day_number_bounds(*date);
        lemma_day_number_range();
        lemma_iso_thursday_in_range(*date);
    }
    let n = date.to_day_number();
    let wd = (n + 5) % 7;
    let th = n + 3 - wd;
    let tdate = from_day_number(th).unwrap();
    proof {
        lemma_day_number_surjective(th as int);
        lemma_day_number_bounds(tdate);
    }
    let jan1 = CalendarDate { year: tdate.year, month: 1, day: 1 };
    let base = jan1.to_day_number();
    let week = (th - base) / 7 + 1;
    proof {
        let y = tdate.year as int;
        assert(jan1.day_number() == days_before_year(y));
        lemma_year_days(y);
        lemma_days_before_month_monotone(y, 1, 13);
        assert(th - base < 366);
    }
    (tdate.year, week)
}

/// The valid date carrying day number `n`, or `None` where `n` lies outside
/// the representable range.
pub fn from_day_number(n: u32) -> (r: Option<CalendarDate>)
    ensures
        r is Some <==> min_day_number() <= n <= max_day_number(),
        r is Some ==> r->Some_0 == date_of_day_number(n as int),
{
    proof {
        lemma_day_number_range();
    }
    if n < 366 {
        return None;
    }
    let mut y: u32 = 0;
    let mut rem: u32 = n;
    loop
        invariant
            n >= 366,
            y <= MAX_YEAR,
            days_before_year(y as int) <= n,
            rem == n - days_before_year(y as int),
        ensures
            1 <= y <= MAX_YEAR,
            days_before_year(y as int) <= n,
            rem == n - days_before_year(y as int),
            rem < days_in_year(y as int),
        decreases MAX_YEAR - y,
    {
        let len = year_length(y);
        if rem < len {
            proof {
                if y == 0 {
                    assert(days_before_year(0) == 0);
                    assert(false);
                }
            }
            break;
        }
        if y == MAX_YEAR {
            proof {
                lemma_year_days(MAX_YEAR as int);
                lemma_days_before_month_monotone(MAX_YEAR as int, 12, 13);
                assert(n > max_day_number());
            }
            return None;
        }
        rem = rem - len;
        y = y + 1;
    }
    let mut m: u32 = 1;
    loop
        invariant
            1 <= y <= MAX_YEAR,
            1 <= m <= 12,
            days_before_year(y as int) + days_before_month(y as int, m as int) <= n,
            rem == n - days_before_year(y as int) - days_before_month(y as int, m as int),
            n - days_before_year(y as int) < days_in_year(y as int),
        ensures
            1 <= m <= 12,
            rem == n - days_before_year(y as int) - days_before_month(y as int, m as int),
            rem < days_in_month(y as int, m as int),
        decreases 12 - m,
    {
        let len = month_length(y, m);
        if rem < len {
            break;
        }
        proof {
            if m == 12 {
                lemma_year_days(y as int);
                assert(false);
            }
        }
        rem = rem - len;
        m = m + 1;
    }
    let d = CalendarDate { year: y, month: m, day: rem + 1 };
    proof {
        assert(d.valid());
        assert(d.day_number() == n);
        lemma_day_number_bounds(d);
        lemma_day_number_surjective(n as int);
        lemma_day_number_injective(d, date_of_day_number(n as int));
    }
    Some(d)
}

} // verus!
