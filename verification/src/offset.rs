//! Granularity-aware date offset arithmetic.
//!
//! An offset is a signed count of granularity units: years, months, weeks or
//! days. Day and week offsets move the day number; month and year offsets
//! move the month index with calendar-correct year carry, preserving the day
//! of the month and clamping it to the last day of the target month where it
//! would not exist (January 31 plus one month is the last day of February).

use vstd::prelude::*;

use crate::date::CalendarDate;
use crate::date::MAX_YEAR;
use crate::date::MIN_YEAR;
use crate::date::date_of_day_number;
use crate::date::days_in_month;
use crate::date::from_day_number;
use crate::date::lemma_day_number_bounds;
use crate::date::lemma_day_number_range;
use crate::date::lemma_day_number_surjective;
use crate::date::max_day_number;
use crate::date::min_day_number;
use crate::date::month_length;
use crate::tag::DateTag;

verus! {

/// Moving a date by whole days: its day number moved by `off`, where that
/// stays in the representable range.
pub open spec fn add_days(d: CalendarDate, off: int) -> Option<CalendarDate> {
    let n = d.day_number() + off;
    if min_day_number() <= n <= max_day_number() {
        Some(date_of_day_number(n))
    } else {
        None
    }
}

/// Moving a date by whole months with year carry; the day of the month is
/// preserved, clamped to the last day of the target month.
pub open spec fn add_months(d: CalendarDate, off: int) -> Option<CalendarDate> {
    let t = 12 * d.year + (d.month - 1) + off;
    let y = t / 12;
    let m = t % 12 + 1;
    if MIN_YEAR <= y <= MAX_YEAR {
        Some(
            CalendarDate {
                year: y as u32,
                month: m as u32,
                day: (if d.day <= days_in_month(y, m) {
                    d.day as int
                } else {
                    days_in_month(y, m)
                }) as u32,
            },
        )
    } else {
        None
    }
}

/// What applying `off` at granularity `tag` to `d` yields: a year is twelve
/// months, a week is seven days.
pub open spec fn add_offset_spec(d: CalendarDate, off: int, tag: DateTag) -> Option<CalendarDate> {
    match tag {
        DateTag::Y | DateTag::Yearly => add_months(d, 12 * off),
        DateTag::M | DateTag::Monthly => add_months(d, off),
        DateTag::W | DateTag::Weekly => add_days(d, 7 * off),
        DateTag::D | DateTag::Daily => add_days(d, off),
    }
}

/// Offset arithmetic yields valid dates.
pub proof fn lemma_add_offset_valid(d: CalendarDate, off: int, tag: DateTag)
    requires
        d.valid(),
        add_offset_spec(d, off, tag) is Some,
    ensures
        add_offset_spec(d, off, tag)->Some_0.valid(),
{
    match tag {
        DateTag::Y | DateTag::Yearly | DateTag::M | DateTag::Monthly => {
            let months = if tag is M || tag is Monthly {
                off
            } else {
                12 * off
            };
            let t = 12 * d.year + (d.month - 1) + months;
            vstd::arithmetic::div_mod::lemma_mod_bound(t, 12);
        },
        DateTag::W | DateTag::Weekly | DateTag::D | DateTag::Daily => {
            let days = if tag is D || tag is Daily {
                off
            } else {
                7 * off
            };
            lemma_day_number_surjective(d.day_number() + days);
        },
    }
}

/// Day and week offsets are additive: moving by `n` units and then by `m`
/// units is the one move by `n + m` units, whenever the first move stays in
/// the representable range.
pub proof fn lemma_daily_offset_additive(
    d: CalendarDate,
    e: CalendarDate,
    n: int,
    m: int,
    tag: DateTag,
)
    requires
        tag.is_daily() || tag.is_weekly(),
        d.valid(),
        add_offset_spec(d, n, tag) == Some(e),
    ensures
        add_offset_spec(e, m, tag) == add_offset_spec(d, n + m, tag),
{
    let unit: int = if tag.is_weekly() {
        7
    } else {
        1
    };
    lemma_day_number_surjective(d.day_number() + unit * n);
    assert(e.day_number() == d.day_number() + unit * n);
    assert(unit * (n + m) == unit * n + unit * m) by (nonlinear_arith);
}

/// Moves `date` by `off` days.
fn add_days_exec(date: &CalendarDate, off: i64) -> (r: Option<CalendarDate>)
    requires
        date.valid(),
        -0x1_0000_0000_0000 <= off <= 0x1_0000_0000_0000,
    ensures
        r == add_days(*date, off as int),
{
    proof {
        lemma_day_number_range();
        lemma_day_number_bounds(*date);
    }
    let n = date.to_day_number();
    let t: i64 = n as i64 + off;
    if t < 366 || t > 3652424 {
        None
    } else {
        from_day_number(t as u32)
    }
}

/// Moves `date` by `off` months.
fn add_months_exec(date: &CalendarDate, off: i64) -> (r: Option<CalendarDate>)
    requires
        date.valid(),
        -0x1_0000_0000_0000 <= off <= 0x1_0000_0000_0000,
    ensures
        r == add_months(*date, off as int),
{
    let t: i64 = 12 * (date.year as i64) + (date.month as i64 - 1) + off;
    if t < 12 || t > 119999 {
        proof {
            let ti = t as int;
            vstd::arithmetic::div_mod::lemma_fundamental_div_mod(ti, 12);
            vstd::arithmetic::div_mod::lemma_mod_bound(ti, 12);
        }
        None
    } else {
        let tu = t as u64;
        let y = (tu / 12) as u32;
        let m = (tu % 12 + 1) as u32;
        proof {
            let ti = t as int;
            vstd::arithmetic::div_mod::lemma_fundamental_div_mod(ti, 12);
            vstd::arithmetic::div_mod::lemma_mod_bound(ti, 12);
        }
        let dim = month_length(y, m);
        let day = if date.day <= dim {
            date.day
        } else {
            dim
        };
        Some(CalendarDate { year: y, month: m, day })
    }
}

/// Applies the signed `offset` to `date`, in the unit `tag_type` governs:
/// years, months, weeks or days. `None` where the resulting date would fall
/// outside the representable calendar range.
pub fn checked_add_offset(date: &CalendarDate, offset: i32, tag_type: &DateTag) -> (r: Option<
    CalendarDate,
>)
    requires
        date.valid(),
    ensures
        r == add_offset_spec(*date, offset as int, *tag_type),
        r is Some ==> r->Some_0.valid(),
{
    let r = match tag_type {
        DateTag::Y | DateTag::Yearly => add_months_exec(date, 12 * (offset as i64)),
        DateTag::M | DateTag::Monthly => add_months_exec(date, offset as i64),
        DateTag::W | DateTag::Weekly => add_days_exec(date, 7 * (offset as i64)),
        DateTag::D | DateTag::Daily => add_days_exec(date, offset as i64),
    };
    proof {
        if r is Some {
            lemma_add_offset_valid(*date, offset as int, *tag_type);
        }
    }
    r
}

} // verus!
