use datetag::date::CalendarDate;
use datetag::offset::checked_add_offset;
use datetag::tag::DateTag;

const YEAR: u32 = 2022;
const MONTH: u32 = 10;
const DAY: u32 = 5;

fn ref_date() -> CalendarDate {
    CalendarDate::from_ymd(YEAR, MONTH, DAY).unwrap()
}

#[test]
fn test_checked_add_offset_positive_year() {
    let date = checked_add_offset(&ref_date(), 1, &DateTag::Yearly).unwrap();
    assert_eq!(date.year(), YEAR + 1);
    assert_eq!(date.month(), MONTH);
    assert_eq!(date.day(), DAY);
}

#[test]
fn test_checked_add_offset_negative_year() {
    let date = checked_add_offset(&ref_date(), -1, &DateTag::Yearly).unwrap();

    assert_eq!(date.year(), YEAR - 1);
    assert_eq!(date.month(), MONTH);
    assert_eq!(date.day(), DAY);
}

#[test]
fn test_checked_add_offset_positive_year_wrapping_century() {
    let date = checked_add_offset(&ref_date(), 100, &DateTag::Yearly).unwrap();

    assert_eq!(date.year(), YEAR + 100);
    assert_eq!(date.month(), MONTH);
    assert_eq!(date.day(), DAY);
}

#[test]
fn test_checked_add_offset_negative_year_wrapping_century() {
    let date = checked_add_offset(&ref_date(), -100, &DateTag::Yearly).unwrap();

    assert_eq!(date.year(), YEAR - 100);
    assert_eq!(date.month(), MONTH);
    assert_eq!(date.day(), DAY);
}

#[test]
fn test_checked_add_offset_positive_day() {
    let date = checked_add_offset(&ref_date(), 1, &DateTag::Daily).unwrap();

    assert_eq!(date.year(), YEAR);
    assert_eq!(date.month(), MONTH);
    assert_eq!(date.day(), DAY + 1);
}

#[test]
fn test_checked_add_offset_negative_day() {
    let date = checked_add_offset(&ref_date(), -1, &DateTag::Daily).unwrap();

    assert_eq!(date.year(), YEAR);
    assert_eq!(date.month(), MONTH);
    assert_eq!(date.day(), DAY - 1);
}

#[test]
fn test_checked_add_offset_positive_day_wrapping_month() {
    let date = checked_add_offset(&ref_date(), 30, &DateTag::Daily).unwrap();

    assert_eq!(date.year(), YEAR);
    assert_eq!(date.month(), MONTH + 1);
    assert_eq!(date.day(), DAY - 1);
}

#[test]
fn test_checked_add_offset_negative_day_wrapping_month() {
    let date = checked_add_offset(&ref_date(), -30, &DateTag::Daily).unwrap();

    assert_eq!(date.year(), YEAR);
    assert_eq!(date.month(), MONTH - 1);
    assert_eq!(date.day(), DAY);
}

#[test]
fn test_checked_add_offset_positive_month() {
    let date = checked_add_offset(&ref_date(), 1, &DateTag::Monthly).unwrap();

    assert_eq!(date.year(), YEAR);
    assert_eq!(date.month(), MONTH + 1);
    assert_eq!(date.day(), DAY);
}

#[test]
fn test_checked_add_offset_negative_month() {
    let date = checked_add_offset(&ref_date(), -1, &DateTag::Monthly).unwrap();

    assert_eq!(date.year(), YEAR);
    assert_eq!(date.month(), MONTH - 1);
    assert_eq!(date.day(), DAY);
}

#[test]
fn test_checked_add_offset_positive_month_wrapping_year() {
    let date = checked_add_offset(&ref_date(), 3, &DateTag::Monthly).unwrap();

    assert_eq!(date.year(), YEAR + 1);
    assert_eq!(date.month(), 1);
    assert_eq!(date.day(), DAY);
}

#[test]
fn test_checked_add_offset_negative_month_wrapping_year() {
    let date = checked_add_offset(&ref_date(), -12, &DateTag::Monthly).unwrap();

    assert_eq!(date.year(), YEAR - 1);
    assert_eq!(date.month(), MONTH);
    assert_eq!(date.day(), DAY);
}

#[test]
fn test_checked_add_offset_month_clamps_to_month_end() {
    // January 31 plus one month: 2024 is a leap year, so February 29
    let date = CalendarDate::from_ymd(2024, 1, 31).unwrap();
    let date = checked_add_offset(&date, 1, &DateTag::Monthly).unwrap();
    assert_eq!(date.year(), 2024);
    assert_eq!(date.month(), 2);
    assert_eq!(date.day(), 29);

    // January 31 plus one month in a non-leap year: February 28
    let date = CalendarDate::from_ymd(2023, 1, 31).unwrap();
    let date = checked_add_offset(&date, 1, &DateTag::Monthly).unwrap();
    assert_eq!(date.year(), 2023);
    assert_eq!(date.month(), 2);
    assert_eq!(date.day(), 28);
}

#[test]
fn test_checked_add_offset_year_clamps_leap_day() {
    // February 29 plus one year lands on February 28
    let date = CalendarDate::from_ymd(2024, 2, 29).unwrap();
    let date = checked_add_offset(&date, 1, &DateTag::Yearly).unwrap();
    assert_eq!(date.year(), 2025);
    assert_eq!(date.month(), 2);
    assert_eq!(date.day(), 28);
}

#[test]
fn test_checked_add_offset_week_is_seven_days() {
    let by_week = checked_add_offset(&ref_date(), 2, &DateTag::Weekly).unwrap();
    let by_days = checked_add_offset(&ref_date(), 14, &DateTag::Daily).unwrap();
    assert_eq!(by_week, by_days);
    assert_eq!(by_week.day(), DAY + 14);
}

#[test]
fn test_checked_add_offset_out_of_range() {
    let last = CalendarDate::from_ymd(9999, 12, 31).unwrap();
    assert!(checked_add_offset(&last, 1, &DateTag::Daily).is_none());
    assert!(checked_add_offset(&last, 1, &DateTag::Monthly).is_none());
    assert!(checked_add_offset(&last, 1, &DateTag::Yearly).is_none());

    let first = CalendarDate::from_ymd(1, 1, 1).unwrap();
    assert!(checked_add_offset(&first, -1, &DateTag::Daily).is_none());
    assert!(checked_add_offset(&first, -1, &DateTag::Monthly).is_none());
    assert!(checked_add_offset(&first, -1, &DateTag::Yearly).is_none());
}

#[test]
fn test_checked_add_offset_daily_additive() {
    // moving by 40 days and then by -15 equals moving by 25 at once
    let once = checked_add_offset(&ref_date(), 25, &DateTag::Daily).unwrap();
    let step1 = checked_add_offset(&ref_date(), 40, &DateTag::Daily).unwrap();
    let step2 = checked_add_offset(&step1, -15, &DateTag::Daily).unwrap();
    assert_eq!(once, step2);
}

#[test]
fn test_checked_add_offset_zero_is_identity() {
    let date = checked_add_offset(&ref_date(), 0, &DateTag::Daily).unwrap();
    assert_eq!(date, ref_date());
    let date = checked_add_offset(&ref_date(), 0, &DateTag::Monthly).unwrap();
    assert_eq!(date, ref_date());
}
