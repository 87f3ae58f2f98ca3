use datetag::date::CalendarDate;
use datetag::error::ArithmeticError;
use datetag::generate::generate_tags;
use datetag::parse::parse_date;
use datetag::render::render_tag;
use datetag::style::DateStyle;
use datetag::tag::DateTag;

#[test]
fn test_generate_single_plain_daily() {
    let date = parse_date("20240427").unwrap();
    let tags = generate_tags(&date, &DateTag::Daily, DateStyle::Plain, 0, 1, "", "", false)
        .unwrap();
    assert_eq!(tags, vec!["20240427".to_string()]);
}

#[test]
fn test_generate_single_monthly_dot() {
    let date = parse_date("20240427").unwrap();
    let tags = generate_tags(&date, &DateTag::Monthly, DateStyle::Dot, 0, 1, "", "", false)
        .unwrap();
    assert_eq!(tags, vec!["2024.04".to_string()]);
}

#[test]
fn test_generate_single_offset_prefix() {
    let date = parse_date("20240312").unwrap();
    let tags = generate_tags(&date, &DateTag::Daily, DateStyle::Plain, 22, 1, "TEST_", "", false)
        .unwrap();
    assert_eq!(tags, vec!["TEST_20240403".to_string()]);
}

#[test]
fn test_generate_repeat_dot_daily() {
    let date = parse_date("20240312").unwrap();
    let tags = generate_tags(&date, &DateTag::Daily, DateStyle::Dot, 2, 3, "", "", false)
        .unwrap();
    assert_eq!(
        tags,
        vec![
            "2024.03.12\n".to_string(),
            "2024.03.14\n".to_string(),
            "2024.03.16\n".to_string(),
        ]
    );
}

#[test]
fn test_generate_single_negative_offset() {
    let date = parse_date("20240427").unwrap();
    let tags = generate_tags(&date, &DateTag::Daily, DateStyle::Plain, -1, 1, "", "", false)
        .unwrap();
    assert_eq!(tags, vec!["20240426".to_string()]);
}

#[test]
fn test_generate_single_requested_newline() {
    let date = parse_date("20240427").unwrap();
    let tags = generate_tags(&date, &DateTag::Daily, DateStyle::Plain, 0, 1, "", "", true)
        .unwrap();
    assert_eq!(tags, vec!["20240427\n".to_string()]);
}

#[test]
fn test_generate_prefix_and_suffix() {
    let date = parse_date("20240427").unwrap();
    let tags = generate_tags(&date, &DateTag::Daily, DateStyle::Plain, 0, 1, "LAB_", "", false)
        .unwrap();
    assert_eq!(tags, vec!["LAB_20240427".to_string()]);
    let tags = generate_tags(&date, &DateTag::Daily, DateStyle::Plain, 0, 1, "", "_rel", false)
        .unwrap();
    assert_eq!(tags, vec!["20240427_rel".to_string()]);
    let tags = generate_tags(&date, &DateTag::Daily, DateStyle::Plain, 0, 1, "LAB-", "_rel", false)
        .unwrap();
    assert_eq!(tags, vec!["LAB-20240427_rel".to_string()]);
}

#[test]
fn test_generate_repeat_daily_offset_one() {
    let date = parse_date("20240427").unwrap();
    let tags = generate_tags(&date, &DateTag::Daily, DateStyle::Plain, 1, 3, "", "", false)
        .unwrap();
    assert_eq!(
        tags,
        vec![
            "20240427\n".to_string(),
            "20240428\n".to_string(),
            "20240429\n".to_string(),
        ]
    );
}

#[test]
fn test_generate_monthly_run_clamps_each_step() {
    // the offset advances the previous date, so the clamp carries over
    let date = parse_date("20240131").unwrap();
    let tags = generate_tags(&date, &DateTag::Monthly, DateStyle::Dash, 1, 3, "", "", false)
        .unwrap();
    assert_eq!(
        tags,
        vec![
            "2024-01\n".to_string(),
            "2024-02\n".to_string(),
            "2024-03\n".to_string(),
        ]
    );
}

#[test]
fn test_generate_out_of_range_fails_whole_run() {
    let last = CalendarDate::from_ymd(9999, 12, 31).unwrap();
    let r = generate_tags(&last, &DateTag::Daily, DateStyle::Plain, 1, 1, "", "", false);
    assert_eq!(r, Err(ArithmeticError::OutOfRange));
    // a longer run fails as a whole even though the first moves succeed
    let r = generate_tags(&last, &DateTag::Yearly, DateStyle::Plain, -1, 200, "", "", false);
    assert!(r.is_ok());
    let r = generate_tags(&last, &DateTag::Yearly, DateStyle::Plain, 1, 200, "", "", false);
    assert_eq!(r, Err(ArithmeticError::OutOfRange));
}

#[test]
fn test_generate_longest_run() {
    let date = parse_date("20240427").unwrap();
    let tags = generate_tags(&date, &DateTag::Daily, DateStyle::Plain, 0, 255, "", "", false)
        .unwrap();
    assert_eq!(tags.len(), 255);
    assert!(tags.iter().all(|t| t == "20240427\n"));
}

#[test]
fn test_render_zero_padding() {
    let date = CalendarDate::from_ymd(202, 4, 3).unwrap();
    assert_eq!(render_tag(&date, &DateTag::Daily, DateStyle::Plain), "02020403");
    assert_eq!(render_tag(&date, &DateTag::Yearly, DateStyle::Plain), "0202");
}

#[test]
fn test_render_yearly_ignores_style() {
    let date = parse_date("20240427").unwrap();
    let plain = render_tag(&date, &DateTag::Yearly, DateStyle::Plain);
    assert_eq!(plain, "2024");
    for style in [DateStyle::Dot, DateStyle::Slash, DateStyle::Colon, DateStyle::Dash] {
        assert_eq!(render_tag(&date, &DateTag::Yearly, style), plain);
        assert_eq!(render_tag(&date, &DateTag::Y, style), plain);
    }
}

#[test]
fn test_render_daily_round_trip() {
    for text in ["20240427", "20231231", "00010101", "99991231", "20240229"] {
        let date = parse_date(text).unwrap();
        for style in [
            DateStyle::Plain,
            DateStyle::Dot,
            DateStyle::Slash,
            DateStyle::Colon,
            DateStyle::Dash,
        ] {
            let rendered = render_tag(&date, &DateTag::Daily, style);
            assert_eq!(parse_date(&rendered).unwrap(), date);
        }
    }
}

#[test]
fn test_render_weekly_iso_fields() {
    // 2024-04-27 is the Saturday of ISO week 17 of 2024
    let date = parse_date("20240427").unwrap();
    assert_eq!(render_tag(&date, &DateTag::Weekly, DateStyle::Plain), "202417");
    assert_eq!(render_tag(&date, &DateTag::W, DateStyle::Dash), "2024-17");

    // 2024-12-30 is a Monday and already belongs to week 1 of ISO year 2025
    let date = parse_date("20241230").unwrap();
    assert_eq!(render_tag(&date, &DateTag::Weekly, DateStyle::Plain), "202501");

    // 2021-01-01 is a Friday and still belongs to week 53 of ISO year 2020
    let date = parse_date("20210101").unwrap();
    assert_eq!(render_tag(&date, &DateTag::Weekly, DateStyle::Plain), "202053");
}

#[test]
fn test_generate_weekly_run() {
    let date = parse_date("20240427").unwrap();
    let tags = generate_tags(&date, &DateTag::Weekly, DateStyle::Plain, 1, 3, "", "", false)
        .unwrap();
    assert_eq!(
        tags,
        vec![
            "202417\n".to_string(),
            "202418\n".to_string(),
            "202419\n".to_string(),
        ]
    );
}

#[test]
fn test_short_and_long_granularities_agree() {
    let date = parse_date("20240427").unwrap();
    let pairs = [
        (DateTag::Y, DateTag::Yearly),
        (DateTag::W, DateTag::Weekly),
        (DateTag::M, DateTag::Monthly),
        (DateTag::D, DateTag::Daily),
    ];
    for (short, long) in pairs {
        assert_eq!(
            render_tag(&date, &short, DateStyle::Dot),
            render_tag(&date, &long, DateStyle::Dot)
        );
    }
}
