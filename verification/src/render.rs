//! Rendering a date as the body of a tag.
//!
//! A tag body holds the date fields the granularity asks for — the year for
//! yearly tags, year and month for monthly, year, month and day for daily,
//! and ISO week-numbering year and week for weekly — with the style's
//! separator between the fields. Years take four digits, every other field
//! two, zero-padded.

use vstd::prelude::*;

use crate::date::CalendarDate;
use crate::date::iso_week_fields;
use crate::error::ParseError;
use crate::parse::digit_val;
use crate::parse::digits_of;
use crate::parse::is_digit_char;
use crate::parse::lemma_digits_of_all_digits;
use crate::parse::lemma_digits_of_append;
use crate::parse::parse_spec;
use crate::style::DateStyle;
use crate::style::separator_str;
use crate::style::style_separator;
use crate::tag::DateTag;

verus! {

/// The character of the decimal digit `v`.
pub open spec fn digit_char(v: int) -> char {
    if v == 0 {
        '0'
    } else if v == 1 {
        '1'
    } else if v == 2 {
        '2'
    } else if v == 3 {
        '3'
    } else if v == 4 {
        '4'
    } else if v == 5 {
        '5'
    } else if v == 6 {
        '6'
    } else if v == 7 {
        '7'
    } else {
        if v == 8 {
            '8'
        } else {
            '9'
        }
    }
}

/// `n` rendered as two zero-padded decimal digits.
pub open spec fn two_digits(n: int) -> Seq<char> {
    seq![digit_char(n / 10 % 10), digit_char(n % 10)]
}

/// `n` rendered as four zero-padded decimal digits.
pub open spec fn four_digits(n: int) -> Seq<char> {
    seq![digit_char(n / 1000 % 10), digit_char(n / 100 % 10), digit_char(n / 10 % 10), digit_char(
        n % 10,
    )]
}

/// The characters of the tag body for `d` at granularity `tag` in `style`.
pub open spec fn render_spec(d: CalendarDate, tag: DateTag, style: DateStyle) -> Seq<char> {
    let sep = style_separator(style);
    match tag {
        DateTag::Y | DateTag::Yearly => four_digits(d.year as int),
        DateTag::W | DateTag::Weekly => four_digits(d.iso_week_year()) + sep + two_digits(
            d.iso_week(),
        ),
        DateTag::M | DateTag::Monthly => four_digits(d.year as int) + sep + two_digits(
            d.month as int,
        ),
        DateTag::D | DateTag::Daily => four_digits(d.year as int) + sep + two_digits(d.month as int)
            + sep + two_digits(d.day as int),
    }
}

/// The string slice holding the digit `v`.
fn digit_str(v: u32) -> (r: &'static str)
    requires
        v <= 9,
    ensures
        r@ == seq![digit_char(v as int)],
{
    proof {
        reveal_strlit("0");
        reveal_strlit("1");
        reveal_strlit("2");
        reveal_strlit("3");
        reveal_strlit("4");
        reveal_strlit("5");
        reveal_strlit("6");
        reveal_strlit("7");
        reveal_strlit("8");
        reveal_strlit("9");
    }
    let r = match v {
        0 => "0",
        1 => "1",
        2 => "2",
        3 => "3",
        4 => "4",
        5 => "5",
        6 => "6",
        7 => "7",
        8 => "8",
        _ => "9",
    };
    proof {
        assert(r@ =~= seq![digit_char(v as int)]);
    }
    r
}

/// Appends `n` to `s` as two zero-padded digits.
fn push_two_digits(s: &mut String, n: u32)
    requires
        n <= 99,
    ensures
        final (s)@ == old(s)@ + two_digits(n as int),
{
    s.append(digit_str(n / 10));
    s.append(digit_str(n % 10));
    proof {
        assert(old(s)@ + seq![digit_char(n as int / 10)] + seq![digit_char(n as int % 10)] =~= old(
            s,
        )@ + two_digits(n as int));
    }
}

/// Appends `n` to `s` as four zero-padded digits.
fn push_four_digits(s: &mut String, n: u32)
    requires
        n <= 9999,
    ensures
        final (s)@ == old(s)@ + four_digits(n as int),
{
    s.append(digit_str(n / 1000));
    s.append(digit_str(n / 100 % 10));
    s.append(digit_str(n / 10 % 10));
    s.append(digit_str(n % 10));
    proof {
        assert(old(s)@ + seq![digit_char(n as int / 1000)] + seq![digit_char(n as int / 100 % 10)]
            + seq![digit_char(n as int / 10 % 10)] + seq![digit_char(n as int % 10)] =~= old(s)@
            + four_digits(n as int));
    }
}

/// Renders the tag body for `date` at granularity `tag_type` in `style`.
pub fn render_tag(date: &CalendarDate, tag_type: &DateTag, style: DateStyle) -> (r: String)
    requires
        date.valid(),
    ensures
        r@ == render_spec(*date, *tag_type, style),
{
    let mut s = String::new();
    let sep = separator_str(style);
    match tag_type {
        DateTag::Y | DateTag::Yearly => {
            push_four_digits(&mut s, date.year);
        },
        DateTag::W | DateTag::Weekly => {
            let (wy, ww) = iso_week_fields(date);
            push_four_digits(&mut s, wy);
            s.append(sep);
            push_two_digits(&mut s, ww);
        },
        DateTag::M | DateTag::Monthly => {
            push_four_digits(&mut s, date.year);
            s.append(sep);
            push_two_digits(&mut s, date.month);
        },
        DateTag::D | DateTag::Daily => {
            push_four_digits(&mut s, date.year);
            s.append(sep);
            push_two_digits(&mut s, date.month);
            s.append(sep);
            push_two_digits(&mut s, date.day);
        },
    }
    proof {
        assert(s@ =~= render_spec(*date, *tag_type, style));
    }
    s
}

/// Yearly tags render identically under every style: a single field leaves
/// no separator to place.
pub proof fn lemma_yearly_render_style_invariant(
    d: CalendarDate,
    tag: DateTag,
    s1: DateStyle,
    s2: DateStyle,
)
    requires
        tag.is_yearly(),
    ensures
        render_spec(d, tag, s1) == render_spec(d, tag, s2),
{
}

/// The digit characters carry their values back.
proof fn lemma_digit_char_val(v: int)
    requires
        0 <= v <= 9,
    ensures
        is_digit_char(digit_char(v)),
        digit_val(digit_char(v)) == v,
{
}

/// `n` decomposes into its four rendered digits.
proof fn lemma_four_digit_decomposition(n: int)
    requires
        0 <= n <= 9999,
    ensures
        1000 * (n / 1000 % 10) + 100 * (n / 100 % 10) + 10 * (n / 10 % 10) + n % 10 == n,
{
    vstd::arithmetic::div_mod::lemma_fundamental_div_mod(n, 10);
    vstd::arithmetic::div_mod::lemma_fundamental_div_mod(n / 10, 10);
    vstd::arithmetic::div_mod::lemma_fundamental_div_mod(n / 100, 10);
    vstd::arithmetic::div_mod::lemma_div_denominator(n, 10, 10);
    vstd::arithmetic::div_mod::lemma_div_denominator(n, 100, 10);
    vstd::arithmetic::div_mod::lemma_mod_bound(n / 10, 10);
    vstd::arithmetic::div_mod::lemma_mod_bound(n / 100, 10);
    vstd::arithmetic::div_mod::lemma_small_mod((n / 1000) as nat, 10);
}

/// `n` decomposes into its two rendered digits.
proof fn lemma_two_digit_decomposition(n: int)
    requires
        0 <= n <= 99,
    ensures
        10 * (n / 10 % 10) + n % 10 == n,
{
    vstd::arithmetic::div_mod::lemma_fundamental_div_mod(n, 10);
    vstd::arithmetic::div_mod::lemma_small_mod((n / 10) as nat, 10);
}

/// Rendered digit fields hold digit characters alone.
proof fn lemma_digit_seqs_are_digits(n: int)
    ensures
        forall|i: int| 0 <= i < 4 ==> is_digit_char(#[trigger] four_digits(n)[i]),
        forall|i: int| 0 <= i < 2 ==> is_digit_char(#[trigger] two_digits(n)[i]),
{
    vstd::arithmetic::div_mod::lemma_mod_bound(n, 10);
    vstd::arithmetic::div_mod::lemma_mod_bound(n / 10, 10);
    vstd::arithmetic::div_mod::lemma_mod_bound(n / 100, 10);
    vstd::arithmetic::div_mod::lemma_mod_bound(n / 1000, 10);
    lemma_digit_char_val(n % 10);
    lemma_digit_char_val(n / 10 % 10);
    lemma_digit_char_val(n / 100 % 10);
    lemma_digit_char_val(n / 1000 % 10);
}

/// A style separator holds no digit, so digit filtering drops it whole.
proof fn lemma_digits_of_separator(style: DateStyle)
    ensures
        digits_of(style_separator(style)) == Seq::<char>::empty(),
{
    let sep = style_separator(style);
    if sep.len() > 0 {
        assert(!is_digit_char(sep.last()));
        assert(sep.drop_last() =~= Seq::<char>::empty());
        assert(digits_of(sep) == digits_of(sep.drop_last()));
        assert(digits_of(Seq::<char>::empty()) == Seq::<char>::empty());
    }
}

/// Round trip: a daily tag can be read back. Parsing a rendered daily tag
/// yields exactly the rendered date, under every separator style.
pub proof fn lemma_daily_round_trip(d: CalendarDate, tag: DateTag, style: DateStyle)
    requires
        d.valid(),
        tag.is_daily(),
    ensures
        parse_spec(render_spec(d, tag, style)) == Ok::<CalendarDate, ParseError>(d),
{
    let y = d.year as int;
    let m = d.month as int;
    let dd = d.day as int;
    let fy = four_digits(y);
    let tm = two_digits(m);
    let td = two_digits(dd);
    let sep = style_separator(style);
    let r = render_spec(d, tag, style);
    assert(r == fy + sep + tm + sep + td);
    lemma_digits_of_append(fy + sep + tm + sep, td);
    lemma_digits_of_append(fy + sep + tm, sep);
    lemma_digits_of_append(fy + sep, tm);
    lemma_digits_of_append(fy, sep);
    lemma_digit_seqs_are_digits(y);
    lemma_digit_seqs_are_digits(m);
    lemma_digit_seqs_are_digits(dd);
    lemma_digits_of_all_digits(fy);
    lemma_digits_of_all_digits(tm);
    lemma_digits_of_all_digits(td);
    lemma_digits_of_separator(style);
    let ds = digits_of(r);
    assert(ds =~= fy + tm + td);
    assert(ds.len() == 8);
    lemma_digit_char_val(y / 1000 % 10);
    lemma_digit_char_val(y / 100 % 10);
    lemma_digit_char_val(y / 10 % 10);
    lemma_digit_char_val(y % 10);
    lemma_digit_char_val(m / 10 % 10);
    lemma_digit_char_val(m % 10);
    lemma_digit_char_val(dd / 10 % 10);
    lemma_digit_char_val(dd % 10);
    vstd::arithmetic::div_mod::lemma_mod_bound(y, 10);
    vstd::arithmetic::div_mod::lemma_mod_bound(y / 10, 10);
    vstd::arithmetic::div_mod::lemma_mod_bound(y / 100, 10);
    vstd::arithmetic::div_mod::lemma_mod_bound(y / 1000, 10);
    vstd::arithmetic::div_mod::lemma_mod_bound(m, 10);
    vstd::arithmetic::div_mod::lemma_mod_bound(m / 10, 10);
    vstd::arithmetic::div_mod::lemma_mod_bound(dd, 10);
    vstd::arithmetic::div_mod::lemma_mod_bound(dd / 10, 10);
    lemma_four_digit_decomposition(y);
    lemma_two_digit_decomposition(m);
    lemma_two_digit_decomposition(dd);
}

} // verus!
