//! Generation of a whole sequence of decorated tags.
//!
//! A run of `repeat` tags starts from a reference date. With `repeat == 1`
//! the offset is applied once *before* formatting, so the single tag already
//! reflects it. With `repeat > 1` the first tag shows the reference date
//! unmodified and the offset advances the date between tags. Generation is
//! all or nothing: if any move leaves the representable calendar range, no
//! tags are returned at all.
//!
//! With `repeat > 1` every line is newline-terminated; a single tag gets a
//! trailing newline only where one is asked for.

use vstd::prelude::*;

use crate::date::CalendarDate;
use crate::error::ArithmeticError;
use crate::offset::add_offset_spec;
use crate::offset::checked_add_offset;
use crate::render::render_spec;
use crate::render::render_tag;
use crate::style::DateStyle;
use crate::tag::DateTag;

verus! {

/// The date the tag at index `k` shows: `start` moved `k` times by `off`,
/// `None` as soon as a move leaves the representable range.
pub open spec fn nth_date(start: CalendarDate, off: int, tag: DateTag, k: nat) -> Option<
    CalendarDate,
>
    decreases k,
{
    if k == 0 {
        Some(start)
    } else {
        match nth_date(start, off, tag, (k - 1) as nat) {
            Some(d) => add_offset_spec(d, off, tag),
            None => None,
        }
    }
}

/// Once a move fails, every later one does.
pub proof fn lemma_nth_date_none(start: CalendarDate, off: int, tag: DateTag, k1: nat, k2: nat)
    requires
        k1 <= k2,
        nth_date(start, off, tag, k1) is None,
    ensures
        nth_date(start, off, tag, k2) is None,
    decreases k2,
{
    if k1 < k2 {
        lemma_nth_date_none(start, off, tag, k1, (k2 - 1) as nat);
    }
}

/// One decorated output line: prefix, tag body, suffix, and a newline where
/// one is owed.
pub open spec fn decorated_tag(
    d: CalendarDate,
    tag: DateTag,
    style: DateStyle,
    prefix: Seq<char>,
    suffix: Seq<char>,
    newline: bool,
) -> Seq<char> {
    prefix + render_spec(d, tag, style) + suffix + if newline {
        seq!['\n']
    } else {
        Seq::<char>::empty()
    }
}

/// Builds the decorated line for `date`.
fn make_tag(
    date: &CalendarDate,
    tag_type: &DateTag,
    style: DateStyle,
    prefix: &str,
    suffix: &str,
    newline: bool,
) -> (r: String)
    requires
        date.valid(),
    ensures
        r@ == decorated_tag(*date, *tag_type, style, prefix@, suffix@, newline),
{
    let mut s = String::new();
    s.append(prefix);
    let body = render_tag(date, tag_type, style);
    s.append(body.as_str());
    s.append(suffix);
    if newline {
        proof {
            reveal_strlit("\n");
        }
        s.append("\n");
    }
    proof {
        assert(s@ =~= decorated_tag(*date, *tag_type, style, prefix@, suffix@, newline));
    }
    s
}

/// Generates `repeat` decorated tags from `date`, each the previous date
/// advanced by `offset` in the unit of `tag_type`.
///
/// A single tag reflects the offset immediately; a longer run starts at the
/// reference date and advances between tags, every line newline-terminated.
/// As soon as a move leaves the representable calendar range, the whole run
/// fails and no tags are returned.
pub fn generate_tags(
    date: &CalendarDate,
    tag_type: &DateTag,
    style: DateStyle,
    offset: i32,
    repeat: u8,
    prefix: &str,
    suffix: &str,
    new_line: bool,
) -> (r: Result<Vec<String>, ArithmeticError>)
    requires
        date.valid(),
        repeat >= 1,
    ensures
        r is Ok <==> nth_date(
            *date,
            offset as int,
            *tag_type,
            if repeat == 1 {
                1nat
            } else {
                (repeat - 1) as nat
            },
        ) is Some,
        r is Err ==> r->Err_0 == ArithmeticError::OutOfRange,
        r is Ok ==> r->Ok_0@.len() == repeat,
        repeat == 1 && r is Ok ==> r->Ok_0@[0]@ == decorated_tag(
            nth_date(*date, offset as int, *tag_type, 1)->Some_0,
            *tag_type,
            style,
            prefix@,
            suffix@,
            new_line,
        ),
        repeat > 1 && r is Ok ==> forall|k: int|
            0 <= k < repeat ==> r->Ok_0@[k]@ == decorated_tag(
                nth_date(*date, offset as int, *tag_type, k as nat)->Some_0,
                *tag_type,
                style,
                prefix@,
                suffix@,
                true,
            ),
{
    if repeat == 1 {
        proof {
            assert(nth_date(*date, offset as int, *tag_type, 0) == Some(*date));
            assert(nth_date(*date, offset as int, *tag_type, 1) == add_offset_spec(
                *date,
                offset as int,
                *tag_type,
            ));
        }
        match checked_add_offset(date, offset, tag_type) {
            Some(d1) => {
                let t = make_tag(&d1, tag_type, style, prefix, suffix, new_line);
                let mut out: Vec<String> = Vec::new();
                out.push(t);
                Ok(out)
            },
            None => Err(ArithmeticError::OutOfRange),
        }
    } else {
        let mut out: Vec<String> = Vec::new();
        let mut current: CalendarDate = *date;
        let mut k: u8 = 0;
        while k < repeat
            invariant
                repeat > 1,
                k <= repeat,
                date.valid(),
                k < repeat ==> nth_date(*date, offset as int, *tag_type, k as nat) == Some(current)
                    && current.valid(),
                k > 0 ==> nth_date(*date, offset as int, *tag_type, (k - 1) as nat) is Some,
                out@.len() == k,
                forall|j: int|
                    0 <= j < k ==> out@[j]@ == decorated_tag(
                        nth_date(*date, offset as int, *tag_type, j as nat)->Some_0,
                        *tag_type,
                        style,
                        prefix@,
                        suffix@,
                        true,
                    ),
            decreases repeat - k,
        {
            let t = make_tag(&current, tag_type, style, prefix, suffix, true);
            out.push(t);
            if k + 1 < repeat {
                match checked_add_offset(&current, offset, tag_type) {
                    Some(d) => {
                        current = d;
                    },
                    None => {
                        proof {
                            lemma_nth_date_none(
                                *date,
                                offset as int,
                                *tag_type,
                                (k + 1) as nat,
                                (repeat - 1) as nat,
                            );
                        }
                        return Err(ArithmeticError::OutOfRange);
                    },
                }
            }
            k = k + 1;
        }
        Ok(out)
    }
}

} // verus!
