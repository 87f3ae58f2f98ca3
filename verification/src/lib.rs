//! Generation of date tags: short labels such as `TEST_202404` that encode a
//! calendar date at a chosen granularity (yearly, monthly, weekly or daily),
//! rendered with a selectable separator style and optionally decorated with a
//! prefix and a suffix.
//!
//! The crate is organised around a small verified calendar core:
//!
//! * [`date`] — the [`date::CalendarDate`] value type and proleptic Gregorian
//!   calendar arithmetic over day numbers;
//! * [`style`] — the separator styles a tag can be rendered with;
//! * [`tag`] — the tag granularities and their format templates;
//! * [`parse`] — lenient parsing of partial date strings;
//! * [`offset`] — granularity-aware date offset arithmetic;
//! * [`render`] — rendering of a date as a tag body;
//! * [`generate`] — generation of a whole sequence of decorated tags.

pub mod date;
pub mod error;
pub mod generate;
pub mod offset;
pub mod parse;
pub mod render;
pub mod style;
pub mod tag;
