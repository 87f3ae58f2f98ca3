//! The tag granularities and their format templates.

use vstd::prelude::*;

use crate::style::DateStyle;

verus! {

/// The granularity of a date tag: the temporal resolution it encodes.
///
/// Each granularity comes in a long form and a single-letter short form; the
/// two behave identically everywhere.
#[derive(Debug, Clone, Copy, PartialEq, Eq, Structural)]
pub enum DateTag {
    /// Short form of [`DateTag::Yearly`].
    Y,
    /// Yearly tags (e.g. 2022).
    Yearly,
    /// Short form of [`DateTag::Weekly`].
    W,
    /// Weekly ISO 8601 tags (e.g. 202234).
    Weekly,
    /// Short form of [`DateTag::Monthly`].
    M,
    /// Monthly tags (e.g. 202212).
    Monthly,
    /// Short form of [`DateTag::Daily`].
    D,
    /// Daily tags (e.g. 20221230).
    Daily,
}

impl DateTag {
    /// Whether this granularity is yearly (long or short form).
    pub open spec fn is_yearly(self) -> bool {
        self is Y || self is Yearly
    }

    /// Whether this granularity is weekly (long or short form).
    pub open spec fn is_weekly(self) -> bool {
        self is W || self is Weekly
    }

    /// Whether this granularity is monthly (long or short form).
    pub open spec fn is_monthly(self) -> bool {
        self is M || self is Monthly
    }

    /// Whether this granularity is daily (long or short form).
    pub open spec fn is_daily(self) -> bool {
        self is D || self is Daily
    }
}

/// The format template of a (granularity, style) pair: a lookup table over
/// the full product of the two enums.
///
/// The field letters follow the strftime convention: `%Y` year, `%m` month,
/// `%d` day of month, `%G` ISO week-numbering year, `%V` ISO week of year.
/// A yearly tag has a single field, so every style maps to the same template.
pub open spec fn format_template(tag: DateTag, style: DateStyle) -> Seq<char> {
    match tag {
        DateTag::Y | DateTag::Yearly => "%Y"@,
        DateTag::W | DateTag::Weekly => match style {
            DateStyle::Plain => "%G%V"@,
            DateStyle::Dot => "%G.%V"@,
            DateStyle::Slash => "%G/%V"@,
            DateStyle::Colon => "%G:%V"@,
            DateStyle::Dash => "%G-%V"@,
        },
        DateTag::M | DateTag::Monthly => match style {
            DateStyle::Plain => "%Y%m"@,
            DateStyle::Dot => "%Y.%m"@,
            DateStyle::Slash => "%Y/%m"@,
            DateStyle::Colon => "%Y:%m"@,
            DateStyle::Dash => "%Y-%m"@,
        },
        DateTag::D | DateTag::Daily => match style {
            DateStyle::Plain => "%Y%m%d"@,
            DateStyle::Dot => "%Y.%m.%d"@,
            DateStyle::Slash => "%Y/%m/%d"@,
            DateStyle::Colon => "%Y:%m:%d"@,
            DateStyle::Dash => "%Y-%m-%d"@,
        },
    }
}

impl DateTag {
    /// The format template associated with this granularity and `style`.
    pub fn get_format(&self, style: DateStyle) -> (r: &'static str)
        ensures
            r@ == format_template(*self, style),
    {
        match (self, style) {
            (DateTag::Y | DateTag::Yearly, _) => "%Y",
            (DateTag::W | DateTag::Weekly, DateStyle::Plain) => "%G%V",
            (DateTag::W | DateTag::Weekly, DateStyle::Dot) => "%G.%V",
            (DateTag::W | DateTag::Weekly, DateStyle::Slash) => "%G/%V",
            (DateTag::W | DateTag::Weekly, DateStyle::Colon) => "%G:%V",
            (DateTag::W | DateTag::Weekly, DateStyle::Dash) => "%G-%V",
            (DateTag::M | DateTag::Monthly, DateStyle::Plain) => "%Y%m",
            (DateTag::M | DateTag::Monthly, DateStyle::Dot) => "%Y.%m",
            (DateTag::M | DateTag::Monthly, DateStyle::Slash) => "%Y/%m",
            (DateTag::M | DateTag::Monthly, DateStyle::Colon) => "%Y:%m",
            (DateTag::M | DateTag::Monthly, DateStyle::Dash) => "%Y-%m",
            (DateTag::D | DateTag::Daily, DateStyle::Plain) => "%Y%m%d",
            (DateTag::D | DateTag::Daily, DateStyle::Dot) => "%Y.%m.%d",
            (DateTag::D | DateTag::Daily, DateStyle::Slash) => "%Y/%m/%d",
            (DateTag::D | DateTag::Daily, DateStyle::Colon) => "%Y:%m:%d",
            (DateTag::D | DateTag::Daily, DateStyle::Dash) => "%Y-%m-%d",
        }
    }
}

/// A yearly tag has no separator to place, so its format template does not
/// depend on the style at all.
pub proof fn lemma_yearly_template_style_invariant(tag: DateTag, s1: DateStyle, s2: DateStyle)
    requires
        tag.is_yearly(),
    ensures
        format_template(tag, s1) == format_template(tag, s2),
{
}

} // verus!
