//! The separator styles a date tag can be rendered with.

use vstd::prelude::*;

verus! {

/// The separator convention used when rendering a multi-field date tag.
///
/// A style is purely a formatting concern: it never changes which date a tag
/// denotes, only which character stands between the rendered fields.
#[derive(Debug, Clone, Copy, PartialEq, Eq, Structural)]
pub enum DateStyle {
    /// `yyyymmdd`
    Plain,
    /// `yyyy.mm.dd`
    Dot,
    /// `yyyy/mm/dd`
    Slash,
    /// `yyyy:mm:dd`
    Colon,
    /// `yyyy-mm-dd`
    Dash,
}

/// The characters a style puts between rendered date fields: none for
/// [`DateStyle::Plain`], one separator character otherwise.
pub open spec fn style_separator(style: DateStyle) -> Seq<char> {
    match style {
        DateStyle::Plain => Seq::empty(),
        DateStyle::Dot => seq!['.'],
        DateStyle::Slash => seq!['/'],
        DateStyle::Colon => seq![':'],
        DateStyle::Dash => seq!['-'],
    }
}

/// The separator of `style`, as a string slice.
pub fn separator_str(style: DateStyle) -> (r: &'static str)
    ensures
        r@ == style_separator(style),
{
    proof {
        reveal_strlit("");
        reveal_strlit(".");
        reveal_strlit("/");
        reveal_strlit(":");
        reveal_strlit("-");
    }
    let r = match style {
        DateStyle::Plain => "",
        DateStyle::Dot => ".",
        DateStyle::Slash => "/",
        DateStyle::Colon => ":",
        DateStyle::Dash => "-",
    };
    proof {
        assert(r@ =~= style_separator(style));
    }
    r
}

} // verus!
