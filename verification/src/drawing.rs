//! The glyphs the stack-overview comment is drawn with, each overridable by
//! configuration; the defaults are written here.

use vstd::prelude::*;

verus! {

/// The drawing glyph set: the indent filler, the fork mark, and the
/// continuation mark.
#[derive(Debug, Clone)]
pub struct Drawing {
    pub space: String,
    pub fork: String,
    pub cont: String,
}

pub fn default_space() -> (r: String)
    ensures
        r@ == " "@,
{
    String::from_str(" ")
}

pub fn default_fork() -> (r: String)
    ensures
        r@ == "┣"@,
{
    String::from_str("┣")
}

pub fn default_cont() -> (r: String)
    ensures
        r@ == "┃"@,
{
    String::from_str("┃")
}

impl Default for Drawing {
    /// The glyph set with every glyph at its default.
    fn default() -> (r: Self)
        ensures
            r.space@ == " "@,
            r.fork@ == "┣"@,
            r.cont@ == "┃"@,
    {
        Drawing { space: default_space(), fork: default_fork(), cont: default_cont() }
    }
}

} // verus!
