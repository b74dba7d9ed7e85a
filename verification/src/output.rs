//! The fixed icon names used by progress messages, and the text each one
//! prints as.  Writing to the terminal is not this crate's concern; callers
//! take the text and show it.

use vstd::prelude::*;

verus! {

/// The kinds of progress message.
#[derive(Debug, Clone, Copy, PartialEq, Eq, Structural)]
pub enum Icons {
    Error,
    Info,
    Key,
    Land,
    OK,
    Question,
    Refresh,
    Sparkle,
    Stop,
    Wave,
}

/// The text printed for each icon.
pub fn icon_to_string(icon: Icons) -> (r: &'static str)
    ensures
        icon == Icons::Error ==> r@ == "💔"@,
        icon == Icons::Key ==> r@ == "🔑"@,
        icon == Icons::Land ==> r@ == "🛬"@,
        icon == Icons::OK ==> r@ == "✅"@,
        icon == Icons::Question ==> r@ == "❓"@,
        icon == Icons::Info ==> r@ == "❕"@,
        icon == Icons::Refresh ==> r@ == "🔁"@,
        icon == Icons::Sparkle ==> r@ == "✨"@,
        icon == Icons::Stop ==> r@ == "🛑"@,
        icon == Icons::Wave ==> r@ == "👋"@,
{
    match icon {
        Icons::Error => "💔",
        Icons::Key => "🔑",
        Icons::Land => "🛬",
        Icons::OK => "✅",
        Icons::Question => "❓",
        Icons::Info => "❕",
        Icons::Refresh => "🔁",
        Icons::Sparkle => "✨",
        Icons::Stop => "🛑",
        Icons::Wave => "👋",
    }
}

} // verus!
