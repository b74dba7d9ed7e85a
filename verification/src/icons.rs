//! The status icons shown beside progress messages, each overridable by
//! configuration; the defaults are written here.

use vstd::prelude::*;

verus! {

/// One icon: the text printed for it.
#[derive(Debug, Clone)]
pub struct Icon(pub String);

impl Icon {
    pub fn as_ref(&self) -> (r: &str)
        ensures
            r@ == self.0@,
    {
        self.0.as_str()
    }
}

/// The icon set: one per kind of message.
#[derive(Debug, Clone)]
pub struct Icons {
    pub error: Icon,
    pub key: Icon,
    pub land: Icon,
    pub ok: Icon,
    pub question: Icon,
    pub info: Icon,
    pub refresh: Icon,
    pub sparkle: Icon,
    pub stop: Icon,
    pub wave: Icon,
}

pub fn default_error() -> (r: Icon)
    ensures
        r.0@ == "💔"@,
{
    Icon(String::from_str("💔"))
}

pub fn default_key() -> (r: Icon)
    ensures
        r.0@ == "🔑"@,
{
    Icon(String::from_str("🔑"))
}

pub fn default_land() -> (r: Icon)
    ensures
        r.0@ == "🛬"@,
{
    Icon(String::from_str("🛬"))
}

pub fn default_ok() -> (r: Icon)
    ensures
        r.0@ == "✅"@,
{
    Icon(String::from_str("✅"))
}

pub fn default_question() -> (r: Icon)
    ensures
        r.0@ == "❓"@,
{
    Icon(String::from_str("❓"))
}

pub fn default_info() -> (r: Icon)
    ensures
        r.0@ == "❕"@,
{
    Icon(String::from_str("❕"))
}

pub fn default_refresh() -> (r: Icon)
    ensures
        r.0@ == "🔁"@,
{
    Icon(String::from_str("🔁"))
}

pub fn default_sparkle() -> (r: Icon)
    ensures
        r.0@ == "✨"@,
{
    Icon(String::from_str("✨"))
}

pub fn default_stop() -> (r: Icon)
    ensures
        r.0@ == "🛑"@,
{
    Icon(String::from_str("🛑"))
}

pub fn default_wave() -> (r: Icon)
    ensures
        r.0@ == "👋"@,
{
    Icon(String::from_str("👋"))
}

impl Default for Icons {
    /// The icon set with every icon at its default.
    fn default() -> (r: Self)
        ensures
            r.error.0@ == "💔"@,
            r.key.0@ == "🔑"@,
            r.land.0@ == "🛬"@,
            r.ok.0@ == "✅"@,
            r.question.0@ == "❓"@,
            r.info.0@ == "❕"@,
            r.refresh.0@ == "🔁"@,
            r.sparkle.0@ == "✨"@,
            r.stop.0@ == "🛑"@,
            r.wave.0@ == "👋"@,
    {
        Icons {
            error: default_error(),
            key: default_key(),
            land: default_land(),
            ok: default_ok(),
            question: default_question(),
            info: default_info(),
            refresh: default_refresh(),
            sparkle: default_sparkle(),
            stop: default_stop(),
            wave: default_wave(),
        }
    }
}

} // verus!
