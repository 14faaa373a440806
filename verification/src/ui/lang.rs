//! Choosing the language of the interface.

use crate::text::chars_of;
use crate::ui::input::{trim, trimmed};
use vstd::prelude::*;
use vstd::string::*;

verus! {

/// Locale code for Simplified Chinese.
pub const ZH: &'static str = "zh-CN";

/// Locale code for English.
pub const EN: &'static str = "en";

/// Whether an OS locale is a Chinese one.
pub open spec fn is_chinese(locale: Seq<char>) -> bool {
    locale.len() >= 2 && (locale[0] == 'z' || locale[0] == 'Z') && (locale[1] == 'h' || locale[1]
        == 'H')
}

/// The supported code for an OS locale.
pub open spec fn code_for(locale: Seq<char>) -> Seq<char> {
    if is_chinese(locale) {
        "zh-CN"@
    } else {
        "en"@
    }
}

/// Normalize an OS locale string (e.g. `"zh-Hans-CN"`, `"en-US"`) to one of
/// the supported locale codes: anything Chinese → `zh-CN`, everything else
/// → `en`.
pub fn normalize(locale: &str) -> (r: &'static str)
    ensures
        r@ == code_for(locale@),
{
    let c = chars_of(locale);
    if c.len() >= 2 && (c[0] == 'z' || c[0] == 'Z') && (c[1] == 'h' || c[1] == 'H') {
        "zh-CN"
    } else {
        "en"
    }
}

/// The code that the contents of a settings file name, if we support it.
pub open spec fn saved_code(contents: Seq<char>) -> Option<Seq<char>> {
    let code = trimmed(contents);
    if code == "en"@ || code == "zh-CN"@ {
        Some(code)
    } else {
        None
    }
}

/// The saved language code (`"en"` / `"zh-CN"`), if the contents of the
/// settings file are one we support.
pub fn read_code(contents: &str) -> (r: Option<&'static str>)
    ensures
        match r {
            Some(code) => saved_code(contents@) == Some(code@),
            None => saved_code(contents@) is None,
        },
{
    let code = trim(contents);
    if code == "en".to_owned() {
        Some("en")
    } else if code == "zh-CN".to_owned() {
        Some("zh-CN")
    } else {
        None
    }
}

/// The startup language: the saved choice if there is a supported one,
/// otherwise what the system's locale asks for, otherwise English.
pub open spec fn startup_code(saved: Option<Seq<char>>, system: Option<Seq<char>>) -> Seq<char> {
    match saved {
        Some(contents) if saved_code(contents) is Some => saved_code(contents)->0,
        _ => match system {
            Some(locale) => code_for(locale),
            None => "en"@,
        },
    }
}

/// What an optional text holds.
pub open spec fn opt_str(s: Option<&str>) -> Option<Seq<char>> {
    match s {
        Some(t) => Some(t@),
        None => None,
    }
}

/// Choose the startup language from the contents of the settings file and the
/// system's locale, where there are any.
pub fn startup_language(saved: Option<&str>, system: Option<&str>) -> (r: &'static str)
    ensures
        r@ == startup_code(opt_str(saved), opt_str(system)),
{
    if let Some(contents) = saved {
        if let Some(code) = read_code(contents) {
            return code;
        }
    }
    match system {
        Some(locale) => normalize(locale),
        None => "en",
    }
}

} // verus!
