//! Choosing the language of the interface.

use pe_edit::ui::lang::{normalize, read_code, startup_language, EN, ZH};
use pe_edit::ui::texts::{locale_keys, TEXTS};
use std::collections::BTreeSet;

fn key_set(locale: &str) -> BTreeSet<&'static str> {
    locale_keys(locale).into_iter().collect()
}

#[test]
fn locales_cover_the_same_keys() {
    let en = key_set("en");
    let zh = key_set("zh-CN");
    assert_eq!(en, zh, "both languages must define the same keys");
    assert!(
        en.len() > 50,
        "expected a substantial key set, got {}",
        en.len()
    );
}

#[test]
fn texts_have_distinct_keys_and_say_something() {
    assert_eq!(key_set("en").len(), TEXTS.len());
    assert!(locale_keys("fr").is_empty());
    for (key, english, chinese) in TEXTS {
        assert!(!english.is_empty() && !chinese.is_empty(), "{key}");
        // The parts to fill in are the same in both languages.
        assert_eq!(english.matches("%{").count(), chinese.matches("%{").count(), "{key}");
    }
    assert!(TEXTS.contains(&("menu.file", "File", "文件")));
}

#[test]
fn normalize_maps_to_supported_codes() {
    assert_eq!(normalize("zh-CN"), "zh-CN");
    assert_eq!(normalize("zh-Hans-CN"), "zh-CN");
    assert_eq!(normalize("zh-TW"), "zh-CN");
    assert_eq!(normalize("en-US"), "en");
    assert_eq!(normalize("en"), "en");
    assert_eq!(normalize(""), "en");
}

#[test]
fn letter_case_of_a_locale_does_not_matter() {
    assert_eq!(normalize("ZH_cn"), ZH);
    assert_eq!(normalize("Zh"), ZH);
    assert_eq!(normalize("z"), EN);
    assert_eq!(normalize("xzh"), EN);
}

#[test]
fn settings_hold_a_supported_code_or_nothing() {
    assert_eq!(read_code(" zh-CN\n"), Some("zh-CN"));
    assert_eq!(read_code("en"), Some("en"));
    assert_eq!(read_code("EN"), None);
    assert_eq!(read_code("fr"), None);
    assert_eq!(read_code(""), None);
}

#[test]
fn saved_choice_comes_before_the_system() {
    assert_eq!(startup_language(Some("en"), Some("zh-CN")), "en");
    assert_eq!(startup_language(Some("stale"), Some("zh-CN")), "zh-CN");
    assert_eq!(startup_language(None, Some("de-DE")), "en");
    assert_eq!(startup_language(None, None), "en");
}
