use fluent_locale::negotiate::likely_subtags::add;
use fluent_locale::Locale;

fn likely(tag: &str) -> Option<&'static str> {
    let chars: Vec<char> = tag.chars().collect();
    add(&chars)
}

#[test]
fn language_has_a_likely_script_and_region() {
    assert_eq!(likely("en"), Some("en-Latn-US"));
    assert_eq!(likely("fr"), Some("fr-Latn-FR"));
    assert_eq!(likely("ru"), Some("ru-Cyrl-RU"));
    assert_eq!(likely("ja"), Some("ja-Jpan-JP"));
    assert_eq!(likely("zh"), Some("zh-Hans-CN"));
    assert_eq!(likely("sr"), Some("sr-Cyrl-RS"));
    assert_eq!(likely("zh-HK"), Some("zh-Hant-HK"));
}

#[test]
fn script_or_region_changes_what_is_likely() {
    assert_eq!(likely("zh-Hant"), Some("zh-Hant-TW"));
    assert_eq!(likely("zh-TW"), Some("zh-Hant-TW"));
    assert_eq!(likely("sr-ME"), Some("sr-Latn-ME"));
    assert_eq!(likely("az-IR"), Some("az-Arab-IR"));
}

#[test]
fn unknown_tag_has_no_likely_form() {
    assert_eq!(likely("en-US"), None);
    assert_eq!(likely("tlh"), None);
    assert_eq!(likely(""), None);
    assert_eq!(likely("e"), None);
    assert_eq!(likely("enx"), None);
}

#[test]
fn table_is_keyed_by_canonical_spelling() {
    assert_eq!(likely("EN"), None);
    assert_eq!(likely("zh-hant"), None);
    assert_eq!(likely("zh_TW"), None);
}

#[test]
fn likely_forms_are_canonical_tags() {
    let keys = [
        "en", "fr", "de", "es", "it", "pt", "nl", "pl", "sv", "da", "tr", "ru", "uk", "be", "sr",
        "sr-ME", "el", "ar", "fa", "az-IR", "he", "hi", "ta", "ja", "ko", "zh", "zh-Hant", "zh-TW",
        "zh-HK",
    ];
    for key in keys {
        let full = match likely(key) {
            Some(full) => full,
            None => panic!("{} has no likely form", key),
        };
        let locale = match Locale::new(full) {
            Ok(locale) => locale,
            Err(error) => panic!("{} does not parse: {:?}", full, error),
        };
        assert_eq!(locale.to_string(), full);
        assert!(!locale.get_script().is_empty());
        assert!(!locale.get_region().is_empty());
        let short = match Locale::new(key) {
            Ok(locale) => locale,
            Err(error) => panic!("{} does not parse: {:?}", key, error),
        };
        assert_eq!(short.to_string(), key);
        assert!(locale.matches(&short, true, false));
    }
}
