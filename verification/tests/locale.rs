use fluent_locale::Locale;
use fluent_locale::LocaleError;

fn locale(tag: &str) -> Locale {
    match Locale::new(tag) {
        Ok(locale) => locale,
        Err(error) => panic!("{} does not parse: {:?}", tag, error),
    }
}

fn error(tag: &str) -> LocaleError {
    match Locale::new(tag) {
        Ok(locale) => panic!("{} parses as {}", tag, locale.to_string()),
        Err(error) => error,
    }
}

#[test]
fn language_alone() {
    let en = locale("en");
    assert_eq!(en.get_language(), "en");
    assert_eq!(en.get_script(), "");
    assert_eq!(en.get_region(), "");
    assert!(en.get_variants().is_empty());
    assert_eq!(en.to_string(), "en");
}

#[test]
fn every_subtag() {
    let tag = locale("sl-Latn-IT-rozaj-biske");
    assert_eq!(tag.get_language(), "sl");
    assert_eq!(tag.get_script(), "Latn");
    assert_eq!(tag.get_region(), "IT");
    assert_eq!(tag.get_variants(), vec!["rozaj".to_string(), "biske".to_string()]);
    assert_eq!(tag.to_string(), "sl-Latn-IT-rozaj-biske");
}

#[test]
fn subtags_are_read_into_canonical_spelling() {
    assert_eq!(locale("EN_latn_us_POSIX").to_string(), "en-Latn-US-posix");
    assert_eq!(locale("zh-hANT").to_string(), "zh-Hant");
    assert_eq!(locale("ES-419").to_string(), "es-419");
}

#[test]
fn region_without_script() {
    let tag = locale("pt-BR");
    assert_eq!(tag.get_script(), "");
    assert_eq!(tag.get_region(), "BR");
}

#[test]
fn region_of_three_digits() {
    assert_eq!(locale("es-419").get_region(), "419");
}

#[test]
fn long_language() {
    assert_eq!(locale("Tokipona").get_language(), "tokipona");
    assert_eq!(locale("abcde").get_language(), "abcde");
}

#[test]
fn short_variants() {
    let tag = locale("ja-JP-mac");
    assert_eq!(tag.get_region(), "JP");
    assert_eq!(tag.get_variants(), vec!["mac".to_string()]);
    assert_eq!(locale("de-1996").get_variants(), vec!["1996".to_string()]);
    assert_eq!(locale("zh-yue").get_variants(), vec!["yue".to_string()]);
}

#[test]
fn tags_without_language_are_refused() {
    assert_eq!(error(""), LocaleError::InvalidLanguage);
    assert_eq!(error("e"), LocaleError::InvalidLanguage);
    assert_eq!(error("latn"), LocaleError::InvalidLanguage);
    assert_eq!(error("e1"), LocaleError::InvalidLanguage);
    assert_eq!(error("-en"), LocaleError::InvalidLanguage);
    assert_eq!(error("abcdefghi"), LocaleError::InvalidLanguage);
    assert_eq!(error("!!!"), LocaleError::InvalidLanguage);
    assert_eq!(error("én"), LocaleError::InvalidLanguage);
    assert_eq!(error("en US"), LocaleError::InvalidLanguage);
}

#[test]
fn subtags_out_of_place_are_refused() {
    assert_eq!(error("en-"), LocaleError::InvalidSubtag);
    assert_eq!(error("en--US"), LocaleError::InvalidSubtag);
    assert_eq!(error("en-US-x"), LocaleError::InvalidSubtag);
    assert_eq!(error("en-US-GB"), LocaleError::InvalidSubtag);
    assert_eq!(error("en-US-Latn"), LocaleError::InvalidSubtag);
    assert_eq!(error("en-Latn-Cyrl"), LocaleError::InvalidSubtag);
    assert_eq!(error("en-US-419"), LocaleError::InvalidSubtag);
    assert_eq!(error("en-U S"), LocaleError::InvalidSubtag);
    assert_eq!(error("en-posix-toolongvariant"), LocaleError::InvalidSubtag);
}

#[test]
fn reference_of_a_malformed_tag_has_no_subtags() {
    let none = Locale::from_tag("not a tag");
    assert_eq!(none.to_string(), "");
    assert_eq!(none.get_language(), "");
    assert_eq!(Locale::undetermined().to_string(), "");
    assert_eq!(Locale::from_tag("en-gb").to_string(), "en-GB");
}

#[test]
fn exact_match_needs_every_subtag_equal() {
    let reference = locale("en-US");
    assert!(locale("en-us").matches(&reference, false, false));
    assert!(!locale("en").matches(&reference, false, false));
    assert!(!locale("en-Latn-US").matches(&reference, false, false));
    assert!(!locale("en-US-posix").matches(&reference, false, false));
    assert!(!locale("en-GB").matches(&reference, false, false));
}

#[test]
fn range_match_compares_subtags_that_both_have() {
    let reference = locale("en-US");
    assert!(locale("en").matches(&reference, true, false));
    assert!(locale("en-Latn-US").matches(&reference, true, false));
    assert!(locale("en-US-posix").matches(&reference, true, false));
    assert!(locale("en-Latn").matches(&reference, true, false));
    assert!(!locale("en-GB").matches(&reference, true, false));
    assert!(!locale("fr-US").matches(&reference, true, false));
    assert!(locale("en-GB").matches(&locale("en"), true, false));
    assert!(!locale("en-Cyrl").matches(&locale("en-Latn-US"), true, false));
}

#[test]
fn range_match_compares_variants_as_a_whole() {
    let reference = locale("ja-JP-mac");
    assert!(locale("ja-JP-mac").matches(&reference, true, false));
    assert!(locale("ja-JP").matches(&reference, true, false));
    assert!(!locale("ja-JP-win").matches(&reference, true, false));
    assert!(!locale("ja-JP-mac-win").matches(&reference, true, false));
}

#[test]
fn variant_as_range_accepts_any_variants() {
    let reference = locale("ja-JP-mac");
    assert!(locale("ja-JP-win").matches(&reference, true, true));
    assert!(locale("ja-JP-mac-win").matches(&reference, true, true));
    assert!(!locale("ja-US-win").matches(&reference, true, true));
    assert!(locale("ja-JP-win").matches(&reference, false, true));
    assert!(!locale("ja-win").matches(&reference, false, true));
}

#[test]
fn locale_without_subtags_is_served_by_all_as_range() {
    let none = Locale::undetermined();
    assert!(locale("en").matches(&none, true, false));
    assert!(locale("sr-Cyrl-RS-ekavsk").matches(&none, true, false));
    assert!(!locale("en").matches(&none, false, false));
    assert!(none.matches(&none, false, false));
}

#[test]
fn clear_variants_removes_them_all() {
    let mut tag = locale("sl-IT-rozaj-biske");
    tag.clear_variants();
    assert_eq!(tag.to_string(), "sl-IT");
    assert!(tag.get_variants().is_empty());
    tag.clear_variants();
    assert_eq!(tag.to_string(), "sl-IT");
}

#[test]
fn set_region_replaces_or_removes() {
    let mut tag = locale("en-Latn-US-posix");
    assert_eq!(tag.set_region("gb"), Ok(()));
    assert_eq!(tag.to_string(), "en-Latn-GB-posix");
    assert_eq!(tag.set_region("419"), Ok(()));
    assert_eq!(tag.get_region(), "419");
    assert_eq!(tag.set_region(""), Ok(()));
    assert_eq!(tag.to_string(), "en-Latn-posix");
    assert_eq!(tag.set_region(""), Ok(()));
    assert_eq!(tag.get_region(), "");
}

#[test]
fn set_region_refuses_what_is_no_region() {
    let mut tag = locale("en-US");
    assert_eq!(tag.set_region("U"), Err(LocaleError::InvalidRegion));
    assert_eq!(tag.set_region("USA"), Err(LocaleError::InvalidRegion));
    assert_eq!(tag.set_region("4199"), Err(LocaleError::InvalidRegion));
    assert_eq!(tag.set_region("U-"), Err(LocaleError::InvalidRegion));
    assert_eq!(tag.set_region("41"), Err(LocaleError::InvalidRegion));
    assert_eq!(tag.to_string(), "en-US");
}

#[test]
fn clear_region_removes_it() {
    let mut tag = locale("en-Latn-US-posix");
    tag.clear_region();
    assert_eq!(tag.to_string(), "en-Latn-posix");
    tag.clear_region();
    assert_eq!(tag.to_string(), "en-Latn-posix");
    let mut other = locale("en-Latn-US-posix");
    assert_eq!(other.set_region(""), Ok(()));
    assert!(other.matches(&tag, false, false));
}

#[test]
fn canonical_tag_reads_back_as_the_same_locale() {
    for tag in ["en", "en-US", "zh-Hant-TW", "sl-Latn-IT-rozaj-biske", "ja-mac", "es-419"] {
        let first = locale(tag);
        let second = locale(&first.to_string());
        assert_eq!(first.to_string(), second.to_string());
        assert!(first.matches(&second, false, false));
    }
}

#[test]
fn to_chars_spells_the_canonical_tag() {
    let chars: Vec<char> = "en-Latn-US".chars().collect();
    assert_eq!(locale("en_latn_us").to_chars(), chars);
}

#[test]
fn clone_is_the_same_locale() {
    let tag = locale("sl-Latn-IT-rozaj-biske");
    let copy = tag.clone();
    assert_eq!(copy.to_string(), "sl-Latn-IT-rozaj-biske");
    assert!(copy.matches(&tag, false, false));
    assert_eq!(format!("{:?}", LocaleError::InvalidSubtag), "InvalidSubtag");
}
