use fluent_locale::text::copy_chars;
use fluent_locale::text::same_chars;
use fluent_locale::text::same_text;
use fluent_locale::text::spells;
use fluent_locale::text::to_chars;
use fluent_locale::text::to_text;

#[test]
fn to_chars_gives_each_character() {
    assert_eq!(to_chars("en-US"), vec!['e', 'n', '-', 'U', 'S']);
    assert_eq!(to_chars(""), Vec::<char>::new());
    assert_eq!(to_chars("héé"), vec!['h', 'é', 'é']);
}

#[test]
fn to_text_gives_the_string() {
    assert_eq!(to_text(&vec!['e', 'n', '-', 'U', 'S']), "en-US");
    assert_eq!(to_text(&Vec::new()), "");
    assert_eq!(to_text(&to_chars("日本語")), "日本語");
}

#[test]
fn same_text_compares_characters() {
    assert!(same_text("en-US", "en-US"));
    assert!(same_text("", ""));
    assert!(!same_text("en-US", "en-us"));
    assert!(!same_text("en", "en-US"));
    assert!(!same_text("en-US", "en"));
    assert!(!same_text("é", "e"));
}

#[test]
fn same_chars_compares_characters() {
    assert!(same_chars(&to_chars("Latn"), &to_chars("Latn")));
    assert!(!same_chars(&to_chars("Latn"), &to_chars("Lat")));
    assert!(!same_chars(&to_chars("Latn"), &to_chars("Latm")));
    assert!(same_chars(&Vec::new(), &Vec::new()));
}

#[test]
fn spells_compares_a_vector_with_a_string() {
    assert!(spells(&vec!['e', 'n'], "en"));
    assert!(!spells(&vec!['e', 'n'], "eN"));
    assert!(!spells(&vec!['e', 'n'], "e"));
    assert!(!spells(&vec!['e'], "en"));
    assert!(spells(&Vec::new(), ""));
}

#[test]
fn copy_chars_copies() {
    let chars = to_chars("zh-Hant");
    assert_eq!(copy_chars(&chars), chars);
}
