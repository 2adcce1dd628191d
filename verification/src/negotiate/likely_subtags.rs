//! Likely subtags: the most probable full form of a short tag.
//!
//! The table maps a tag in canonical spelling to the tag with language, script
//! and region that speakers most likely mean by it. A tag that the table does
//! not hold has no likely form.

use crate::text::{spells, tag_of};
use vstd::prelude::*;

verus! {

/// The table, as a function: the likely form of `tag`, if the table has one.
#[verifier::opaque]
pub open spec fn likely_subtags(tag: Seq<char>) -> Option<Seq<char>> {
    if tag == "en"@ {
        Some("en-Latn-US"@)
    } else if tag == "fr"@ {
        Some("fr-Latn-FR"@)
    } else if tag == "de"@ {
        Some("de-Latn-DE"@)
    } else if tag == "es"@ {
        Some("es-Latn-ES"@)
    } else if tag == "it"@ {
        Some("it-Latn-IT"@)
    } else if tag == "pt"@ {
        Some("pt-Latn-BR"@)
    } else if tag == "nl"@ {
        Some("nl-Latn-NL"@)
    } else if tag == "pl"@ {
        Some("pl-Latn-PL"@)
    } else if tag == "sv"@ {
        Some("sv-Latn-SE"@)
    } else if tag == "da"@ {
        Some("da-Latn-DK"@)
    } else if tag == "tr"@ {
        Some("tr-Latn-TR"@)
    } else if tag == "ru"@ {
        Some("ru-Cyrl-RU"@)
    } else if tag == "uk"@ {
        Some("uk-Cyrl-UA"@)
    } else if tag == "be"@ {
        Some("be-Cyrl-BY"@)
    } else if tag == "sr"@ {
        Some("sr-Cyrl-RS"@)
    } else if tag == "sr-ME"@ {
        Some("sr-Latn-ME"@)
    } else if tag == "el"@ {
        Some("el-Grek-GR"@)
    } else if tag == "ar"@ {
        Some("ar-Arab-EG"@)
    } else if tag == "fa"@ {
        Some("fa-Arab-IR"@)
    } else if tag == "az-IR"@ {
        Some("az-Arab-IR"@)
    } else if tag == "he"@ {
        Some("he-Hebr-IL"@)
    } else if tag == "hi"@ {
        Some("hi-Deva-IN"@)
    } else if tag == "ta"@ {
        Some("ta-Taml-IN"@)
    } else if tag == "ja"@ {
        Some("ja-Jpan-JP"@)
    } else if tag == "ko"@ {
        Some("ko-Kore-KR"@)
    } else if tag == "zh"@ {
        Some("zh-Hans-CN"@)
    } else if tag == "zh-Hant"@ {
        Some("zh-Hant-TW"@)
    } else if tag == "zh-TW"@ {
        Some("zh-Hant-TW"@)
    } else if tag == "zh-HK"@ {
        Some("zh-Hant-HK"@)
    } else {
        None
    }
}

/// Looks a tag up in the table. The tag is given by its characters, in
/// canonical spelling.
pub fn add(tag: &Vec<char>) -> (likely: Option<&'static str>)
    ensures
        tag_of(likely) == likely_subtags(tag@),
{
    reveal(likely_subtags);
    if spells(tag, "en") {
        Some("en-Latn-US")
    } else if spells(tag, "fr") {
        Some("fr-Latn-FR")
    } else if spells(tag, "de") {
        Some("de-Latn-DE")
    } else if spells(tag, "es") {
        Some("es-Latn-ES")
    } else if spells(tag, "it") {
        Some("it-Latn-IT")
    } else if spells(tag, "pt") {
        Some("pt-Latn-BR")
    } else if spells(tag, "nl") {
        Some("nl-Latn-NL")
    } else if spells(tag, "pl") {
        Some("pl-Latn-PL")
    } else if spells(tag, "sv") {
        Some("sv-Latn-SE")
    } else if spells(tag, "da") {
        Some("da-Latn-DK")
    } else if spells(tag, "tr") {
        Some("tr-Latn-TR")
    } else if spells(tag, "ru") {
        Some("ru-Cyrl-RU")
    } else if spells(tag, "uk") {
        Some("uk-Cyrl-UA")
    } else if spells(tag, "be") {
        Some("be-Cyrl-BY")
    } else if spells(tag, "sr") {
        Some("sr-Cyrl-RS")
    } else if spells(tag, "sr-ME") {
        Some("sr-Latn-ME")
    } else if spells(tag, "el") {
        Some("el-Grek-GR")
    } else if spells(tag, "ar") {
        Some("ar-Arab-EG")
    } else if spells(tag, "fa") {
        Some("fa-Arab-IR")
    } else if spells(tag, "az-IR") {
        Some("az-Arab-IR")
    } else if spells(tag, "he") {
        Some("he-Hebr-IL")
    } else if spells(tag, "hi") {
        Some("hi-Deva-IN")
    } else if spells(tag, "ta") {
        Some("ta-Taml-IN")
    } else if spells(tag, "ja") {
        Some("ja-Jpan-JP")
    } else if spells(tag, "ko") {
        Some("ko-Kore-KR")
    } else if spells(tag, "zh") {
        Some("zh-Hans-CN")
    } else if spells(tag, "zh-Hant") {
        Some("zh-Hant-TW")
    } else if spells(tag, "zh-TW") {
        Some("zh-Hant-TW")
    } else if spells(tag, "zh-HK") {
        Some("zh-Hant-HK")
    } else {
        None
    }
}

} // verus!
