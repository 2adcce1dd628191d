use fluent_locale::filter_matches;
use fluent_locale::negotiate_languages;
use fluent_locale::NegotiationStrategy;

#[test]
fn exact_match_is_taken() {
    let supported = negotiate_languages(&["en-US"], &["en-US"], None, &NegotiationStrategy::Filtering);
    assert_eq!(supported, vec!["en-US"]);
}

#[test]
fn exact_match_ignores_case_and_keeps_the_available_spelling() {
    let supported = negotiate_languages(&["EN_us"], &["en-us"], None, &NegotiationStrategy::Lookup);
    assert_eq!(supported, vec!["en-us"]);
}

#[test]
fn available_tag_serves_as_range() {
    let supported = negotiate_languages(&["en-US"], &["en"], None, &NegotiationStrategy::Filtering);
    assert_eq!(supported, vec!["en"]);
}

#[test]
fn likely_form_of_request_is_found() {
    let supported = negotiate_languages(
        &["en"],
        &["en-GB", "en-US"],
        None,
        &NegotiationStrategy::Filtering,
    );
    assert_eq!(supported.iter().filter(|tag| **tag == "en-US").count(), 1);
    assert_eq!(supported, vec!["en-GB", "en-US"]);
}

#[test]
fn other_variant_is_accepted() {
    let supported = negotiate_languages(
        &["ja-JP-win"],
        &["ja-JP-mac"],
        None,
        &NegotiationStrategy::Filtering,
    );
    assert_eq!(supported, vec!["ja-JP-mac"]);
}

#[test]
fn likely_region_comes_before_other_regions() {
    let supported = negotiate_languages(
        &["en-CA"],
        &["en-ZA", "en-US"],
        None,
        &NegotiationStrategy::Filtering,
    );
    assert_eq!(supported, vec!["en-US", "en-ZA"]);
}

#[test]
fn other_region_is_accepted() {
    let supported = negotiate_languages(&["en-GB"], &["en-AU"], None, &NegotiationStrategy::Filtering);
    assert_eq!(supported, vec!["en-AU"]);
}

#[test]
fn other_language_is_not_accepted() {
    let supported = negotiate_languages(&["de"], &["fr", "en-US"], None, &NegotiationStrategy::Filtering);
    assert!(supported.is_empty());
}

#[test]
fn exact_match_comes_before_range_matches() {
    let supported = negotiate_languages(
        &["en"],
        &["en-US", "en", "en-GB"],
        None,
        &NegotiationStrategy::Filtering,
    );
    assert_eq!(supported, vec!["en", "en-US", "en-GB"]);
}

#[test]
fn filtering_collects_in_order_of_discovery() {
    let supported = negotiate_languages(
        &["pl", "fr", "en-US"],
        &["it", "de", "fr", "en-GB", "en-US"],
        Some("en-US"),
        &NegotiationStrategy::Filtering,
    );
    assert_eq!(supported, vec!["fr", "en-US", "en-GB"]);
}

#[test]
fn filtering_takes_every_match_of_a_tier() {
    let supported = filter_matches(
        &["fr", "en"],
        &["en-US", "fr-CA", "fr-FR"],
        &NegotiationStrategy::Filtering,
    );
    assert_eq!(supported, vec!["fr-CA", "fr-FR", "en-US"]);
}

#[test]
fn matching_takes_one_tag_for_each_request() {
    let supported = filter_matches(
        &["fr", "en"],
        &["en-US", "fr-CA", "fr-FR"],
        &NegotiationStrategy::Matching,
    );
    assert_eq!(supported, vec!["fr-CA", "en-US"]);
}

#[test]
fn matching_stops_at_the_first_tier_that_serves() {
    // The exact match settles the request: the range match on "en" is not taken.
    let supported = filter_matches(&["en-US"], &["en", "en-US"], &NegotiationStrategy::Matching);
    assert_eq!(supported, vec!["en-US"]);
}

#[test]
fn lookup_takes_one_tag_in_all() {
    let supported = filter_matches(
        &["fr", "en"],
        &["en-US", "fr-CA", "fr-FR"],
        &NegotiationStrategy::Lookup,
    );
    assert_eq!(supported, vec!["fr-CA"]);
}

#[test]
fn lookup_passes_over_requests_that_nothing_serves() {
    let supported = filter_matches(&["de", "it", "en"], &["en-US", "fr"], &NegotiationStrategy::Lookup);
    assert_eq!(supported, vec!["en-US"]);
}

#[test]
fn lookup_does_not_look_at_requests_after_the_first_match() {
    let available = ["de", "en-US", "fr"];
    let first = negotiate_languages(&["it", "fr"], &available, Some("pl"), &NegotiationStrategy::Lookup);
    let more = negotiate_languages(
        &["it", "fr", "de", "en", "!!"],
        &available,
        Some("pl"),
        &NegotiationStrategy::Lookup,
    );
    assert_eq!(first, vec!["fr"]);
    assert_eq!(more, first);
}

#[test]
fn likely_form_is_looked_up_again_without_the_region() {
    // "pt-PT" has no likely form; without its region it has: "pt-Latn-BR".
    let supported = filter_matches(
        &["pt-PT"],
        &["pt-AO", "pt-BR"],
        &NegotiationStrategy::Matching,
    );
    assert_eq!(supported, vec!["pt-BR"]);
    let supported = filter_matches(
        &["pt-PT"],
        &["pt-AO", "pt-BR"],
        &NegotiationStrategy::Filtering,
    );
    assert_eq!(supported, vec!["pt-BR", "pt-AO"]);
}

#[test]
fn request_without_likely_form_goes_on_to_the_later_tiers() {
    // The table does not hold "tlh": the tiers that need a likely form are passed over.
    let supported = filter_matches(
        &["tlh-US-posix"],
        &["tlh-GB", "tlh-US-mac"],
        &NegotiationStrategy::Filtering,
    );
    assert_eq!(supported, vec!["tlh-US-mac", "tlh-GB"]);
}

#[test]
fn lookup_falls_back_to_default() {
    let supported = negotiate_languages(&[], &["fr"], Some("en-US"), &NegotiationStrategy::Lookup);
    assert_eq!(supported, vec!["en-US"]);
}

#[test]
fn lookup_leaves_default_out_when_a_tag_serves() {
    let supported = negotiate_languages(&["fr"], &["fr"], Some("en-US"), &NegotiationStrategy::Lookup);
    assert_eq!(supported, vec!["fr"]);
}

#[test]
fn matching_appends_default() {
    let supported = negotiate_languages(&["fr"], &["fr"], Some("en-US"), &NegotiationStrategy::Matching);
    assert_eq!(supported, vec!["fr", "en-US"]);
}

#[test]
fn filtering_appends_default() {
    let supported = negotiate_languages(&["de"], &["fr"], Some("en-US"), &NegotiationStrategy::Filtering);
    assert_eq!(supported, vec!["en-US"]);
}

#[test]
fn default_is_not_put_in_twice() {
    let supported = negotiate_languages(&["fr"], &["fr"], Some("fr"), &NegotiationStrategy::Filtering);
    assert_eq!(supported, vec!["fr"]);
    let supported = negotiate_languages(&["fr"], &["fr"], Some("fr"), &NegotiationStrategy::Matching);
    assert_eq!(supported, vec!["fr"]);
}

#[test]
fn default_need_not_be_available_nor_well_formed() {
    let supported = negotiate_languages(&["fr"], &["de"], Some("?"), &NegotiationStrategy::Matching);
    assert_eq!(supported, vec!["?"]);
}

#[test]
fn no_default_and_no_match_gives_nothing() {
    let supported = negotiate_languages(&["fr"], &["de"], None, &NegotiationStrategy::Lookup);
    assert!(supported.is_empty());
    let supported = negotiate_languages(&[], &[], None, &NegotiationStrategy::Filtering);
    assert!(supported.is_empty());
}

#[test]
fn empty_request_is_passed_over() {
    let supported = negotiate_languages(&["", "fr"], &["fr"], None, &NegotiationStrategy::Filtering);
    assert_eq!(supported, vec!["fr"]);
}

#[test]
fn empty_request_takes_nothing_under_any_strategy() {
    let available = ["fr", "en"];
    assert!(filter_matches(&[""], &available, &NegotiationStrategy::Filtering).is_empty());
    assert!(filter_matches(&[""], &available, &NegotiationStrategy::Matching).is_empty());
    assert!(filter_matches(&[""], &available, &NegotiationStrategy::Lookup).is_empty());
}

#[test]
fn malformed_available_tags_are_left_out() {
    let supported = negotiate_languages(
        &["en-US"],
        &["!!", "en-US", "", "en US"],
        None,
        &NegotiationStrategy::Filtering,
    );
    assert_eq!(supported, vec!["en-US"]);
}

#[test]
fn malformed_request_is_served_by_any_tag() {
    let supported = filter_matches(&["!!!"], &["en", "??", "fr"], &NegotiationStrategy::Filtering);
    assert_eq!(supported, vec!["en", "fr"]);
    let supported = filter_matches(&["!!!"], &["en", "??", "fr"], &NegotiationStrategy::Matching);
    assert_eq!(supported, vec!["en"]);
}

#[test]
fn available_tag_serves_one_request_only() {
    let supported = filter_matches(&["en", "en", "en-US"], &["en"], &NegotiationStrategy::Filtering);
    assert_eq!(supported, vec!["en"]);
}

#[test]
fn available_tag_given_twice_is_offered_twice() {
    let supported = filter_matches(&["en"], &["en", "en"], &NegotiationStrategy::Filtering);
    assert_eq!(supported, vec!["en", "en"]);
    let supported = filter_matches(&["en"], &["en", "en"], &NegotiationStrategy::Matching);
    assert_eq!(supported, vec!["en"]);
}

#[test]
fn unserved_request_changes_nothing_for_the_others() {
    let available = ["it", "fr", "en-GB", "en-US"];
    for strategy in [
        NegotiationStrategy::Filtering,
        NegotiationStrategy::Matching,
        NegotiationStrategy::Lookup,
    ] {
        let with = negotiate_languages(&["fr", "pl", "en"], &available, Some("de"), &strategy);
        let without = negotiate_languages(&["fr", "en"], &available, Some("de"), &strategy);
        assert_eq!(with, without);
    }
}

#[test]
fn outcome_holds_no_tag_twice() {
    let available = ["en-US", "en-GB", "en", "fr", "fr-CA", "de"];
    let requested = ["en", "en-US", "fr", "en", "de-AT", "fr-CA"];
    for strategy in [
        NegotiationStrategy::Filtering,
        NegotiationStrategy::Matching,
        NegotiationStrategy::Lookup,
    ] {
        let supported = negotiate_languages(&requested, &available, Some("en"), &strategy);
        for (i, tag) in supported.iter().enumerate() {
            assert!(!supported[..i].contains(tag));
            assert!(available.contains(tag));
        }
    }
}

#[test]
fn variants_are_compared_as_a_whole() {
    let supported = filter_matches(
        &["de-DE-1996"],
        &["de-DE-1901", "de-DE-1996", "de-DE"],
        &NegotiationStrategy::Filtering,
    );
    // exact; then the range without variants; then any variants
    assert_eq!(supported, vec!["de-DE-1996", "de-DE", "de-DE-1901"]);
}

#[test]
fn script_must_agree_where_both_have_one() {
    let supported = filter_matches(
        &["zh-Hant"],
        &["zh-Hans-CN", "zh-TW", "zh-Hant-HK"],
        &NegotiationStrategy::Filtering,
    );
    assert_eq!(supported, vec!["zh-TW", "zh-Hant-HK"]);
}

#[test]
fn case_of_requested_tags_is_not_significant() {
    let available = ["en-US", "fr-CA", "zh-Hant-TW", "de"];
    for strategy in [
        NegotiationStrategy::Filtering,
        NegotiationStrategy::Matching,
        NegotiationStrategy::Lookup,
    ] {
        let plain = negotiate_languages(&["zh-TW", "fr", "en-GB"], &available, None, &strategy);
        let respelled = negotiate_languages(&["ZH-tw", "FR", "eN-gb"], &available, None, &strategy);
        assert_eq!(plain, respelled);
    }
    let supported = negotiate_languages(
        &["ZH-tw", "FR", "eN-gb"],
        &available,
        None,
        &NegotiationStrategy::Filtering,
    );
    assert_eq!(supported, vec!["zh-Hant-TW", "fr-CA", "en-US"]);
}

#[test]
fn strategy_values_compare() {
    assert_eq!(NegotiationStrategy::Filtering, NegotiationStrategy::Filtering);
    assert_ne!(NegotiationStrategy::Matching, NegotiationStrategy::Lookup);
    let copy = NegotiationStrategy::Lookup;
    assert_eq!(format!("{:?}", copy), "Lookup");
}
