use intl_rs::negotiation::{check_unordered_quality, first_choice, index_of_tag, negotiate};
use intl_rs::NegotiationError;

fn list(tags: &[&str]) -> Vec<String> {
    tags.iter().map(|t| t.to_string()).collect()
}

#[test]
fn negotiate_picks_best_supported_language() {
    let supported = list(&["en", "zh-CN", "de"]);
    assert_eq!(negotiate("zh-CN,zh;q=0.9,en;q=0.8", &supported), Ok(1));
    assert_eq!(negotiate("en;q=0.2, de;q=0.9, fr", &supported), Ok(2));
    assert_eq!(negotiate("en", &supported), Ok(0));
    assert_eq!(negotiate("de;q=0.5,en;q=0.5", &supported), Ok(2));
}

#[test]
fn negotiate_matches_spelling_exactly() {
    let supported = list(&["en_US", "zh-CN"]);
    assert_eq!(negotiate("en-US", &supported), Err(NegotiationError::NoAcceptableLocale));
    assert_eq!(negotiate("zh-cn", &supported), Err(NegotiationError::NoAcceptableLocale));
    assert_eq!(negotiate("zh-CN", &supported), Ok(1));
}

#[test]
fn negotiate_reports_no_acceptable_locale() {
    let supported = list(&["en", "zh-CN"]);
    assert_eq!(negotiate("fr,de;q=0.3", &supported), Err(NegotiationError::NoAcceptableLocale));
    assert_eq!(negotiate("", &supported), Err(NegotiationError::NoAcceptableLocale));
    assert_eq!(negotiate("en", &Vec::new()), Err(NegotiationError::NoAcceptableLocale));
}

#[test]
fn negotiate_refuses_quality_that_may_not_be_a_number() {
    let supported = list(&["en", "de"]);
    assert_eq!(negotiate("en;q=nan,de", &supported), Err(NegotiationError::UnorderedQuality));
    assert_eq!(negotiate("en;q = -NaN,de", &supported), Err(NegotiationError::UnorderedQuality));
    assert_eq!(negotiate("en;q=0.5,nan;q=0.1,de;q=0.7", &supported), Ok(1));
}

#[test]
fn check_unordered_quality_looks_after_equal_signs_only() {
    assert!(check_unordered_quality("en;q=nan"));
    assert!(check_unordered_quality("en;q=NaN"));
    assert!(check_unordered_quality("en;q= +n"));
    assert!(check_unordered_quality("en;q=0.5,de;q=-nan"));
    assert!(!check_unordered_quality("en;q=0.5"));
    assert!(!check_unordered_quality("nan,en;q=0.1"));
    assert!(!check_unordered_quality("en;q=inf"));
    assert!(!check_unordered_quality("en;q=0n"));
    assert!(!check_unordered_quality("n"));
    assert!(!check_unordered_quality(""));
}

#[test]
fn index_of_tag_finds_first_exact_spelling() {
    let known = list(&["en", "de", "en", "DE"]);
    assert_eq!(index_of_tag(&known, "en"), Some(0));
    assert_eq!(index_of_tag(&known, "DE"), Some(3));
    assert_eq!(index_of_tag(&known, "fr"), None);
    assert_eq!(index_of_tag(&Vec::new(), "en"), None);
}

#[test]
fn first_choice_places_the_first_language_found() {
    let supported = list(&["en", "de", "fr"]);
    assert_eq!(first_choice(&list(&["de", "en"]), &supported), Some(1));
    assert_eq!(first_choice(&list(&["fr"]), &supported), Some(2));
    assert_eq!(first_choice(&list(&[]), &supported), None);
    assert_eq!(first_choice(&list(&["it", "en"]), &supported), None);
}
