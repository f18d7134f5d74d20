use intl_rs::matcher::{lex_le_chars, match_locale};
use intl_rs::tag::{fold, normalize_tag, tag_has_region, tag_scope};
use intl_rs::{Catalog, I18n};

fn chars(s: &str) -> Vec<char> {
    s.chars().collect()
}

fn known(tags: &[&str]) -> I18n {
    I18n::init(
        tags.iter().map(|t| (t.to_string(), Catalog::Null)).collect(),
        "en".to_string(),
    )
}

fn list(tags: &[&str]) -> Vec<String> {
    tags.iter().map(|t| t.to_string()).collect()
}

#[test]
fn fold_lowers_ascii_letters_and_unifies_separators() {
    assert_eq!(fold('A'), 'a');
    assert_eq!(fold('Z'), 'z');
    assert_eq!(fold('m'), 'm');
    assert_eq!(fold('-'), '_');
    assert_eq!(fold('_'), '_');
    assert_eq!(fold('7'), '7');
    assert_eq!(fold('@'), '@');
    assert_eq!(fold('['), '[');
    assert_eq!(fold('É'), 'É');
}

#[test]
fn normalize_tag_gives_canonical_form() {
    assert_eq!(normalize_tag("en-US"), chars("en_us"));
    assert_eq!(normalize_tag("EN_us"), chars("en_us"));
    assert_eq!(normalize_tag("zh-Hant-TW"), chars("zh_hant_tw"));
    assert_eq!(normalize_tag(""), chars(""));
}

#[test]
fn tag_scope_is_first_segment() {
    assert_eq!(tag_scope("en"), chars("en"));
    assert_eq!(tag_scope("EN-gb"), chars("en"));
    assert_eq!(tag_scope("zh_Hant_TW"), chars("zh"));
    assert_eq!(tag_scope("_x"), chars(""));
    assert_eq!(tag_scope(""), chars(""));
}

#[test]
fn tag_has_region_tells_bare_scope_from_regional_tag() {
    assert!(!tag_has_region("en"));
    assert!(tag_has_region("en_US"));
    assert!(tag_has_region("en-"));
    assert!(!tag_has_region(""));
}

#[test]
fn lex_le_chars_is_dictionary_order() {
    assert!(lex_le_chars(&chars("en"), &chars("en")));
    assert!(lex_le_chars(&chars("en"), &chars("en_GB")));
    assert!(!lex_le_chars(&chars("en_GB"), &chars("en")));
    assert!(lex_le_chars(&chars("en_GB"), &chars("en_US")));
    assert!(!lex_le_chars(&chars("en_US"), &chars("en_GB")));
    assert!(lex_le_chars(&chars(""), &chars("a")));
    assert!(lex_le_chars(&chars("en-US"), &chars("en_US")));
}

#[test]
fn known_tags_resolve_to_themselves() {
    let i18n = known(&["en", "en_US", "zh-CN", "pt_BR"]);
    for tag in ["en", "en_US", "zh-CN", "pt_BR"] {
        assert_eq!(i18n.resolve_locale(tag, false), Some(tag.to_string()));
        assert_eq!(i18n.resolve_locale(tag, true), Some(tag.to_string()));
    }
}

#[test]
fn unknown_tag_does_not_resolve_without_fallback() {
    let i18n = known(&["en", "en_US", "zh-CN"]);
    assert_eq!(i18n.resolve_locale("fr", false), None);
    assert_eq!(i18n.resolve_locale("en_UK", false), None);
    assert_eq!(i18n.resolve_locale("zh", false), None);
    assert_eq!(i18n.resolve_locale("fr", true), None);
    assert_eq!(i18n.resolve_locale("", true), None);
}

#[test]
fn exact_match_comes_before_common() {
    let i18n = known(&["en", "en_US"]);
    assert_eq!(i18n.resolve_locale("en_US", true), Some("en_US".to_string()));
    assert_eq!(i18n.resolve_locale("en-us", true), Some("en_US".to_string()));
    let other_order = known(&["en_US", "en"]);
    assert_eq!(other_order.resolve_locale("en_US", true), Some("en_US".to_string()));
    assert_eq!(other_order.resolve_locale("en", true), Some("en".to_string()));
}

#[test]
fn common_comes_before_similar() {
    let i18n = known(&["en", "en_GB"]);
    assert_eq!(i18n.resolve_locale("en_UK", true), Some("en".to_string()));
    let other_order = known(&["en_GB", "en"]);
    assert_eq!(other_order.resolve_locale("en_UK", true), Some("en".to_string()));
}

#[test]
fn similar_is_the_last_resort() {
    let i18n = known(&["en_US"]);
    assert_eq!(i18n.resolve_locale("en_UK", true), Some("en_US".to_string()));
    assert_eq!(i18n.resolve_locale("en", true), Some("en_US".to_string()));
    assert_eq!(i18n.resolve_locale("en_UK", false), None);
}

#[test]
fn separator_and_case_of_the_request_do_not_matter() {
    let i18n = known(&["en_US", "de"]);
    let a = i18n.resolve_locale("en-US", true);
    let b = i18n.resolve_locale("en_US", true);
    let c = i18n.resolve_locale("EN_us", true);
    assert_eq!(a, Some("en_US".to_string()));
    assert_eq!(a, b);
    assert_eq!(b, c);
    let only_base = known(&["en"]);
    assert_eq!(only_base.resolve_locale("EN-uk", true), Some("en".to_string()));
    assert_eq!(only_base.resolve_locale("en_UK", true), Some("en".to_string()));
    assert_eq!(only_base.resolve_locale("EN-uk", false), None);
}

#[test]
fn similar_candidates_tie_break_on_dictionary_order() {
    let i18n = known(&["en_US", "en_GB", "en_AU"]);
    assert_eq!(i18n.resolve_locale("en_UK", true), Some("en_AU".to_string()));
    let other_order = known(&["en_GB", "en_AU", "en_US"]);
    assert_eq!(other_order.resolve_locale("en_UK", true), Some("en_AU".to_string()));
}

#[test]
fn different_scope_is_never_chosen() {
    let i18n = known(&["eng", "e", "de_EN"]);
    assert_eq!(i18n.resolve_locale("en", true), None);
    assert_eq!(i18n.resolve_locale("en_US", true), None);
}

#[test]
fn match_locale_returns_first_index_of_the_chosen_tag() {
    let tags = list(&["de", "en_GB", "en", "en"]);
    assert_eq!(match_locale("en", false, &tags), Some(2));
    assert_eq!(match_locale("EN", true, &tags), Some(2));
    assert_eq!(match_locale("en_gb", false, &tags), Some(1));
    assert_eq!(match_locale("en_AU", true, &tags), Some(2));
    assert_eq!(match_locale("en_AU", false, &tags), None);
    assert_eq!(match_locale("fr", true, &tags), None);
    assert_eq!(match_locale("fr", true, &Vec::new()), None);
}

#[test]
fn match_locale_picks_smallest_spelling_among_exact_matches() {
    let tags = list(&["en_US", "en-us", "EN_US"]);
    assert_eq!(match_locale("en_us", false, &tags), Some(2));
    let tags = list(&["en_US", "en-us"]);
    assert_eq!(match_locale("en_US", true, &tags), Some(1));
}
