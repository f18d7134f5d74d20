use intl_rs::catalog::{catalog_tag, find_member, find_node, lookup, shown_text};
use intl_rs::text::{chars_of, find_char, same_chars, same_prefix, split_chars, str_matches};
use intl_rs::{Catalog, I18n};

fn chars(s: &str) -> Vec<char> {
    s.chars().collect()
}

fn text(s: &str) -> Catalog {
    Catalog::Text(s.to_string())
}

fn members(pairs: Vec<(&str, Catalog)>) -> Vec<(String, Catalog)> {
    pairs.into_iter().map(|(name, node)| (name.to_string(), node)).collect()
}

fn table(pairs: Vec<(&str, Catalog)>, shown: &str) -> Catalog {
    Catalog::Table { members: members(pairs), shown: shown.to_string() }
}

fn shown_of(node: Option<&Catalog>) -> Option<String> {
    match node {
        Some(node) => shown_text(node),
        None => None,
    }
}

#[test]
fn chars_of_reads_characters_not_bytes() {
    assert_eq!(chars_of("añ你"), vec!['a', 'ñ', '你']);
    assert_eq!(chars_of(""), Vec::<char>::new());
}

#[test]
fn same_chars_and_prefix() {
    assert!(same_chars(&chars("abc"), &chars("abc")));
    assert!(!same_chars(&chars("abc"), &chars("abd")));
    assert!(!same_chars(&chars("abc"), &chars("ab")));
    assert!(same_chars(&chars(""), &chars("")));
    assert!(same_prefix(&chars("abcd"), &chars("abxy"), 2));
    assert!(!same_prefix(&chars("abcd"), &chars("abxy"), 3));
    assert!(same_prefix(&chars("abcd"), &chars("xy"), 0));
    assert!(str_matches("你好", &chars("你好")));
    assert!(!str_matches("你好", &chars("你")));
}

#[test]
fn find_char_gives_first_position_or_length() {
    assert_eq!(find_char(&chars("a.b.c"), '.'), 1);
    assert_eq!(find_char(&chars(".a"), '.'), 0);
    assert_eq!(find_char(&chars("abc"), '.'), 3);
    assert_eq!(find_char(&chars(""), '.'), 0);
}

#[test]
fn split_chars_cuts_at_every_separator() {
    assert_eq!(split_chars(&chars("a.b.c"), '.'), vec![chars("a"), chars("b"), chars("c")]);
    assert_eq!(split_chars(&chars("abc"), '.'), vec![chars("abc")]);
    assert_eq!(split_chars(&chars(""), '.'), vec![chars("")]);
    assert_eq!(split_chars(&chars("."), '.'), vec![chars(""), chars("")]);
    assert_eq!(split_chars(&chars("a..b."), '.'), vec![chars("a"), chars(""), chars("b"), chars("")]);
}

#[test]
fn find_member_takes_the_first_of_a_name() {
    let list = members(vec![("a", text("1")), ("b", text("2")), ("a", text("3"))]);
    assert_eq!(shown_of(find_member(&list, &chars("a"))), Some("1".to_string()));
    assert_eq!(shown_of(find_member(&list, &chars("b"))), Some("2".to_string()));
    assert!(find_member(&list, &chars("c")).is_none());
    assert!(find_member(&list, &chars("")).is_none());
    assert!(find_member(&Vec::new(), &chars("a")).is_none());
}

#[test]
fn find_node_walks_tables_only() {
    let tree = table(vec![("a", table(vec![("b", text("deep"))], "{b}")), ("c", text("flat"))], "{root}");
    assert_eq!(shown_of(find_node(&tree, &vec![chars("a"), chars("b")])), Some("deep".to_string()));
    assert_eq!(shown_of(find_node(&tree, &vec![chars("a")])), Some("{b}".to_string()));
    assert_eq!(shown_of(find_node(&tree, &Vec::new())), Some("{root}".to_string()));
    assert!(find_node(&tree, &vec![chars("c"), chars("b")]).is_none());
    assert!(find_node(&tree, &vec![chars("x")]).is_none());
    assert!(find_node(&Catalog::Null, &vec![chars("x")]).is_none());
}

#[test]
fn shown_text_of_each_kind_of_node() {
    assert_eq!(shown_text(&Catalog::Null), None);
    assert_eq!(shown_text(&text("t")), Some("t".to_string()));
    assert_eq!(shown_text(&Catalog::Scalar("1.5".to_string())), Some("1.5".to_string()));
    assert_eq!(shown_text(&table(vec![], "{}")), Some("{}".to_string()));
}

#[test]
fn lookup_follows_dotted_key() {
    let tree = table(
        vec![
            ("menu", table(vec![("file", table(vec![("open", text("Open"))], "{open}"))], "{file}")),
            ("", text("empty name")),
            ("gone", Catalog::Null),
        ],
        "{root}",
    );
    assert_eq!(lookup(&tree, "menu.file.open"), Some("Open".to_string()));
    assert_eq!(lookup(&tree, "menu.file"), Some("{open}".to_string()));
    assert_eq!(lookup(&tree, ""), Some("empty name".to_string()));
    assert_eq!(lookup(&tree, "gone"), None);
    assert_eq!(lookup(&tree, "menu.edit"), None);
    assert_eq!(lookup(&tree, "menu.file.open.now"), None);
    assert_eq!(lookup(&tree, "menu."), None);
    assert_eq!(lookup(&text("leaf"), "any"), None);
}

#[test]
fn catalog_tag_strips_the_json_ending() {
    assert_eq!(catalog_tag("en.json"), Some("en".to_string()));
    assert_eq!(catalog_tag("zh-CN.json"), Some("zh-CN".to_string()));
    assert_eq!(catalog_tag("a.b.json"), Some("a.b".to_string()));
    assert_eq!(catalog_tag("中文.json"), Some("中文".to_string()));
    assert_eq!(catalog_tag(".json"), None);
    assert_eq!(catalog_tag("en.JSON"), None);
    assert_eq!(catalog_tag("en.json.bak"), None);
    assert_eq!(catalog_tag("enjson"), None);
    assert_eq!(catalog_tag("en"), None);
    assert_eq!(catalog_tag(""), None);
}

#[test]
fn init_keeps_the_last_writer_of_each_canonical_tag() {
    let i18n = I18n::init(
        vec![
            ("en_US".to_string(), text("first")),
            ("de".to_string(), text("german")),
            ("en-us".to_string(), text("second")),
            ("fr".to_string(), text("french")),
            ("EN_US".to_string(), text("third")),
        ],
        "de".to_string(),
    );
    assert_eq!(
        i18n.supported_languages(),
        &vec!["de".to_string(), "fr".to_string(), "EN_US".to_string()]
    );
    assert_eq!(shown_of(i18n.catalog(0)), Some("german".to_string()));
    assert_eq!(shown_of(i18n.catalog(1)), Some("french".to_string()));
    assert_eq!(shown_of(i18n.catalog(2)), Some("third".to_string()));
    assert!(i18n.catalog(3).is_none());
    assert_eq!(i18n.resolve_locale("en_us", false), Some("EN_US".to_string()));
}

#[test]
fn init_sets_the_settings() {
    let i18n = I18n::init(Vec::new(), "pt_BR".to_string());
    assert_eq!(i18n.supported_languages().len(), 0);
    assert_eq!(i18n.default_language(), "pt_BR");
    assert_eq!(i18n.current_language(), None);
    assert!(i18n.fallback_enabled());
    assert_eq!(i18n.null_placeholder(), "null");
    assert_eq!(i18n.resolve_locale("pt_BR", true), None);
    assert_eq!(i18n.render_message("any", None, None), "null");
}
