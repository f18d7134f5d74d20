use intl_rs::{format_message, try_format_message, Catalog, I18n, NegotiationError, TranslationConfig};

fn text(s: &str) -> Catalog {
    Catalog::Text(s.to_string())
}

fn table(members: Vec<(&str, Catalog)>, shown: &str) -> Catalog {
    Catalog::Table {
        members: members.into_iter().map(|(name, node)| (name.to_string(), node)).collect(),
        shown: shown.to_string(),
    }
}

fn english() -> Catalog {
    table(
        vec![(
            "hello",
            table(
                vec![("world", text("Hello,World!")), ("somebody", text("Hello,{{name}}!"))],
                "{\"somebody\":\"Hello,{{name}}!\",\"world\":\"Hello,World!\"}",
            ),
        )],
        "{\"hello\":{\"somebody\":\"Hello,{{name}}!\",\"world\":\"Hello,World!\"}}",
    )
}

fn chinese() -> Catalog {
    table(
        vec![(
            "hello",
            table(
                vec![("world", text("你好，世界！")), ("somebody", text("你好，{{name}}！"))],
                "{\"somebody\":\"你好，{{name}}！\",\"world\":\"你好，世界！\"}",
            ),
        )],
        "{\"hello\":{\"somebody\":\"你好，{{name}}！\",\"world\":\"你好，世界！\"}}",
    )
}

fn engine() -> I18n {
    I18n::init(
        vec![("en".to_string(), english()), ("zh-CN".to_string(), chinese())],
        "en".to_string(),
    )
}

#[test]
fn i18n_can_format_message() {
    let i18n = engine();
    let key = "hello.world";
    assert_eq!(format_message(&i18n, key, None), "Hello,World!");
}

#[test]
fn i18n_can_format_message_with_specify_accep_language() {
    let i18n = engine();
    let key = "hello.world";
    let config = TranslationConfig {
        accept_language: Some("zh-CN,zh;q=0.9,en;q=0.8".to_string()),
        ..Default::default()
    };
    assert_eq!(format_message(&i18n, key, Some(&config)), "你好，世界！");
}

#[test]
fn i18n_can_format_message_with_args() {
    let i18n = engine();
    let key = "hello.somebody";
    let config = TranslationConfig {
        accept_language: Some("zh;q=0.9,en;q=0.8,en;q=1.0".to_string()),
        args: Some(vec![("name".to_string(), "Lyunki".to_string())]),
        ..Default::default()
    };
    assert_eq!(format_message(&i18n, key, Some(&config)), "Hello,Lyunki!");
}

#[test]
fn format_message_negotiates_best_quality_first() {
    let i18n = engine();
    let config = TranslationConfig {
        accept_language: Some("en;q=0.3, zh-CN;q=0.7".to_string()),
        ..Default::default()
    };
    assert_eq!(format_message(&i18n, "hello.world", Some(&config)), "你好，世界！");
}

#[test]
fn format_message_takes_current_locale_as_header() {
    let mut i18n = engine();
    i18n.set_current_locale("zh-CN".to_string());
    assert_eq!(format_message(&i18n, "hello.world", None), "你好，世界！");
}

#[test]
fn format_message_missing_key_shows_default_then_placeholder() {
    let i18n = engine();
    let with_default = TranslationConfig {
        default_message: Some("nothing here".to_string()),
        ..Default::default()
    };
    assert_eq!(format_message(&i18n, "hello.nobody", Some(&with_default)), "nothing here");
    assert_eq!(format_message(&i18n, "hello.nobody", None), "null");
    let with_placeholder = TranslationConfig {
        null_placeholder: Some("-".to_string()),
        ..Default::default()
    };
    assert_eq!(format_message(&i18n, "hello.nobody", Some(&with_placeholder)), "-");
}

#[test]
fn try_format_message_renders_where_a_locale_is_found() {
    let i18n = engine();
    let config = TranslationConfig {
        accept_language: Some("fr, zh-CN;q=0.5".to_string()),
        ..Default::default()
    };
    assert_eq!(
        try_format_message(&i18n, "hello.world", Some(&config)),
        Ok("你好，世界！".to_string())
    );
}

#[test]
fn try_format_message_reports_no_acceptable_locale() {
    let i18n = engine();
    let config = TranslationConfig {
        accept_language: Some("fr, de;q=0.5".to_string()),
        ..Default::default()
    };
    assert_eq!(
        try_format_message(&i18n, "hello.world", Some(&config)),
        Err(NegotiationError::NoAcceptableLocale)
    );
    let empty = TranslationConfig { accept_language: Some(String::new()), ..Default::default() };
    assert_eq!(
        try_format_message(&i18n, "hello.world", Some(&empty)),
        Err(NegotiationError::NoAcceptableLocale)
    );
}

#[test]
fn try_format_message_reports_unordered_quality() {
    let i18n = engine();
    let config = TranslationConfig {
        accept_language: Some("en;q=NaN, zh-CN;q=0.5".to_string()),
        ..Default::default()
    };
    assert_eq!(
        try_format_message(&i18n, "hello.world", Some(&config)),
        Err(NegotiationError::UnorderedQuality)
    );
}

#[test]
fn try_format_message_without_supported_default_locale() {
    let i18n = I18n::init(vec![("zh-CN".to_string(), chinese())], "en".to_string());
    assert_eq!(
        try_format_message(&i18n, "hello.world", None),
        Err(NegotiationError::NoAcceptableLocale)
    );
}
