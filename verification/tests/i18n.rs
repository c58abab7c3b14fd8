use invite_attribution::i18n::{
    get_yaml, is_available_locale, I18nAssets, AVAILABLE_LOCALES, EN_YAML, ZH_TW_YAML,
};
use invite_attribution::translate::{get_text, Params, Translations, DEFAULT_LOCALE};

#[test]
fn test_get_yaml() {
    // Test existing locale
    let content = get_yaml("en").expect("Failed to load en.yaml");
    assert!(content.contains("commands"));

    // Test non-existing locale
    assert!(get_yaml("invalid").is_none());
}

#[test]
fn test_available_locales() {
    for locale in AVAILABLE_LOCALES.iter() {
        assert!(
            get_yaml(locale).is_some(),
            "Missing yaml file for locale: {}",
            locale
        );
    }
}

#[test]
fn test_get_text() {
    // Test simple text
    assert_eq!(get_text("en", "commands.ping.name", None), "ping");

    // Test with parameters
    let mut params = Params::new();
    params.push(("name".to_string(), "TestBot".to_string()));
    assert_eq!(
        get_text("en", "bot.logged_in", Some(&params)),
        "Logged in as TestBot"
    );

    // Test fallback to default locale
    assert_eq!(get_text("invalid", "commands.ping.name", None), "ping");

    // Test invalid key
    assert_eq!(get_text("en", "invalid.key", None), "invalid.key");
}

#[test]
fn test_translations_loaded() {
    let translations = Translations::load();
    for locale in AVAILABLE_LOCALES.iter() {
        assert!(
            translations.has(locale),
            "Missing translations for locale: {}",
            locale
        );
    }
}

#[test]
fn catalogues_are_found_by_file_name() {
    assert_eq!(I18nAssets::get("en.yaml"), Some(EN_YAML));
    assert_eq!(I18nAssets::get("zh-TW.yaml"), Some(ZH_TW_YAML));
    assert_eq!(I18nAssets::get("en"), None);
    assert_eq!(I18nAssets::get("EN.yaml"), None);
    assert_eq!(I18nAssets::get(""), None);
    assert_eq!(get_yaml("en").as_deref(), Some(EN_YAML));
    assert_eq!(get_yaml("zh-TW").as_deref(), Some(ZH_TW_YAML));
    assert_eq!(get_yaml("zh-tw"), None);
    assert_eq!(get_yaml("en.yaml"), None);
    assert_eq!(get_yaml(""), None);
}

#[test]
fn only_the_shipped_locales_are_available() {
    assert!(is_available_locale("en"));
    assert!(is_available_locale("zh-TW"));
    assert!(!is_available_locale("zh"));
    assert!(!is_available_locale("EN"));
    assert!(!is_available_locale(""));
    assert_eq!(DEFAULT_LOCALE, "en");
    assert!(AVAILABLE_LOCALES.contains(&DEFAULT_LOCALE));
}

#[test]
fn texts_are_looked_up_by_dotted_keys() {
    let translations = Translations::load();
    assert!(translations.has("en"));
    assert!(!translations.has("fr"));
    assert_eq!(translations.text("en", "commands.ping.response.title", None), "Pong!");
    assert_eq!(translations.text("zh-TW", "commands.ping.response.title", None), "Pong！");
    // A locale without a catalogue falls back to the default locale.
    assert_eq!(translations.text("fr", "commands.ping.response.title", None), "Pong!");
    // A key that leads to no string shows as itself.
    for key in [
        "",
        ".",
        "commands",
        "commands.ping",
        "commands.ping.name.more",
        "commands..ping",
        "commands.ping.",
        "Commands.ping.name",
        "nothing",
    ] {
        assert_eq!(translations.text("en", key, None), key);
        assert_eq!(translations.text("zh-TW", key, None), key);
    }
    // Parameters that the text does not name are ignored.
    let params: Params = vec![
        ("addr".to_string(), "127.0.0.1:8080".to_string()),
        ("unused".to_string(), "x".to_string()),
    ];
    assert_eq!(
        translations.text("en", "server.running", Some(&params)),
        "Server running at http://127.0.0.1:8080"
    );
    assert_eq!(
        translations.text("en", "server.running", None),
        "Server running at http://{addr}"
    );
    assert_eq!(
        translations.text("en", "server.running", Some(&Params::new())),
        "Server running at http://{addr}"
    );
    // Every text of the English catalogue has its counterpart.
    for key in [
        "bot.logged_in",
        "errors.command.title",
        "http.errors.invalid_invite",
        "commands.invites.success.title",
        "commands.inviter.success.footer",
        "commands.invites_leaderboard.errors.no_invites.description",
    ] {
        assert_ne!(translations.text("en", key, None), key);
        assert_ne!(translations.text("zh-TW", key, None), key);
        assert_ne!(
            translations.text("zh-TW", key, None),
            translations.text("en", key, None)
        );
    }
}
