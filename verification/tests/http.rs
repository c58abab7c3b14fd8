use invite_attribution::config::{
    BotConfig, Config, DatabaseConfig, GuildConfig, I18nConfig, ServerConfig,
};
use invite_attribution::http::{
    embedded_file_path, file_response, get_config, get_locales, redirect_response,
    serve_embedded_files, STATUS_BAD_REQUEST, STATUS_INTERNAL_SERVER_ERROR, STATUS_NOT_FOUND,
    STATUS_OK, STATUS_TEMPORARY_REDIRECT,
};
use invite_attribution::materializer::{
    handle_invite, InviteRequest, MaterializeError, RedirectAction, RedirectEvent,
};
use invite_attribution::store::{create_invite, update_invite_code, InviteStore};
use invite_attribution::translate::Translations;

fn setup_test_app() -> (Config, InviteStore, Translations) {
    let config = Config {
        bot: BotConfig {
            token: "test_token".to_string(),
            default_invite_max_age: 300,
            default_min_member_age: 5184000,
        },
        database: DatabaseConfig {
            path: "sqlite::memory:".to_string(),
        },
        server: ServerConfig {
            external_url: "http://localhost:8080".to_string(),
            bind: "127.0.0.1:8080".to_string(),
        },
        i18n: I18nConfig {
            default_locale: "en".to_string(),
            available_locales: vec!["en".to_string()],
        },
        guilds: GuildConfig { allowed: vec![] },
    };
    (config, InviteStore::new(), Translations::load())
}

#[test]
fn test_invalid_invite() {
    let (config, mut store, translations) = setup_test_app();

    let action = handle_invite(&mut store, &config, "invalid-id", &RedirectEvent::Visit);
    let response = redirect_response(&translations, &config, &action, "").unwrap();

    assert_eq!(response.status, STATUS_BAD_REQUEST);
    assert_eq!(response.status, 400);
    assert_eq!(response.location, None);
    assert_eq!(
        response.body,
        "This invite link is not valid or was used already"
    );
}

#[test]
fn test_valid_invite() {
    let (config, mut store, translations) = setup_test_app();
    let invite_id = "5e3f5c0a-8a5b-4d52-a3a1-7d1b8c3e9f10";
    let invite_code = "c1f6a2c4-0f0b-4b59-9a39-2e8d1b7a6c55";

    // Create test invite
    create_invite(&mut store, invite_id, "123456789", "987654321", 1_700_000_000).unwrap();

    assert!(update_invite_code(&mut store, invite_id, invite_code));

    let action = handle_invite(&mut store, &config, invite_id, &RedirectEvent::Visit);
    let response = redirect_response(&translations, &config, &action, "").unwrap();

    assert_eq!(response.status, STATUS_TEMPORARY_REDIRECT);
    assert_eq!(response.status, 307);
    assert_eq!(
        response.location.unwrap(),
        format!("https://discord.gg/{}", invite_code)
    );
}

#[test]
fn rejections_carry_their_status_and_text() {
    let (config, _, translations) = setup_test_app();
    let answer = |error: MaterializeError, detail: &str| {
        let reply =
            redirect_response(&translations, &config, &RedirectAction::Reject(error), detail)
                .unwrap();
        assert_eq!(reply.location, None);
        (reply.status, reply.body)
    };
    assert_eq!(
        answer(MaterializeError::ServerNotFound, ""),
        (
            STATUS_BAD_REQUEST,
            "The server of this invite is not configured".to_string()
        )
    );
    assert_eq!(
        answer(MaterializeError::InvalidChannel, ""),
        (
            STATUS_BAD_REQUEST,
            "The invite channel of the server is not valid".to_string()
        )
    );
    assert_eq!(
        answer(MaterializeError::ExternalUnavailable, "timed out"),
        (
            STATUS_INTERNAL_SERVER_ERROR,
            "Could not create the invite: timed out".to_string()
        )
    );
    assert_eq!(STATUS_INTERNAL_SERVER_ERROR, 500);
    let pending = RedirectAction::CreateInvite(InviteRequest {
        channel_id: 1,
        max_age: 300,
        max_uses: 2,
        temporary: false,
    });
    assert!(redirect_response(&translations, &config, &pending, "").is_none());
}

#[test]
fn the_locales_document_lists_the_shipped_catalogues() {
    assert_eq!(get_locales().locales, vec!["en", "zh-TW"]);
}

#[test]
fn the_config_document_wraps_the_configuration() {
    let (config, _, _) = setup_test_app();
    let response = get_config(config);
    assert_eq!(response.config.bot.token, "test_token");
    assert_eq!(response.config.server.bind, "127.0.0.1:8080");
}

#[test]
fn the_root_of_the_site_is_the_index_file() {
    assert_eq!(embedded_file_path(None), "index.html");
    assert_eq!(embedded_file_path(Some("")), "index.html");
    assert_eq!(embedded_file_path(Some("app.js")), "app.js");
    assert_eq!(embedded_file_path(Some("assets/logo.svg")), "assets/logo.svg");
}

#[test]
fn embedded_files_are_served_with_a_guessed_media_type() {
    let page = serve_embedded_files("index.html", Some(b"<html></html>".to_vec()));
    assert_eq!(page.status, STATUS_OK);
    assert_eq!(page.status, 200);
    assert_eq!(page.content_type.as_deref(), Some("text/html"));
    assert_eq!(page.body, b"<html></html>");
    let script = serve_embedded_files("app.JS", Some(Vec::new()));
    assert_eq!(script.content_type.as_deref(), Some("text/javascript"));
    let unknown = serve_embedded_files("data.unknown-kind", Some(vec![1, 2, 3]));
    assert_eq!(unknown.content_type.as_deref(), Some("application/octet-stream"));
    assert_eq!(unknown.body, vec![1, 2, 3]);
    let missing = serve_embedded_files("index.html", None);
    assert_eq!(missing.status, STATUS_NOT_FOUND);
    assert_eq!(missing.status, 404);
    assert_eq!(missing.content_type, None);
    assert_eq!(missing.body, b"Not Found");
    let direct = file_response("text/plain".to_string(), Some(b"hi".to_vec()));
    assert_eq!(direct.content_type.as_deref(), Some("text/plain"));
    assert_eq!(direct.body, b"hi");
}
