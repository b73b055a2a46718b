use brew_settings::paths::language_file_name;
use brew_settings::paths::languages_dir;
use brew_settings::paths::settings_dir;
use brew_settings::paths::settings_file_path;
use brew_settings::paths::OsKind;
use brew_settings::settings::render_settings;
use brew_settings::settings::Settings;
use brew_settings::settings::Theme;
use brew_settings::settings::TitlebarStyle;
use brew_settings::state::AppState;

fn pack(code: &str, title: &str) -> String {
    format!(
        "{{\n  \"metadata\": {{ \"id\": \"{}\", \"version\": \"1.0.0\", \"author\": \"someone\" }},\n  \"app.title\": \"{}\"\n}}",
        code, title
    )
}

fn dir(entries: &[(&str, String)]) -> Vec<(String, String)> {
    entries.iter().map(|(k, v)| (k.to_string(), v.clone())).collect()
}

#[test]
fn startup_with_absent_settings_uses_catalog_pack() {
    // An en_US pack on disk, no settings file: the state comes up with a
    // default record and the pack's own translations.
    let catalog = dir(&[("en_US", pack("en_US", "Brew"))]);
    let state = AppState::startup(None, None, &catalog);
    assert_eq!(state.settings.language, "en_US");
    assert_eq!(state.settings.theme, Theme::System);
    let translations = state.get_translations();
    assert_eq!(translations.translation("app.title"), Some("Brew".to_string()));
}

#[test]
fn startup_with_empty_world_uses_builtin_pack() {
    let catalog: Vec<(String, String)> = Vec::new();
    let state = AppState::startup(None, None, &catalog);
    assert_eq!(state.current_language.metadata.id, "en_US");
    assert_eq!(
        state.get_translations().translation("app.title"),
        Some("brew".to_string())
    );
}

#[test]
fn startup_reads_settings_and_resolves_their_language() {
    let catalog = dir(&[
        ("en_US", pack("en_US", "Brew")),
        ("fr_FR", pack("fr_FR", "Infusion")),
    ]);
    let content = "{\"language\": \"fr_FR\", \"theme\": \"oled\"}";
    let state = AppState::startup(Some(content), None, &catalog);
    assert_eq!(state.settings.language, "fr_FR");
    assert_eq!(state.settings.theme, Theme::Oled);
    assert_eq!(state.current_language.metadata.id, "fr_FR");
}

#[test]
fn change_language_updates_code_and_pack_together() {
    let catalog = dir(&[
        ("en_US", pack("en_US", "Brew")),
        ("fr_FR", pack("fr_FR", "Infusion")),
    ]);
    let mut state = AppState::startup(None, None, &catalog);
    let (language, document) = state.change_language("fr_FR", &catalog);
    assert_eq!(state.settings.language, "fr_FR");
    assert_eq!(language.metadata.id, "fr_FR");
    assert_eq!(state.get_translations().metadata.id, "fr_FR");
    assert_eq!(document, render_settings(&state.settings));
}

#[test]
fn change_language_fallback_keeps_requested_code() {
    // The requested code is recorded even when fallback resolved another
    // pack; the pack is then what the catalog resolves for that code.
    let catalog = dir(&[("en_US", pack("en_US", "Brew"))]);
    let mut state = AppState::startup(None, None, &catalog);
    let (language, _document) = state.change_language("de_DE", &catalog);
    assert_eq!(state.settings.language, "de_DE");
    assert_eq!(language.metadata.id, "en_US");
    assert_eq!(state.get_translations().metadata.id, "en_US");
}

#[test]
fn update_settings_keeps_pack_when_language_unchanged() {
    let catalog = dir(&[("en_US", pack("en_US", "Brew"))]);
    let mut state = AppState::startup(None, None, &catalog);
    let new_settings = Settings {
        theme: Theme::Dark,
        discord_rpc: false,
        advanced_rendering: false,
        language: "en_US".to_string(),
        titlebar_style: TitlebarStyle::Native,
    };
    let document = state.update_settings(new_settings, &catalog);
    assert_eq!(state.settings.theme, Theme::Dark);
    assert_eq!(state.current_language.metadata.id, "en_US");
    assert_eq!(
        state.get_translations().translation("app.title"),
        Some("Brew".to_string())
    );
    assert_eq!(document, render_settings(&state.settings));
}

#[test]
fn update_settings_reloads_pack_when_language_changes() {
    let catalog = dir(&[
        ("en_US", pack("en_US", "Brew")),
        ("fr_FR", pack("fr_FR", "Infusion")),
    ]);
    let mut state = AppState::startup(None, None, &catalog);
    let mut new_settings = Settings::default();
    new_settings.language = "fr_FR".to_string();
    state.update_settings(new_settings, &catalog);
    assert_eq!(state.settings.language, "fr_FR");
    assert_eq!(state.current_language.metadata.id, "fr_FR");
}

#[test]
fn get_settings_caches_the_first_resolved_path() {
    let catalog: Vec<(String, String)> = Vec::new();
    let mut state = AppState::startup(None, None, &catalog);
    let first = state.get_settings(Some("/tmp/one/settings.json".to_string()));
    assert_eq!(first.language, "en_US");
    state.get_settings(Some("/tmp/two/settings.json".to_string()));
    assert_eq!(
        state.settings_path,
        Some("/tmp/one/settings.json".to_string())
    );
}

#[test]
fn startup_keeps_a_given_path() {
    let catalog: Vec<(String, String)> = Vec::new();
    let mut state = AppState::startup(None, Some("/base/settings.json".to_string()), &catalog);
    state.get_settings(Some("/other/settings.json".to_string()));
    assert_eq!(state.settings_path, Some("/base/settings.json".to_string()));
}

#[test]
fn settings_locations_by_platform() {
    assert_eq!(settings_dir(OsKind::Linux, "/home/u"), "/home/u/.brew-app");
    assert_eq!(
        settings_dir(OsKind::MacOs, "/Users/u"),
        "/Users/u/Library/Application Support/brew-app"
    );
    assert_eq!(settings_dir(OsKind::Other, "/cfg"), "/cfg/brew-app");
    assert_eq!(settings_file_path("/home/u/.brew-app"), "/home/u/.brew-app/settings.json");
    assert_eq!(languages_dir("/home/u/.brew-app"), "/home/u/.brew-app/languages");
    assert_eq!(language_file_name("fr_FR"), "fr_FR.json");
}
