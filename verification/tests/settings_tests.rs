use brew_settings::settings::load_settings;
use brew_settings::settings::parse_settings;
use brew_settings::settings::render_settings;
use brew_settings::settings::titlebar_decorations;
use brew_settings::settings::Settings;
use brew_settings::settings::Theme;
use brew_settings::settings::TitlebarStyle;

fn assert_settings_eq(a: &Settings, b: &Settings) {
    assert_eq!(a.theme, b.theme);
    assert_eq!(a.discord_rpc, b.discord_rpc);
    assert_eq!(a.advanced_rendering, b.advanced_rendering);
    assert_eq!(a.language, b.language);
    assert_eq!(a.titlebar_style, b.titlebar_style);
}

#[test]
fn round_trip_custom_record() {
    let s = Settings {
        theme: Theme::Dark,
        discord_rpc: false,
        advanced_rendering: true,
        language: "de_DE".to_string(),
        titlebar_style: TitlebarStyle::Native,
    };
    let text = render_settings(&s);
    let back = load_settings(Some(text.as_str()));
    assert_settings_eq(&s, &back);
}

#[test]
fn round_trip_default_record() {
    let s = Settings::default();
    let text = render_settings(&s);
    let back = load_settings(Some(text.as_str()));
    assert_settings_eq(&s, &back);
}

#[test]
fn round_trip_every_enumerated_value() {
    let themes = [Theme::System, Theme::Light, Theme::Dark, Theme::Oled];
    let bars = [TitlebarStyle::Native, TitlebarStyle::Custom, TitlebarStyle::MacOs];
    for theme in themes {
        for bar in bars {
            let s = Settings {
                theme,
                discord_rpc: theme == Theme::Dark,
                advanced_rendering: bar == TitlebarStyle::MacOs,
                language: "pt_BR".to_string(),
                titlebar_style: bar,
            };
            let text = render_settings(&s);
            let back = load_settings(Some(text.as_str()));
            assert_settings_eq(&s, &back);
        }
    }
}

#[test]
fn load_absent_file_gives_defaults() {
    let s = load_settings(None);
    assert_eq!(s.theme, Theme::System);
    assert!(s.discord_rpc);
    assert!(s.advanced_rendering);
    assert_eq!(s.language, "en_US");
    assert_eq!(s.titlebar_style, TitlebarStyle::Custom);
}

#[test]
fn load_corrupt_file_gives_defaults() {
    let s = load_settings(Some("this is not a settings document"));
    assert_settings_eq(&s, &Settings::default());
}

#[test]
fn load_truncated_document_gives_defaults() {
    let s = load_settings(Some("{\n  \"theme\": \"dark\","));
    assert_settings_eq(&s, &Settings::default());
}

#[test]
fn load_ignores_unknown_members() {
    let text = "{\n  \"theme\": \"light\",\n  \"future_toggle\": true,\n  \"note\": \"keep\",\n  \"retries\": 3\n}";
    let s = load_settings(Some(text));
    assert_eq!(s.theme, Theme::Light);
    assert!(s.discord_rpc);
    assert_eq!(s.language, "en_US");
}

#[test]
fn load_missing_members_keep_defaults() {
    let s = load_settings(Some("{\"discord_rpc\": false}"));
    assert!(!s.discord_rpc);
    assert_eq!(s.theme, Theme::System);
    assert_eq!(s.language, "en_US");
    assert_eq!(s.titlebar_style, TitlebarStyle::Custom);
}

#[test]
fn load_accepts_any_member_order() {
    let text = "{ \"language\": \"fr_FR\", \"theme\": \"oled\", \"titlebar_style\": \"macos\" }";
    let s = load_settings(Some(text));
    assert_eq!(s.language, "fr_FR");
    assert_eq!(s.theme, Theme::Oled);
    assert_eq!(s.titlebar_style, TitlebarStyle::MacOs);
}

#[test]
fn load_unknown_theme_word_gives_defaults() {
    let s = load_settings(Some("{\"theme\": \"purple\"}"));
    assert_settings_eq(&s, &Settings::default());
}

#[test]
fn load_wrongly_typed_member_gives_defaults() {
    let s = load_settings(Some("{\"discord_rpc\": \"yes\"}"));
    assert_settings_eq(&s, &Settings::default());
}

#[test]
fn later_member_overrides_earlier() {
    let s = load_settings(Some("{\"theme\": \"light\", \"theme\": \"dark\"}"));
    assert_eq!(s.theme, Theme::Dark);
}

#[test]
fn rendered_default_document_is_exact() {
    let text = render_settings(&Settings::default());
    let expected = "{\n  \"theme\": \"system\",\n  \"discord_rpc\": true,\n  \"advanced_rendering\": true,\n  \"language\": \"en_US\",\n  \"titlebar_style\": \"custom\"\n}";
    assert_eq!(text, expected);
}

#[test]
fn parse_settings_rejects_garbage() {
    assert!(parse_settings("[1, 2, 3]").is_none());
    assert!(parse_settings("").is_none());
    assert!(parse_settings("{\"theme\": }").is_none());
}

#[test]
fn parse_settings_accepts_minimal_document() {
    let s = parse_settings("{}").expect("empty object is a valid document");
    assert_eq!(s.language, "en_US");
}

#[test]
fn round_trip_language_code_with_unusual_text() {
    let s = Settings {
        theme: Theme::Light,
        discord_rpc: true,
        advanced_rendering: false,
        language: "zh-Hans (simplified)".to_string(),
        titlebar_style: TitlebarStyle::Custom,
    };
    let text = render_settings(&s);
    let back = load_settings(Some(text.as_str()));
    assert_settings_eq(&s, &back);
}

#[test]
fn load_tolerates_loose_whitespace() {
    let text = "  {\n\t\"theme\"  :  \"dark\" ,\r\n  \"language\":\"it_IT\"  }  ";
    let s = load_settings(Some(text));
    assert_eq!(s.theme, Theme::Dark);
    assert_eq!(s.language, "it_IT");
}

#[test]
fn titlebar_decorations_only_for_native() {
    assert!(titlebar_decorations(TitlebarStyle::Native));
    assert!(!titlebar_decorations(TitlebarStyle::Custom));
    assert!(!titlebar_decorations(TitlebarStyle::MacOs));
}
