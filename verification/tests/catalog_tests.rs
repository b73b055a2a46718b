use brew_settings::catalog::create_default_language;
use brew_settings::catalog::ensure_language_files_exist;
use brew_settings::catalog::get_available_languages;
use brew_settings::catalog::load_language;
use brew_settings::language::parse_language;

fn pack(code: &str, version: &str, title: &str) -> String {
    format!(
        "{{\n  \"metadata\": {{ \"id\": \"{}\", \"version\": \"{}\", \"author\": \"someone\" }},\n  \"app.title\": \"{}\"\n}}",
        code, version, title
    )
}

fn dir(entries: &[(&str, String)]) -> Vec<(String, String)> {
    entries.iter().map(|(k, v)| (k.to_string(), v.clone())).collect()
}

#[test]
fn builtin_pack_has_en_us_identity() {
    let l = create_default_language();
    assert_eq!(l.metadata.id, "en_US");
    assert_eq!(l.metadata.version, "1.0.0");
    assert_eq!(l.metadata.author, "brew team");
    assert_eq!(l.translation("app.title"), Some("brew".to_string()));
    assert_eq!(l.translation("settings.title"), Some("Settings".to_string()));
    assert_eq!(l.translation("no.such.key"), None);
}

#[test]
fn load_from_empty_catalog_synthesizes_builtin() {
    let catalog: Vec<(String, String)> = Vec::new();
    let l = load_language(&catalog, "fr_FR");
    assert_eq!(l.metadata.id, "en_US");
    assert_eq!(l.translation("app.title"), Some("brew".to_string()));
}

#[test]
fn load_missing_code_falls_back_to_en_us_pack() {
    let catalog = dir(&[("en_US", pack("en_US", "2.0.0", "Brew"))]);
    let l = load_language(&catalog, "fr_FR");
    assert_eq!(l.metadata.id, "en_US");
    assert_eq!(l.metadata.version, "2.0.0");
    assert_eq!(l.translation("app.title"), Some("Brew".to_string()));
}

#[test]
fn load_present_code_uses_its_pack() {
    let catalog = dir(&[
        ("en_US", pack("en_US", "1.0.0", "Brew")),
        ("fr_FR", pack("fr_FR", "1.1.0", "Infusion")),
    ]);
    let l = load_language(&catalog, "fr_FR");
    assert_eq!(l.metadata.id, "fr_FR");
    assert_eq!(l.translation("app.title"), Some("Infusion".to_string()));
}

#[test]
fn load_corrupt_pack_synthesizes_builtin_without_second_hop() {
    // A present-but-corrupt file must not be masked by falling back to
    // the en_US pack: the chain goes straight to the built-in pack.
    let catalog = dir(&[
        ("fr_FR", "{ corrupt".to_string()),
        ("en_US", pack("en_US", "2.0.0", "Brew")),
    ]);
    let l = load_language(&catalog, "fr_FR");
    assert_eq!(l.metadata.id, "en_US");
    assert_eq!(l.metadata.version, "1.0.0");
    assert_eq!(l.translation("app.title"), Some("brew".to_string()));
}

#[test]
fn load_missing_en_us_with_corrupt_en_us_file_gives_builtin() {
    let catalog = dir(&[("en_US", "???".to_string())]);
    let l = load_language(&catalog, "en_US");
    assert_eq!(l.metadata.version, "1.0.0");
    assert_eq!(l.translation("app.title"), Some("brew".to_string()));
}

#[test]
fn ensure_copies_only_missing_packs() {
    let user_content = pack("en_US", "9.9.9", "Mine");
    let catalog = dir(&[("en_US", user_content.clone())]);
    let bundled = dir(&[
        ("en_US", pack("en_US", "1.0.0", "Brew")),
        ("fr_FR", pack("fr_FR", "1.0.0", "Infusion")),
    ]);
    let missing = ensure_language_files_exist(&catalog, &bundled);
    assert_eq!(missing.len(), 1);
    assert_eq!(missing[0].0, "fr_FR");
    assert_eq!(missing[0].1, bundled[1].1);
}

#[test]
fn ensure_is_idempotent() {
    let catalog = dir(&[("en_US", pack("en_US", "9.9.9", "Mine"))]);
    let bundled = dir(&[
        ("en_US", pack("en_US", "1.0.0", "Brew")),
        ("fr_FR", pack("fr_FR", "1.0.0", "Infusion")),
        ("de_DE", pack("de_DE", "1.0.0", "Sud")),
    ]);
    let first = ensure_language_files_exist(&catalog, &bundled);
    let mut after: Vec<(String, String)> = catalog.clone();
    after.extend(first.iter().cloned());
    let second = ensure_language_files_exist(&after, &bundled);
    assert!(second.is_empty());
    // The user's own pack is untouched by what installation copies.
    assert_eq!(after[0].1, catalog[0].1);
}

#[test]
fn ensure_with_empty_bundled_copies_nothing() {
    let catalog = dir(&[("en_US", pack("en_US", "1.0.0", "Brew"))]);
    let bundled: Vec<(String, String)> = Vec::new();
    assert!(ensure_language_files_exist(&catalog, &bundled).is_empty());
}

#[test]
fn list_skips_corrupt_packs_in_order() {
    let catalog = dir(&[
        ("aa_AA", pack("aa_AA", "1.0.0", "A")),
        ("bb_BB", "broken".to_string()),
        ("cc_CC", pack("cc_CC", "1.2.0", "C")),
    ]);
    let bundled: Vec<(String, String)> = Vec::new();
    let metas = get_available_languages(&catalog, &bundled);
    assert_eq!(metas.len(), 2);
    assert_eq!(metas[0].id, "aa_AA");
    assert_eq!(metas[1].id, "cc_CC");
    assert_eq!(metas[1].version, "1.2.0");
}

#[test]
fn list_falls_back_to_bundled_directory() {
    let catalog = dir(&[("xx_XX", "not a pack".to_string())]);
    let bundled = dir(&[("fr_FR", pack("fr_FR", "1.0.0", "Infusion"))]);
    let metas = get_available_languages(&catalog, &bundled);
    assert_eq!(metas.len(), 1);
    assert_eq!(metas[0].id, "fr_FR");
}

#[test]
fn list_synthesizes_builtin_when_everything_is_empty() {
    let catalog: Vec<(String, String)> = Vec::new();
    let bundled: Vec<(String, String)> = Vec::new();
    let metas = get_available_languages(&catalog, &bundled);
    assert_eq!(metas.len(), 1);
    assert_eq!(metas[0].id, "en_US");
    assert_eq!(metas[0].version, "1.0.0");
    assert_eq!(metas[0].author, "brew team");
}

#[test]
fn parse_language_requires_metadata() {
    assert!(parse_language("{\"app.title\": \"Brew\"}").is_none());
}

#[test]
fn parse_language_requires_complete_metadata() {
    let text = "{\"metadata\": {\"id\": \"fr_FR\", \"version\": \"1.0.0\"}}";
    assert!(parse_language(text).is_none());
}

#[test]
fn parse_language_reads_metadata_and_translations() {
    let text = pack("fr_FR", "1.0.0", "Infusion");
    let l = parse_language(text.as_str()).expect("valid pack");
    assert_eq!(l.metadata.id, "fr_FR");
    assert_eq!(l.metadata.author, "someone");
    assert_eq!(l.translation("app.title"), Some("Infusion".to_string()));
}

#[test]
fn parse_language_rejects_duplicate_translation_keys() {
    let text = "{\"metadata\": {\"id\": \"x\", \"version\": \"1\", \"author\": \"a\"}, \"k\": \"one\", \"k\": \"two\"}";
    assert!(parse_language(text).is_none());
}

#[test]
fn parse_language_keeps_unicode_translation_text() {
    let text = "{\"metadata\": {\"id\": \"de_DE\", \"version\": \"1\", \"author\": \"Jürgen\"}, \"app.title\": \"Gebräu — Übersicht\"}";
    let l = parse_language(text).expect("valid pack");
    assert_eq!(l.metadata.author, "Jürgen");
    assert_eq!(
        l.translation("app.title"),
        Some("Gebräu — Übersicht".to_string())
    );
}

#[test]
fn parse_language_allows_empty_translation_text() {
    let text = "{\"metadata\": {\"id\": \"x\", \"version\": \"1\", \"author\": \"a\"}, \"app.title\": \"\"}";
    let l = parse_language(text).expect("valid pack");
    assert_eq!(l.translation("app.title"), Some(String::new()));
}

#[test]
fn parse_language_ignores_unknown_metadata_fields() {
    let text = "{\"metadata\": {\"id\": \"x\", \"version\": \"1\", \"author\": \"a\", \"homepage\": \"pad\"}}";
    let l = parse_language(text).expect("extra metadata fields are ignored");
    assert_eq!(l.metadata.id, "x");
    assert!(l.translations.is_empty());
}
