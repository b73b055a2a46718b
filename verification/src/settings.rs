//! The settings record and its store: defaults, the text form on disk,
//! loading with recovery, and the round-trip guarantee.

use vstd::prelude::*;

use crate::json::lemma_parse_doc_of_render;
use crate::json::lemma_parse_top_members_wf;
use crate::json::lift_prim_members;
use crate::json::parse_doc;
use crate::json::parse_doc_str;
use crate::json::parse_top_members;
use crate::json::render_doc;
use crate::json::render_inner;
use crate::json::render_member;
use crate::json::val_members_view;
use crate::json::wf_members;
use crate::json::wf_val_text;
use crate::json::JsonPrim;
use crate::json::JsonVal;
use crate::json::SpecPrim;
use crate::json::SpecVal;
use crate::text::lemma_skip_ws_bounds;
use crate::text::skip_ws;
use crate::text::str_eq;
use crate::text::wf_text;

verus! {

/// The theme selector.
#[derive(Clone, Copy, Debug, PartialEq, Eq, Structural)]
pub enum Theme {
    /// Follow the system preference.
    System,
    /// Light colors.
    Light,
    /// Dark colors.
    Dark,
    /// Dark colors on pure black.
    Oled,
}

/// The window-chrome style.
#[derive(Clone, Copy, Debug, PartialEq, Eq, Structural)]
pub enum TitlebarStyle {
    /// Native decorations drawn by the platform.
    Native,
    /// The application's own titlebar.
    Custom,
    /// The platform-specific variant.
    MacOs,
}

/// The single user-configurable preference set.
#[derive(Debug)]
pub struct Settings {
    /// Theme selector.
    pub theme: Theme,
    /// Presence-integration toggle.
    pub discord_rpc: bool,
    /// Advanced-rendering toggle.
    pub advanced_rendering: bool,
    /// Active language code.
    pub language: String,
    /// Window-chrome style.
    pub titlebar_style: TitlebarStyle,
}

/// Mathematical value of a settings record.
pub struct SettingsView {
    /// Theme selector.
    pub theme: Theme,
    /// Presence-integration toggle.
    pub discord_rpc: bool,
    /// Advanced-rendering toggle.
    pub advanced_rendering: bool,
    /// Active language code.
    pub language: Seq<char>,
    /// Window-chrome style.
    pub titlebar_style: TitlebarStyle,
}

impl View for Settings {
    type V = SettingsView;

    open spec fn view(&self) -> SettingsView {
        SettingsView {
            theme: self.theme,
            discord_rpc: self.discord_rpc,
            advanced_rendering: self.advanced_rendering,
            language: self.language@,
            titlebar_style: self.titlebar_style,
        }
    }
}

/// The built-in fallback language code.
pub open spec fn code_en_us() -> Seq<char> {
    seq!['e', 'n', '_', 'U', 'S']
}

/// The default record: system theme, both toggles on, the built-in
/// language, the application's own titlebar.
pub open spec fn spec_default_settings() -> SettingsView {
    SettingsView {
        theme: Theme::System,
        discord_rpc: true,
        advanced_rendering: true,
        language: code_en_us(),
        titlebar_style: TitlebarStyle::Custom,
    }
}

/// A record the store can write back: the language code must be plain
/// text (the enumerated fields always are).
pub open spec fn wf_settings(v: SettingsView) -> bool {
    wf_text(v.language)
}

/// Text of a theme selector.
pub open spec fn theme_text(t: Theme) -> Seq<char> {
    match t {
        Theme::System => seq!['s', 'y', 's', 't', 'e', 'm'],
        Theme::Light => seq!['l', 'i', 'g', 'h', 't'],
        Theme::Dark => seq!['d', 'a', 'r', 'k'],
        Theme::Oled => seq!['o', 'l', 'e', 'd'],
    }
}

/// Theme selector named by a text, if any.
pub open spec fn theme_of_text(s: Seq<char>) -> Option<Theme> {
    if s == theme_text(Theme::System) {
        Some(Theme::System)
    } else if s == theme_text(Theme::Light) {
        Some(Theme::Light)
    } else if s == theme_text(Theme::Dark) {
        Some(Theme::Dark)
    } else if s == theme_text(Theme::Oled) {
        Some(Theme::Oled)
    } else {
        None
    }
}

/// Text of a titlebar style.
pub open spec fn titlebar_text(t: TitlebarStyle) -> Seq<char> {
    match t {
        TitlebarStyle::Native => seq!['n', 'a', 't', 'i', 'v', 'e'],
        TitlebarStyle::Custom => seq!['c', 'u', 's', 't', 'o', 'm'],
        TitlebarStyle::MacOs => seq!['m', 'a', 'c', 'o', 's'],
    }
}

/// Titlebar style named by a text, if any.
pub open spec fn titlebar_of_text(s: Seq<char>) -> Option<TitlebarStyle> {
    if s == titlebar_text(TitlebarStyle::Native) {
        Some(TitlebarStyle::Native)
    } else if s == titlebar_text(TitlebarStyle::Custom) {
        Some(TitlebarStyle::Custom)
    } else if s == titlebar_text(TitlebarStyle::MacOs) {
        Some(TitlebarStyle::MacOs)
    } else {
        None
    }
}

/// Key of the theme member.
pub open spec fn key_theme() -> Seq<char> {
    seq!['t', 'h', 'e', 'm', 'e']
}

/// Key of the presence-integration member.
pub open spec fn key_discord_rpc() -> Seq<char> {
    seq!['d', 'i', 's', 'c', 'o', 'r', 'd', '_', 'r', 'p', 'c']
}

/// Key of the advanced-rendering member.
pub open spec fn key_advanced_rendering() -> Seq<char> {
    seq!['a', 'd', 'v', 'a', 'n', 'c', 'e', 'd', '_', 'r', 'e', 'n', 'd', 'e', 'r', 'i', 'n', 'g']
}

/// Key of the language member.
pub open spec fn key_language() -> Seq<char> {
    seq!['l', 'a', 'n', 'g', 'u', 'a', 'g', 'e']
}

/// Key of the titlebar-style member.
pub open spec fn key_titlebar_style() -> Seq<char> {
    seq!['t', 'i', 't', 'l', 'e', 'b', 'a', 'r', '_', 's', 't', 'y', 'l', 'e']
}

/// Effect of one document member on a record being read. A member with an
/// unknown key is ignored; a known key with a value of the wrong shape
/// fails the whole document.
pub open spec fn apply_settings_member(v: SettingsView, k: Seq<char>, val: SpecVal) -> Option<
    SettingsView,
> {
    if k == key_theme() {
        match val {
            SpecVal::Prim(SpecPrim::Text(s)) => match theme_of_text(s) {
                Some(th) => Some(SettingsView { theme: th, ..v }),
                None => None,
            },
            _ => None,
        }
    } else if k == key_discord_rpc() {
        match val {
            SpecVal::Prim(SpecPrim::Flag(b)) => Some(SettingsView { discord_rpc: b, ..v }),
            _ => None,
        }
    } else if k == key_advanced_rendering() {
        match val {
            SpecVal::Prim(SpecPrim::Flag(b)) => Some(SettingsView { advanced_rendering: b, ..v }),
            _ => None,
        }
    } else if k == key_language() {
        match val {
            SpecVal::Prim(SpecPrim::Text(s)) => Some(SettingsView { language: s, ..v }),
            _ => None,
        }
    } else if k == key_titlebar_style() {
        match val {
            SpecVal::Prim(SpecPrim::Text(s)) => match titlebar_of_text(s) {
                Some(tb) => Some(SettingsView { titlebar_style: tb, ..v }),
                None => None,
            },
            _ => None,
        }
    } else {
        Some(v)
    }
}

/// Reading of a member list onto a starting record, left to right; a
/// later member overrides an earlier one with the same key.
pub open spec fn settings_of_members(v: SettingsView, ms: Seq<(Seq<char>, SpecVal)>) -> Option<
    SettingsView,
>
    decreases ms.len(),
{
    if ms.len() == 0 {
        Some(v)
    } else {
        match apply_settings_member(v, ms[0].0, ms[0].1) {
            None => None,
            Some(v2) => settings_of_members(v2, ms.subrange(1, ms.len() as int)),
        }
    }
}

/// Meaning of a settings document: the members read onto the default
/// record, so that missing members keep their defaults.
pub open spec fn spec_parse_settings(t: Seq<char>) -> Option<SettingsView> {
    match parse_doc(t) {
        Some(ms) => settings_of_members(spec_default_settings(), ms),
        None => None,
    }
}

/// Meaning of loading: an absent file and an unreadable file both yield
/// the default record; anything else yields what the document says.
pub open spec fn spec_load_settings(content: Option<Seq<char>>) -> SettingsView {
    match content {
        None => spec_default_settings(),
        Some(t) => match spec_parse_settings(t) {
            Some(v) => v,
            None => spec_default_settings(),
        },
    }
}

impl Default for Settings {
    /// The field-complete default record.
    fn default() -> (r: Settings)
        ensures
            r@ == spec_default_settings(),
    {
        proof {
            reveal_strlit("en_US");
            assert("en_US"@ =~= code_en_us());
        }
        Settings {
            theme: Theme::System,
            discord_rpc: true,
            advanced_rendering: true,
            language: "en_US".to_owned(),
            titlebar_style: TitlebarStyle::Custom,
        }
    }
}

/// Whether a titlebar style asks the platform for native window
/// decorations: only the native style does; the application draws its
/// own titlebar for the other styles.
pub fn titlebar_decorations(style: TitlebarStyle) -> (r: bool)
    ensures
        r == (style == TitlebarStyle::Native),
{
    match style {
        TitlebarStyle::Native => true,
        TitlebarStyle::Custom => false,
        TitlebarStyle::MacOs => false,
    }
}

impl Settings {
    /// An equal copy of the record, field by field.
    pub fn duplicate(&self) -> (r: Settings)
        ensures
            r@ == self@,
    {
        Settings {
            theme: self.theme,
            discord_rpc: self.discord_rpc,
            advanced_rendering: self.advanced_rendering,
            language: self.language.clone(),
            titlebar_style: self.titlebar_style,
        }
    }
}

/// Theme selector named by a text, executable form.
pub fn theme_of_text_str(s: &str) -> (r: Option<Theme>)
    ensures
        r == theme_of_text(s@),
{
    proof {
        reveal_strlit("system");
        reveal_strlit("light");
        reveal_strlit("dark");
        reveal_strlit("oled");
        assert("system"@ =~= theme_text(Theme::System));
        assert("light"@ =~= theme_text(Theme::Light));
        assert("dark"@ =~= theme_text(Theme::Dark));
        assert("oled"@ =~= theme_text(Theme::Oled));
    }
    if str_eq(s, "system") {
        Some(Theme::System)
    } else if str_eq(s, "light") {
        Some(Theme::Light)
    } else if str_eq(s, "dark") {
        Some(Theme::Dark)
    } else if str_eq(s, "oled") {
        Some(Theme::Oled)
    } else {
        None
    }
}

/// Titlebar style named by a text, executable form.
pub fn titlebar_of_text_str(s: &str) -> (r: Option<TitlebarStyle>)
    ensures
        r == titlebar_of_text(s@),
{
    proof {
        reveal_strlit("native");
        reveal_strlit("custom");
        reveal_strlit("macos");
        assert("native"@ =~= titlebar_text(TitlebarStyle::Native));
        assert("custom"@ =~= titlebar_text(TitlebarStyle::Custom));
        assert("macos"@ =~= titlebar_text(TitlebarStyle::MacOs));
    }
    if str_eq(s, "native") {
        Some(TitlebarStyle::Native)
    } else if str_eq(s, "custom") {
        Some(TitlebarStyle::Custom)
    } else if str_eq(s, "macos") {
        Some(TitlebarStyle::MacOs)
    } else {
        None
    }
}

/// Effect of one document member, executable form.
fn apply_member(cur: Settings, key: &String, val: &JsonVal) -> (r: Option<Settings>)
    ensures
        match r {
            Some(s2) => apply_settings_member(cur@, key@, val@) == Some(s2@),
            None => apply_settings_member(cur@, key@, val@) is None,
        },
{
    proof {
        reveal_strlit("theme");
        reveal_strlit("discord_rpc");
        reveal_strlit("advanced_rendering");
        reveal_strlit("language");
        reveal_strlit("titlebar_style");
        assert("theme"@ =~= key_theme());
        assert("discord_rpc"@ =~= key_discord_rpc());
        assert("advanced_rendering"@ =~= key_advanced_rendering());
        assert("language"@ =~= key_language());
        assert("titlebar_style"@ =~= key_titlebar_style());
    }
    if str_eq(key.as_str(), "theme") {
        match val {
            JsonVal::Prim(JsonPrim::Text(s)) => match theme_of_text_str(s.as_str()) {
                Some(th) => Some(
                    Settings {
                        theme: th,
                        discord_rpc: cur.discord_rpc,
                        advanced_rendering: cur.advanced_rendering,
                        language: cur.language,
                        titlebar_style: cur.titlebar_style,
                    },
                ),
                None => None,
            },
            _ => None,
        }
    } else if str_eq(key.as_str(), "discord_rpc") {
        match val {
            JsonVal::Prim(JsonPrim::Flag(b)) => Some(
                Settings {
                    theme: cur.theme,
                    discord_rpc: *b,
                    advanced_rendering: cur.advanced_rendering,
                    language: cur.language,
                    titlebar_style: cur.titlebar_style,
                },
            ),
            _ => None,
        }
    } else if str_eq(key.as_str(), "advanced_rendering") {
        match val {
            JsonVal::Prim(JsonPrim::Flag(b)) => Some(
                Settings {
                    theme: cur.theme,
                    discord_rpc: cur.discord_rpc,
                    advanced_rendering: *b,
                    language: cur.language,
                    titlebar_style: cur.titlebar_style,
                },
            ),
            _ => None,
        }
    } else if str_eq(key.as_str(), "language") {
        match val {
            JsonVal::Prim(JsonPrim::Text(s)) => Some(
                Settings {
                    theme: cur.theme,
                    discord_rpc: cur.discord_rpc,
                    advanced_rendering: cur.advanced_rendering,
                    language: s.clone(),
                    titlebar_style: cur.titlebar_style,
                },
            ),
            _ => None,
        }
    } else if str_eq(key.as_str(), "titlebar_style") {
        match val {
            JsonVal::Prim(JsonPrim::Text(s)) => match titlebar_of_text_str(s.as_str()) {
                Some(tb) => Some(
                    Settings {
                        theme: cur.theme,
                        discord_rpc: cur.discord_rpc,
                        advanced_rendering: cur.advanced_rendering,
                        language: cur.language,
                        titlebar_style: tb,
                    },
                ),
                None => None,
            },
            _ => None,
        }
    } else {
        Some(cur)
    }
}

/// Read a settings document. `None` when the text is not a well-formed
/// document or a known member has a value of the wrong shape.
pub fn parse_settings(t: &str) -> (r: Option<Settings>)
    ensures
        match r {
            Some(s) => spec_parse_settings(t@) == Some(s@),
            None => spec_parse_settings(t@) is None,
        },
{
    match parse_doc_str(t) {
        None => None,
        Some(ms) => {
            let ghost msv = val_members_view(ms@);
            let mut cur = Settings::default();
            let mut k: usize = 0;
            proof {
                assert(msv.subrange(0, msv.len() as int) =~= msv);
            }
            while k < ms.len()
                invariant
                    k <= ms.len(),
                    msv == val_members_view(ms@),
                    msv.len() == ms@.len(),
                    parse_doc(t@) == Some(msv),
                    settings_of_members(spec_default_settings(), msv) == settings_of_members(
                        cur@,
                        msv.subrange(k as int, msv.len() as int),
                    ),
                decreases ms.len() - k,
            {
                let (key, val) = &ms[k];
                let ghost prev = cur@;
                let ghost rem = msv.subrange(k as int, msv.len() as int);
                proof {
                    assert(rem[0] == (key@, val@));
                    assert(rem.subrange(1, rem.len() as int) =~= msv.subrange(
                        k + 1,
                        msv.len() as int,
                    ));
                }
                match apply_member(cur, key, val) {
                    None => {
                        proof {
                            assert(settings_of_members(prev, rem) is None);
                        }
                        return None;
                    },
                    Some(next) => {
                        proof {
                            assert(settings_of_members(prev, rem) == settings_of_members(
                                next@,
                                msv.subrange(k + 1, msv.len() as int),
                            ));
                        }
                        cur = next;
                    },
                }
                k = k + 1;
            }
            proof {
                assert(msv.subrange(k as int, msv.len() as int) =~= Seq::<
                    (Seq<char>, SpecVal),
                >::empty());
            }
            Some(cur)
        },
    }
}

/// Reading members with valid string values onto a well-formed record
/// keeps the language code valid text.
proof fn lemma_fold_keeps_wf(v: SettingsView, ms: Seq<(Seq<char>, SpecVal)>)
    requires
        wf_settings(v),
        forall|k: int| 0 <= k < ms.len() ==> wf_val_text((#[trigger] ms[k]).1),
        settings_of_members(v, ms) is Some,
    ensures
        wf_settings(settings_of_members(v, ms)->Some_0),
    decreases ms.len(),
{
    if ms.len() > 0 {
        let v2 = apply_settings_member(v, ms[0].0, ms[0].1)->Some_0;
        assert(wf_settings(v2));
        let rest = ms.subrange(1, ms.len() as int);
        assert(forall|k: int| 0 <= k < rest.len() ==> #[trigger] rest[k] == ms[k + 1]);
        lemma_fold_keeps_wf(v2, rest);
    }
}

/// What loading yields is always well formed: the defaults are, and a
/// parsed record's language code was accepted character by character.
/// Round-trip fidelity therefore applies to every record the store
/// returns.
pub proof fn lemma_loaded_settings_wf(content: Option<Seq<char>>)
    ensures
        wf_settings(spec_load_settings(content)),
{
    assert(wf_settings(spec_default_settings()));
    match content {
        None => {},
        Some(t) => {
            if spec_parse_settings(t) is Some {
                let i = skip_ws(t, 0);
                lemma_skip_ws_bounds(t, 0);
                lemma_parse_top_members_wf(t, i + 1);
                let ms = parse_doc(t)->Some_0;
                assert(ms == parse_top_members(t, i + 1)->Some_0.0);
                lemma_fold_keeps_wf(spec_default_settings(), ms);
            }
        },
    }
}

/// The members of the written form of a record, in their fixed order.
pub open spec fn settings_members(v: SettingsView) -> Seq<(Seq<char>, SpecPrim)> {
    seq![
        (key_theme(), SpecPrim::Text(theme_text(v.theme))),
        (key_discord_rpc(), SpecPrim::Flag(v.discord_rpc)),
        (key_advanced_rendering(), SpecPrim::Flag(v.advanced_rendering)),
        (key_language(), SpecPrim::Text(v.language)),
        (key_titlebar_style(), SpecPrim::Text(titlebar_text(v.titlebar_style))),
    ]
}

/// The written form of a record: its five members as a document.
pub open spec fn spec_render_settings(v: SettingsView) -> Seq<char> {
    render_doc(settings_members(v))
}

/// Round-trip fidelity: a saved record loads back equal, for every record
/// whose language code is plain text.
#[verifier::rlimit(100)]
pub proof fn lemma_settings_round_trip(v: SettingsView)
    requires
        wf_settings(v),
    ensures
        spec_parse_settings(spec_render_settings(v)) == Some(v),
        spec_load_settings(Some(spec_render_settings(v))) == v,
{
    let ms = settings_members(v);
    assert(wf_members(ms)) by {
        assert(wf_text(key_theme()));
        assert(wf_text(key_discord_rpc()));
        assert(wf_text(key_advanced_rendering()));
        assert(wf_text(key_language()));
        assert(wf_text(key_titlebar_style()));
        assert(wf_text(theme_text(v.theme)));
        assert(wf_text(titlebar_text(v.titlebar_style)));
        assert(forall|i: int| 0 <= i < 5 ==> ms[i].0 == (#[trigger] ms[i]).0);
    }
    lemma_parse_doc_of_render(ms);
    let lm = lift_prim_members(ms);
    assert(lm.len() == 5);
    // Distinctness of the words that share a length.
    assert(theme_text(Theme::Dark) != theme_text(Theme::Oled)) by {
        assert(theme_text(Theme::Dark)[0] == 'd' && theme_text(Theme::Oled)[0] == 'o');
    }
    assert(titlebar_text(TitlebarStyle::Native) != titlebar_text(TitlebarStyle::Custom)) by {
        assert(titlebar_text(TitlebarStyle::Native)[0] == 'n' && titlebar_text(
            TitlebarStyle::Custom,
        )[0] == 'c');
    }
    assert(theme_of_text(theme_text(v.theme)) == Some(v.theme));
    assert(titlebar_of_text(titlebar_text(v.titlebar_style)) == Some(v.titlebar_style));
    // Read the five members onto the default record, one at a time.
    let d0 = spec_default_settings();
    let d1 = SettingsView { theme: v.theme, ..d0 };
    let d2 = SettingsView { discord_rpc: v.discord_rpc, ..d1 };
    let d3 = SettingsView { advanced_rendering: v.advanced_rendering, ..d2 };
    let d4 = SettingsView { language: v.language, ..d3 };
    let d5 = SettingsView { titlebar_style: v.titlebar_style, ..d4 };
    assert(lm[0] == (key_theme(), SpecVal::Prim(SpecPrim::Text(theme_text(v.theme)))));
    assert(lm[1] == (key_discord_rpc(), SpecVal::Prim(SpecPrim::Flag(v.discord_rpc))));
    assert(lm[2] == (
        key_advanced_rendering(),
        SpecVal::Prim(SpecPrim::Flag(v.advanced_rendering)),
    ));
    assert(lm[3] == (key_language(), SpecVal::Prim(SpecPrim::Text(v.language))));
    assert(lm[4] == (
        key_titlebar_style(),
        SpecVal::Prim(SpecPrim::Text(titlebar_text(v.titlebar_style))),
    ));
    assert(apply_settings_member(d0, lm[0].0, lm[0].1) == Some(d1));
    assert(apply_settings_member(d1, lm[1].0, lm[1].1) == Some(d2));
    assert(apply_settings_member(d2, lm[2].0, lm[2].1) == Some(d3));
    assert(apply_settings_member(d3, lm[3].0, lm[3].1) == Some(d4));
    assert(apply_settings_member(d4, lm[4].0, lm[4].1) == Some(d5));
    let s1 = lm.subrange(1, 5);
    let s2 = lm.subrange(2, 5);
    let s3 = lm.subrange(3, 5);
    let s4 = lm.subrange(4, 5);
    let s5 = lm.subrange(5, 5);
    assert(s1[0] == lm[1] && s1.subrange(1, 4) =~= s2);
    assert(s2[0] == lm[2] && s2.subrange(1, 3) =~= s3);
    assert(s3[0] == lm[3] && s3.subrange(1, 2) =~= s4);
    assert(s4[0] == lm[4] && s4.subrange(1, 1) =~= s5);
    assert(s5.len() == 0);
    assert(settings_of_members(d0, lm) == settings_of_members(d1, s1));
    assert(settings_of_members(d1, s1) == settings_of_members(d2, s2));
    assert(settings_of_members(d2, s2) == settings_of_members(d3, s3));
    assert(settings_of_members(d3, s3) == settings_of_members(d4, s4));
    assert(settings_of_members(d4, s4) == settings_of_members(d5, s5));
    assert(settings_of_members(d5, s5) == Some(d5));
    assert(d5 == v);
}

/// Text of a theme selector, executable form.
pub fn theme_word(t: Theme) -> (r: &'static str)
    ensures
        r@ == theme_text(t),
{
    proof {
        reveal_strlit("system");
        reveal_strlit("light");
        reveal_strlit("dark");
        reveal_strlit("oled");
        assert("system"@ =~= theme_text(Theme::System));
        assert("light"@ =~= theme_text(Theme::Light));
        assert("dark"@ =~= theme_text(Theme::Dark));
        assert("oled"@ =~= theme_text(Theme::Oled));
    }
    match t {
        Theme::System => "system",
        Theme::Light => "light",
        Theme::Dark => "dark",
        Theme::Oled => "oled",
    }
}

/// Text of a titlebar style, executable form.
pub fn titlebar_word(t: TitlebarStyle) -> (r: &'static str)
    ensures
        r@ == titlebar_text(t),
{
    proof {
        reveal_strlit("native");
        reveal_strlit("custom");
        reveal_strlit("macos");
        assert("native"@ =~= titlebar_text(TitlebarStyle::Native));
        assert("custom"@ =~= titlebar_text(TitlebarStyle::Custom));
        assert("macos"@ =~= titlebar_text(TitlebarStyle::MacOs));
    }
    match t {
        TitlebarStyle::Native => "native",
        TitlebarStyle::Custom => "custom",
        TitlebarStyle::MacOs => "macos",
    }
}

/// Append one member with a string value, on its own indented line.
fn append_text_member(out: &mut String, key: &str, text: &str)
    ensures
        final(out)@ == old(out)@ + (seq!['\n', ' ', ' '] + render_member(
            key@,
            SpecPrim::Text(text@),
        )),
{
    out.append("\n  \"");
    out.append(key);
    out.append("\": \"");
    out.append(text);
    out.append("\"");
    proof {
        reveal_strlit("\n  \"");
        reveal_strlit("\": \"");
        reveal_strlit("\"");
        assert(out@ =~= old(out)@ + (seq!['\n', ' ', ' '] + render_member(
            key@,
            SpecPrim::Text(text@),
        )));
    }
}

/// Append one member with a boolean value, on its own indented line.
fn append_flag_member(out: &mut String, key: &str, b: bool)
    ensures
        final(out)@ == old(out)@ + (seq!['\n', ' ', ' '] + render_member(key@, SpecPrim::Flag(b))),
{
    out.append("\n  \"");
    out.append(key);
    out.append("\": ");
    if b {
        out.append("true");
    } else {
        out.append("false");
    }
    proof {
        reveal_strlit("\n  \"");
        reveal_strlit("\": ");
        reveal_strlit("true");
        reveal_strlit("false");
        assert(out@ =~= old(out)@ + (seq!['\n', ' ', ' '] + render_member(
            key@,
            SpecPrim::Flag(b),
        )));
    }
}

/// Reassociation of a five-line document: the flat chain a writer emits
/// equals the nested chain the renderer defines, whatever stands on the
/// lines.
proof fn lemma_chain5(
    m1: Seq<char>,
    m2: Seq<char>,
    m3: Seq<char>,
    m4: Seq<char>,
    m5: Seq<char>,
    o: Seq<char>,
)
    requires
        o == seq!['{'] + m1 + seq![','] + m2 + seq![','] + m3 + seq![','] + m4 + seq![','] + m5
            + seq!['\n', '}'],
    ensures
        o == seq!['{'] + (m1 + (seq![','] + (m2 + (seq![','] + (m3 + (seq![','] + (m4 + (seq![',']
            + (m5 + Seq::<char>::empty()))))))))) + seq!['\n', '}'],
{
    assert(o =~= seq!['{'] + (m1 + (seq![','] + (m2 + (seq![','] + (m3 + (seq![','] + (m4 + (seq![
        ',',
    ] + (m5 + Seq::<char>::empty()))))))))) + seq!['\n', '}']);
}

/// The rendered document, as the flat chain of its parts in the order a
/// writer emits them.
proof fn lemma_render_parts(v: SettingsView, o: Seq<char>)
    requires
        o == seq!['{'] + (seq!['\n', ' ', ' '] + render_member(
            key_theme(),
            SpecPrim::Text(theme_text(v.theme)),
        )) + seq![','] + (seq!['\n', ' ', ' '] + render_member(
            key_discord_rpc(),
            SpecPrim::Flag(v.discord_rpc),
        )) + seq![','] + (seq!['\n', ' ', ' '] + render_member(
            key_advanced_rendering(),
            SpecPrim::Flag(v.advanced_rendering),
        )) + seq![','] + (seq!['\n', ' ', ' '] + render_member(
            key_language(),
            SpecPrim::Text(v.language),
        )) + seq![','] + (seq!['\n', ' ', ' '] + render_member(
            key_titlebar_style(),
            SpecPrim::Text(titlebar_text(v.titlebar_style)),
        )) + seq!['\n', '}'],
    ensures
        o == spec_render_settings(v),
{
    let ms = settings_members(v);
    let s1 = ms.subrange(1, 5);
    let s2 = ms.subrange(2, 5);
    let s3 = ms.subrange(3, 5);
    let s4 = ms.subrange(4, 5);
    assert(s1[0] == ms[1] && s1.len() == 4 && s1.subrange(1, 4) =~= s2);
    assert(s2[0] == ms[2] && s2.len() == 3 && s2.subrange(1, 3) =~= s3);
    assert(s3[0] == ms[3] && s3.len() == 2 && s3.subrange(1, 2) =~= s4);
    assert(s4[0] == ms[4] && s4.len() == 1);
    let ind = seq!['\n', ' ', ' '];
    let com = seq![','];
    let m1 = ind + render_member(ms[0].0, ms[0].1);
    let m2 = ind + render_member(ms[1].0, ms[1].1);
    let m3 = ind + render_member(ms[2].0, ms[2].1);
    let m4 = ind + render_member(ms[3].0, ms[3].1);
    let m5 = ind + render_member(ms[4].0, ms[4].1);
    assert(render_inner(s4) == m5 + Seq::<char>::empty());
    assert(render_inner(s3) == m4 + (com + render_inner(s4)));
    assert(render_inner(s2) == m3 + (com + render_inner(s3)));
    assert(render_inner(s1) == m2 + (com + render_inner(s2)));
    assert(render_inner(ms) == m1 + (com + render_inner(s1)));
    lemma_chain5(m1, m2, m3, m4, m5, o);
    assert(render_doc(ms) == seq!['{'] + render_inner(ms) + seq!['\n', '}']);
}

/// Write a record as its document, pretty-printed: every valid record
/// written by this function loads back equal (`lemma_settings_round_trip`).
#[verifier::rlimit(100)]
pub fn render_settings(s: &Settings) -> (r: String)
    ensures
        r@ == spec_render_settings(s@),
{
    let mut out = "{".to_owned();
    append_text_member(&mut out, "theme", theme_word(s.theme));
    out.append(",");
    append_flag_member(&mut out, "discord_rpc", s.discord_rpc);
    out.append(",");
    append_flag_member(&mut out, "advanced_rendering", s.advanced_rendering);
    out.append(",");
    append_text_member(&mut out, "language", s.language.as_str());
    out.append(",");
    append_text_member(&mut out, "titlebar_style", titlebar_word(s.titlebar_style));
    out.append("\n}");
    proof {
        reveal_strlit("{");
        reveal_strlit(",");
        reveal_strlit("\n}");
        reveal_strlit("theme");
        reveal_strlit("discord_rpc");
        reveal_strlit("advanced_rendering");
        reveal_strlit("language");
        reveal_strlit("titlebar_style");
        assert("{"@ =~= seq!['{']);
        assert(","@ =~= seq![',']);
        assert("\n}"@ =~= seq!['\n', '}']);
        assert("theme"@ =~= key_theme());
        assert("discord_rpc"@ =~= key_discord_rpc());
        assert("advanced_rendering"@ =~= key_advanced_rendering());
        assert("language"@ =~= key_language());
        assert("titlebar_style"@ =~= key_titlebar_style());
        lemma_render_parts(s@, out@);
    }
    out
}

/// Load a settings record from the file content, `None` standing for an
/// absent file: defaults when absent, defaults when unreadable, else what
/// the document says.
pub fn load_settings(content: Option<&str>) -> (r: Settings)
    ensures
        r@ == spec_load_settings(
            match content {
                Some(t) => Some(t@),
                None => None,
            },
        ),
{
    match content {
        None => Settings::default(),
        Some(t) => match parse_settings(t) {
            Some(s) => s,
            None => Settings::default(),
        },
    }
}

} // verus!
