//! The process-wide application state: the current settings record, the
//! resolved settings-file path, and the active language pack.
//!
//! The embedding process keeps one value of `AppState` behind a single
//! mutex and calls these operations while holding it, so a settings
//! update and a language switch can never interleave: every operation
//! here is one atomic step from state to state. Each mutating operation
//! returns the settings document to persist; the caller writes it and
//! reports a failed write to its own caller, while the in-memory state
//! keeps the new value (last write wins in memory).

use vstd::prelude::*;

use crate::assoc::pairs_view;
use crate::catalog::load_language;
use crate::catalog::spec_load_language;
use crate::language::Language;
use crate::language::LanguageView;
use crate::settings::load_settings;
use crate::settings::render_settings;
use crate::settings::spec_load_settings;
use crate::settings::spec_render_settings;
use crate::settings::Settings;
use crate::settings::SettingsView;
use crate::text::str_eq;

verus! {

/// The three protected fields of the shared state.
pub struct AppState {
    /// Current settings record.
    pub settings: Settings,
    /// Resolved settings-file path, once known.
    pub settings_path: Option<String>,
    /// Currently active language pack.
    pub current_language: Language,
}

/// Mathematical value of the shared state.
pub struct AppStateView {
    /// Current settings record.
    pub settings: SettingsView,
    /// Resolved settings-file path, once known.
    pub settings_path: Option<Seq<char>>,
    /// Currently active language pack.
    pub current_language: LanguageView,
}

impl View for AppState {
    type V = AppStateView;

    open spec fn view(&self) -> AppStateView {
        AppStateView {
            settings: self.settings@,
            settings_path: match self.settings_path {
                Some(p) => Some(p@),
                None => None,
            },
            current_language: self.current_language@,
        }
    }
}

/// Cross-field consistency against a catalog: the active pack is exactly
/// what the catalog resolves for the recorded language code. Every
/// language-affecting operation leaves the state in this relation, so
/// the code and the pack never drift apart.
pub open spec fn consistent_with(v: AppStateView, cat: Seq<(Seq<char>, Seq<char>)>) -> bool {
    v.current_language == spec_load_language(cat, v.settings.language)
}

/// Effect of replacing the settings record: the language is re-resolved
/// exactly when the new record names a different code.
pub open spec fn spec_update_effect(
    v: AppStateView,
    new: SettingsView,
    cat: Seq<(Seq<char>, Seq<char>)>,
) -> AppStateView {
    AppStateView {
        settings: new,
        settings_path: v.settings_path,
        current_language: if new.language != v.settings.language {
            spec_load_language(cat, new.language)
        } else {
            v.current_language
        },
    }
}

/// Effect of switching the language: the pack and the code are committed
/// together.
pub open spec fn spec_change_effect(
    v: AppStateView,
    code: Seq<char>,
    cat: Seq<(Seq<char>, Seq<char>)>,
) -> AppStateView {
    AppStateView {
        settings: SettingsView { language: code, ..v.settings },
        settings_path: v.settings_path,
        current_language: spec_load_language(cat, code),
    }
}

/// One mutating operation on the shared state.
pub enum StateOp {
    /// A full settings replacement.
    Update(SettingsView),
    /// A language switch by code.
    Switch(Seq<char>),
}

/// Effect of one operation.
pub open spec fn apply_state_op(
    v: AppStateView,
    op: StateOp,
    cat: Seq<(Seq<char>, Seq<char>)>,
) -> AppStateView {
    match op {
        StateOp::Update(s) => spec_update_effect(v, s, cat),
        StateOp::Switch(c) => spec_change_effect(v, c, cat),
    }
}

/// Effect of a serialized sequence of operations, first to last.
pub open spec fn run_state_ops(
    v: AppStateView,
    ops: Seq<StateOp>,
    cat: Seq<(Seq<char>, Seq<char>)>,
) -> AppStateView
    decreases ops.len(),
{
    if ops.len() == 0 {
        v
    } else {
        run_state_ops(apply_state_op(v, ops[0], cat), ops.subrange(1, ops.len() as int), cat)
    }
}

/// Serialization of the two mutating operations: however many settings
/// updates and language switches run one after the other — the single
/// lock around the state allows no other order — the recorded code never
/// points to a pack other than the one held, in every intermediate
/// state.
pub proof fn lemma_serialized_ops_keep_consistency(
    v: AppStateView,
    ops: Seq<StateOp>,
    cat: Seq<(Seq<char>, Seq<char>)>,
)
    requires
        consistent_with(v, cat),
    ensures
        consistent_with(run_state_ops(v, ops, cat), cat),
    decreases ops.len(),
{
    if ops.len() > 0 {
        let v2 = apply_state_op(v, ops[0], cat);
        assert(consistent_with(v2, cat));
        lemma_serialized_ops_keep_consistency(v2, ops.subrange(1, ops.len() as int), cat);
    }
}

impl AppState {
    /// Seed the state at startup: settings from the file content (`None`
    /// for an absent file), the language resolved through the catalog
    /// for the loaded record's code.
    pub fn startup(
        settings_content: Option<&str>,
        settings_path: Option<String>,
        catalog: &Vec<(String, String)>,
    ) -> (r: AppState)
        ensures
            r@.settings == spec_load_settings(
                match settings_content {
                    Some(t) => Some(t@),
                    None => None,
                },
            ),
            r@.settings_path == match settings_path {
                Some(p) => Some(p@),
                None => None::<Seq<char>>,
            },
            r@.current_language == spec_load_language(pairs_view(catalog@), r@.settings.language),
            consistent_with(r@, pairs_view(catalog@)),
    {
        let settings = load_settings(settings_content);
        let current_language = load_language(catalog, settings.language.as_str());
        AppState { settings, settings_path, current_language }
    }

    /// The current record, from memory; on first use the resolved path
    /// is cached, and it is never re-resolved after that.
    pub fn get_settings(&mut self, resolved: Option<String>) -> (r: Settings)
        ensures
            r@ == old(self)@.settings,
            final(self)@.settings == old(self)@.settings,
            final(self)@.current_language == old(self)@.current_language,
            final(self)@.settings_path == if old(self)@.settings_path is Some {
                old(self)@.settings_path
            } else {
                match resolved {
                    Some(p) => Some(p@),
                    None => None::<Seq<char>>,
                }
            },
    {
        if self.settings_path.is_none() {
            self.settings_path = resolved;
        }
        self.settings.duplicate()
    }

    /// The active pack, from memory; no file is touched.
    pub fn get_translations(&self) -> (r: Language)
        ensures
            r@ == self@.current_language,
    {
        self.current_language.duplicate()
    }

    /// Replace the whole record. The language is re-resolved only when
    /// the new record names a different code than the previous one, and
    /// the resolution is total, so the state can never be left with a
    /// code whose pack is not the active one. Returns the document to
    /// persist.
    pub fn update_settings(&mut self, new_settings: Settings, catalog: &Vec<(String, String)>)
        -> (r: String)
        ensures
            final(self)@ == spec_update_effect(old(self)@, new_settings@, pairs_view(catalog@)),
            r@ == spec_render_settings(new_settings@),
            consistent_with(old(self)@, pairs_view(catalog@)) ==> consistent_with(
                final(self)@,
                pairs_view(catalog@),
            ),
    {
        let changed = !str_eq(self.settings.language.as_str(), new_settings.language.as_str());
        if changed {
            self.current_language = load_language(catalog, new_settings.language.as_str());
        }
        let text = render_settings(&new_settings);
        self.settings = new_settings;
        text
    }

    /// Switch the active language: resolve the code through the catalog
    /// (total, by fallback), commit the pack and the code together, and
    /// return the pack with the document to persist. The recorded code
    /// is the requested one even when fallback resolved another pack;
    /// the two fields still agree through the catalog.
    pub fn change_language(&mut self, code: &str, catalog: &Vec<(String, String)>) -> (r: (
        Language,
        String,
    ))
        ensures
            final(self)@ == spec_change_effect(old(self)@, code@, pairs_view(catalog@)),
            final(self)@.settings.language == code@,
            r.0@ == final(self)@.current_language,
            r.1@ == spec_render_settings(final(self)@.settings),
            consistent_with(final(self)@, pairs_view(catalog@)),
    {
        let language = load_language(catalog, code);
        self.current_language = language.duplicate();
        self.settings.language = code.to_owned();
        let text = render_settings(&self.settings);
        (language, text)
    }
}

} // verus!
