//! The language catalog: the built-in synthesized pack, loading by code
//! with the bounded fallback chain, enumeration of installed packs, and
//! installation of bundled packs into the user catalog.
//!
//! A directory of pack files is modelled as a list of pairs, language
//! code to file content, in enumeration order.

use vstd::prelude::*;

use crate::assoc::assoc_lookup;
use crate::assoc::has_key;
use crate::assoc::lemma_lookup_append;
use crate::assoc::lemma_lookup_some_iff_has_key;
use crate::assoc::pairs_view;
use crate::assoc::spec_lookup;
use crate::language::spec_parse_language;
use crate::language::parse_language;
use crate::language::Language;
use crate::language::LanguageMetadata;
use crate::language::LanguageMetadataView;
use crate::language::LanguageView;
use crate::settings::code_en_us;
use crate::text::str_eq;

verus! {

/// Metadata of the built-in synthesized pack.
pub open spec fn builtin_metadata() -> LanguageMetadataView {
    LanguageMetadataView { id: code_en_us(), version: "1.0.0"@, author: "brew team"@ }
}

/// The fixed minimal translation table of the built-in pack: enough to
/// render the core interface chrome.
pub open spec fn builtin_translations() -> Seq<(Seq<char>, Seq<char>)> {
    seq![
        ("app.title"@, "brew"@),
        ("app.status.no_instances"@, "No instances running"@),
        ("settings.title"@, "Settings"@),
        ("settings.tab.appearance"@, "Appearance"@),
        ("settings.tab.privacy"@, "Privacy"@),
        ("settings.appearance.color_theme"@, "Color theme"@),
        (
            "settings.appearance.color_theme.description"@,
            "Select your preferred color theme for Modrinth App."@,
        ),
        ("settings.appearance.theme.dark"@, "Dark"@),
        ("settings.appearance.theme.light"@, "Light"@),
        ("settings.appearance.theme.oled"@, "OLED"@),
        ("settings.appearance.theme.sync"@, "Sync"@),
        ("settings.privacy.discord_rpc"@, "Discord RPC"@),
        (
            "settings.privacy.discord_rpc.description"@,
            "Manages the Discord Rich Presence integration. Disabling this will cause 'Modrinth' to no longer show up as a game or app you are using on your Discord profile."@,
        ),
        (
            "settings.privacy.discord_rpc.note"@,
            "Note: This will not prevent any instance-specific Discord Rich Presence integrations, such as those added by mods. (app restart required to take effect)"@,
        ),
        ("settings.appearance.titlebar_style"@, "Titlebar Style"@),
        (
            "settings.appearance.titlebar_style.description"@,
            "Choose how the application window titlebar should look."@,
        ),
        ("settings.appearance.titlebar.custom"@, "Custom"@),
        ("settings.appearance.titlebar.native"@, "Native"@),
        ("settings.appearance.titlebar.macos"@, "macOS"@),
        (
            "settings.appearance.titlebar.note"@,
            "Note: Changing the titlebar style requires restarting the application."@,
        ),
        (
            "settings.appearance.titlebar.restart_required"@,
            "The application needs to be restarted to apply the titlebar style change."@,
        ),
    ]
}

/// The built-in synthesized pack, the last line of defense against a
/// blank interface.
pub open spec fn spec_builtin_language() -> LanguageView {
    LanguageView { metadata: builtin_metadata(), translations: builtin_translations() }
}

/// The synthesized pack always carries exactly the built-in code.
pub proof fn lemma_builtin_id()
    ensures
        spec_builtin_language().metadata.id == code_en_us(),
{
}

/// Build the built-in pack in memory.
pub fn create_default_language() -> (r: Language)
    ensures
        r@ == spec_builtin_language(),
        r@.metadata.id == code_en_us(),
{
    proof {
        reveal_strlit("en_US");
        assert("en_US"@ =~= code_en_us());
    }
    let mut tr: Vec<(String, String)> = Vec::new();
    tr.push(("app.title".to_owned(), "brew".to_owned()));
    tr.push(("app.status.no_instances".to_owned(), "No instances running".to_owned()));
    tr.push(("settings.title".to_owned(), "Settings".to_owned()));
    tr.push(("settings.tab.appearance".to_owned(), "Appearance".to_owned()));
    tr.push(("settings.tab.privacy".to_owned(), "Privacy".to_owned()));
    tr.push(("settings.appearance.color_theme".to_owned(), "Color theme".to_owned()));
    tr.push(
        (
            "settings.appearance.color_theme.description".to_owned(),
            "Select your preferred color theme for Modrinth App.".to_owned(),
        ),
    );
    tr.push(("settings.appearance.theme.dark".to_owned(), "Dark".to_owned()));
    tr.push(("settings.appearance.theme.light".to_owned(), "Light".to_owned()));
    tr.push(("settings.appearance.theme.oled".to_owned(), "OLED".to_owned()));
    tr.push(("settings.appearance.theme.sync".to_owned(), "Sync".to_owned()));
    tr.push(("settings.privacy.discord_rpc".to_owned(), "Discord RPC".to_owned()));
    tr.push(
        (
            "settings.privacy.discord_rpc.description".to_owned(),
            "Manages the Discord Rich Presence integration. Disabling this will cause 'Modrinth' to no longer show up as a game or app you are using on your Discord profile.".to_owned(),
        ),
    );
    tr.push(
        (
            "settings.privacy.discord_rpc.note".to_owned(),
            "Note: This will not prevent any instance-specific Discord Rich Presence integrations, such as those added by mods. (app restart required to take effect)".to_owned(),
        ),
    );
    tr.push(("settings.appearance.titlebar_style".to_owned(), "Titlebar Style".to_owned()));
    tr.push(
        (
            "settings.appearance.titlebar_style.description".to_owned(),
            "Choose how the application window titlebar should look.".to_owned(),
        ),
    );
    tr.push(("settings.appearance.titlebar.custom".to_owned(), "Custom".to_owned()));
    tr.push(("settings.appearance.titlebar.native".to_owned(), "Native".to_owned()));
    tr.push(("settings.appearance.titlebar.macos".to_owned(), "macOS".to_owned()));
    tr.push(
        (
            "settings.appearance.titlebar.note".to_owned(),
            "Note: Changing the titlebar style requires restarting the application.".to_owned(),
        ),
    );
    tr.push(
        (
            "settings.appearance.titlebar.restart_required".to_owned(),
            "The application needs to be restarted to apply the titlebar style change.".to_owned(),
        ),
    );
    proof {
        assert(pairs_view(tr@) =~= builtin_translations());
    }
    Language {
        metadata: LanguageMetadata {
            id: "en_US".to_owned(),
            version: "1.0.0".to_owned(),
            author: "brew team".to_owned(),
        },
        translations: tr,
    }
}

/// Meaning of loading a pack by code, with the fallback chain bounded to
/// one hop: the requested file if it parses; the built-in pack if it is
/// present but corrupt; otherwise the same steps once for the built-in
/// code; the built-in pack when nothing else resolves.
pub open spec fn spec_load_language(cat: Seq<(Seq<char>, Seq<char>)>, code: Seq<char>)
    -> LanguageView {
    match spec_lookup(cat, code) {
        Some(text) => match spec_parse_language(text) {
            Some(l) => l,
            None => spec_builtin_language(),
        },
        None => if code == code_en_us() {
            spec_builtin_language()
        } else {
            match spec_lookup(cat, code_en_us()) {
                Some(text) => match spec_parse_language(text) {
                    Some(l) => l,
                    None => spec_builtin_language(),
                },
                None => spec_builtin_language(),
            }
        },
    }
}

/// A code absent from the catalog resolves exactly as the built-in code
/// does: the fallback is one hop and never fails.
pub proof fn lemma_load_language_fallback(cat: Seq<(Seq<char>, Seq<char>)>, code: Seq<char>)
    requires
        !has_key(cat, code),
        code != code_en_us(),
    ensures
        spec_load_language(cat, code) == spec_load_language(cat, code_en_us()),
{
    lemma_lookup_some_iff_has_key(cat, code);
}

/// Load a pack by code from the catalog contents; total, by fallback.
pub fn load_language(catalog: &Vec<(String, String)>, code: &str) -> (r: Language)
    ensures
        r@ == spec_load_language(pairs_view(catalog@), code@),
{
    proof {
        reveal_strlit("en_US");
        assert("en_US"@ =~= code_en_us());
    }
    match assoc_lookup(catalog, code) {
        Some(text) => match parse_language(text.as_str()) {
            Some(l) => l,
            None => create_default_language(),
        },
        None => {
            if str_eq(code, "en_US") {
                create_default_language()
            } else {
                match assoc_lookup(catalog, "en_US") {
                    Some(text) => match parse_language(text.as_str()) {
                        Some(l) => l,
                        None => create_default_language(),
                    },
                    None => create_default_language(),
                }
            }
        },
    }
}

/// View of a list of metadata records.
pub open spec fn metas_view(v: Seq<LanguageMetadata>) -> Seq<LanguageMetadataView> {
    v.map_values(|m: LanguageMetadata| m@)
}

/// Metadata of the packs in a directory that parse, in enumeration
/// order; files that fail to parse are skipped.
pub open spec fn metas_of(files: Seq<(Seq<char>, Seq<char>)>) -> Seq<LanguageMetadataView>
    decreases files.len(),
{
    if files.len() == 0 {
        Seq::empty()
    } else {
        let rest = metas_of(files.subrange(1, files.len() as int));
        match spec_parse_language(files[0].1) {
            Some(l) => seq![l.metadata] + rest,
            None => rest,
        }
    }
}

/// Meaning of listing: the user catalog's valid packs; if none, the
/// bundled directory's; if still none, the built-in pack alone.
pub open spec fn spec_list_available(
    cat: Seq<(Seq<char>, Seq<char>)>,
    bun: Seq<(Seq<char>, Seq<char>)>,
) -> Seq<LanguageMetadataView> {
    let own = metas_of(cat);
    if own.len() > 0 {
        own
    } else {
        let b = metas_of(bun);
        if b.len() > 0 {
            b
        } else {
            seq![builtin_metadata()]
        }
    }
}

/// Metadata of the packs in one directory that parse.
fn collect_metas(files: &Vec<(String, String)>) -> (r: Vec<LanguageMetadata>)
    ensures
        metas_view(r@) == metas_of(pairs_view(files@)),
{
    let ghost fsv = pairs_view(files@);
    let mut out: Vec<LanguageMetadata> = Vec::new();
    let mut i: usize = 0;
    proof {
        assert(fsv.subrange(0, fsv.len() as int) =~= fsv);
        assert(metas_view(out@) =~= Seq::<LanguageMetadataView>::empty());
    }
    while i < files.len()
        invariant
            i <= files.len(),
            fsv == pairs_view(files@),
            fsv.len() == files@.len(),
            metas_of(fsv) == metas_view(out@) + metas_of(fsv.subrange(i as int, fsv.len() as int)),
        decreases files.len() - i,
    {
        let ghost rem = fsv.subrange(i as int, fsv.len() as int);
        proof {
            assert(rem[0] == fsv[i as int]);
            assert(rem.subrange(1, rem.len() as int) =~= fsv.subrange(i + 1, fsv.len() as int));
        }
        let ghost before = metas_view(out@);
        match parse_language(files[i].1.as_str()) {
            Some(l) => {
                let ghost lm = l.metadata@;
                out.push(l.metadata);
                proof {
                    assert(metas_view(out@) =~= before + seq![lm]);
                    assert(before + (seq![lm] + metas_of(rem.subrange(1, rem.len() as int))) =~= (
                    before + seq![lm]) + metas_of(rem.subrange(1, rem.len() as int)));
                }
            },
            None => {
            },
        }
        i = i + 1;
    }
    proof {
        assert(fsv.subrange(i as int, fsv.len() as int) =~= Seq::<(Seq<char>, Seq<char>)>::empty());
        assert(metas_view(out@) + Seq::<LanguageMetadataView>::empty() =~= metas_view(out@));
    }
    out
}

/// List the available packs: the user catalog first, the bundled
/// directory when the catalog has no valid pack, the built-in entry when
/// both are empty. Order follows directory enumeration.
pub fn get_available_languages(
    catalog: &Vec<(String, String)>,
    bundled: &Vec<(String, String)>,
) -> (r: Vec<LanguageMetadata>)
    ensures
        metas_view(r@) == spec_list_available(pairs_view(catalog@), pairs_view(bundled@)),
{
    let own = collect_metas(catalog);
    if own.len() > 0 {
        own
    } else {
        let b = collect_metas(bundled);
        if b.len() > 0 {
            b
        } else {
            proof {
                reveal_strlit("en_US");
                assert("en_US"@ =~= code_en_us());
            }
            let mut r: Vec<LanguageMetadata> = Vec::new();
            r.push(
                LanguageMetadata {
                    id: "en_US".to_owned(),
                    version: "1.0.0".to_owned(),
                    author: "brew team".to_owned(),
                },
            );
            proof {
                assert(metas_view(r@) =~= seq![builtin_metadata()]);
            }
            r
        }
    }
}

/// The bundled entries absent from the catalog, content kept byte for
/// byte, in bundled enumeration order: exactly what installation copies.
pub open spec fn spec_missing_packs(
    cat: Seq<(Seq<char>, Seq<char>)>,
    bun: Seq<(Seq<char>, Seq<char>)>,
) -> Seq<(Seq<char>, Seq<char>)>
    decreases bun.len(),
{
    if bun.len() == 0 {
        Seq::empty()
    } else {
        let rest = spec_missing_packs(cat, bun.subrange(1, bun.len() as int));
        if has_key(cat, bun[0].0) {
            rest
        } else {
            seq![bun[0]] + rest
        }
    }
}

/// The catalog contents after installation: what was there, and then the
/// missing bundled packs.
pub open spec fn spec_install_packs(
    cat: Seq<(Seq<char>, Seq<char>)>,
    bun: Seq<(Seq<char>, Seq<char>)>,
) -> Seq<(Seq<char>, Seq<char>)> {
    cat + spec_missing_packs(cat, bun)
}

/// Compute the bundled packs to copy: those whose code has no file in
/// the catalog yet. The caller writes exactly these.
pub fn ensure_language_files_exist(
    catalog: &Vec<(String, String)>,
    bundled: &Vec<(String, String)>,
) -> (r: Vec<(String, String)>)
    ensures
        pairs_view(r@) == spec_missing_packs(pairs_view(catalog@), pairs_view(bundled@)),
{
    let ghost catv = pairs_view(catalog@);
    let ghost bunv = pairs_view(bundled@);
    let mut out: Vec<(String, String)> = Vec::new();
    let mut i: usize = 0;
    proof {
        assert(bunv.subrange(0, bunv.len() as int) =~= bunv);
        assert(pairs_view(out@) =~= Seq::<(Seq<char>, Seq<char>)>::empty());
    }
    while i < bundled.len()
        invariant
            i <= bundled.len(),
            catv == pairs_view(catalog@),
            bunv == pairs_view(bundled@),
            bunv.len() == bundled@.len(),
            spec_missing_packs(catv, bunv) == pairs_view(out@) + spec_missing_packs(
                catv,
                bunv.subrange(i as int, bunv.len() as int),
            ),
        decreases bundled.len() - i,
    {
        let ghost rem = bunv.subrange(i as int, bunv.len() as int);
        proof {
            assert(rem[0] == bunv[i as int]);
            assert(rem.subrange(1, rem.len() as int) =~= bunv.subrange(i + 1, bunv.len() as int));
        }
        let ghost before = pairs_view(out@);
        if !crate::assoc::assoc_has_key(catalog, bundled[i].0.as_str()) {
            out.push((bundled[i].0.clone(), bundled[i].1.clone()));
            proof {
                assert(pairs_view(out@) =~= before + seq![bunv[i as int]]);
                assert(before + (seq![bunv[i as int]] + spec_missing_packs(
                    catv,
                    rem.subrange(1, rem.len() as int),
                )) =~= (before + seq![bunv[i as int]]) + spec_missing_packs(
                    catv,
                    rem.subrange(1, rem.len() as int),
                ));
            }
        }
        i = i + 1;
    }
    proof {
        assert(bunv.subrange(i as int, bunv.len() as int) =~= Seq::<
            (Seq<char>, Seq<char>),
        >::empty());
        assert(pairs_view(out@) + Seq::<(Seq<char>, Seq<char>)>::empty() =~= pairs_view(out@));
    }
    out
}

/// A key present on either side is present in the concatenation, and the
/// other way round.
proof fn lemma_has_key_append(
    a: Seq<(Seq<char>, Seq<char>)>,
    b: Seq<(Seq<char>, Seq<char>)>,
    k: Seq<char>,
)
    ensures
        has_key(a + b, k) <==> (has_key(a, k) || has_key(b, k)),
{
    if has_key(a, k) {
        let i = choose|i: int| 0 <= i < a.len() && (#[trigger] a[i]).0 == k;
        assert((a + b)[i].0 == k);
    }
    if has_key(b, k) {
        let i = choose|i: int| 0 <= i < b.len() && (#[trigger] b[i]).0 == k;
        assert((a + b)[a.len() + i].0 == k);
    }
    if has_key(a + b, k) {
        let i = choose|i: int| 0 <= i < (a + b).len() && (#[trigger] (a + b)[i]).0 == k;
        if i < a.len() {
            assert(a[i].0 == k);
        } else {
            assert(b[i - a.len()].0 == k);
        }
    }
}

/// Every bundled code is present after installation.
proof fn lemma_install_covers(cat: Seq<(Seq<char>, Seq<char>)>, bun: Seq<(Seq<char>, Seq<char>)>)
    ensures
        forall|j: int|
            0 <= j < bun.len() ==> has_key(
                cat + spec_missing_packs(cat, bun),
                (#[trigger] bun[j]).0,
            ),
    decreases bun.len(),
{
    if bun.len() > 0 {
        let rest = bun.subrange(1, bun.len() as int);
        let rest_m = spec_missing_packs(cat, rest);
        lemma_install_covers(cat, rest);
        let m = spec_missing_packs(cat, bun);
        assert forall|j: int|
            0 <= j < bun.len() implies has_key(cat + m, (#[trigger] bun[j]).0) by {
            if j == 0 {
                if has_key(cat, bun[0].0) {
                    lemma_has_key_append(cat, m, bun[0].0);
                } else {
                    assert(m[0] == bun[0]);
                    assert(has_key(m, bun[0].0));
                    lemma_has_key_append(cat, m, bun[0].0);
                }
            } else {
                assert(rest[j - 1] == bun[j]);
                assert(has_key(cat + rest_m, rest[j - 1].0));
                lemma_has_key_append(cat, rest_m, rest[j - 1].0);
                if has_key(cat, bun[j].0) {
                    lemma_has_key_append(cat, m, bun[j].0);
                } else {
                    assert(has_key(rest_m, bun[j].0));
                    let i = choose|i: int|
                        0 <= i < rest_m.len() && (#[trigger] rest_m[i]).0 == bun[j].0;
                    if has_key(cat, bun[0].0) {
                        assert(m[i].0 == bun[j].0);
                    } else {
                        assert(m == seq![bun[0]] + rest_m);
                        assert(m[i + 1].0 == bun[j].0);
                    }
                    assert(has_key(m, bun[j].0));
                    lemma_has_key_append(cat, m, bun[j].0);
                }
            }
        }
    }
}

/// Nothing is missing from a catalog that already has every bundled
/// code.
proof fn lemma_missing_empty_when_covered(
    cat: Seq<(Seq<char>, Seq<char>)>,
    bun: Seq<(Seq<char>, Seq<char>)>,
)
    requires
        forall|j: int| 0 <= j < bun.len() ==> has_key(cat, (#[trigger] bun[j]).0),
    ensures
        spec_missing_packs(cat, bun) == Seq::<(Seq<char>, Seq<char>)>::empty(),
    decreases bun.len(),
{
    if bun.len() > 0 {
        let rest = bun.subrange(1, bun.len() as int);
        assert(forall|j: int| 0 <= j < rest.len() ==> (#[trigger] rest[j]) == bun[j + 1]);
        lemma_missing_empty_when_covered(cat, rest);
        assert(has_key(cat, bun[0].0));
    }
}

/// Installing the bundled packs twice changes nothing the second time:
/// the copy step is idempotent, and a pack already present is never
/// overwritten (its lookup is unchanged, see
/// `lemma_install_keeps_existing`).
pub proof fn lemma_install_idempotent(
    cat: Seq<(Seq<char>, Seq<char>)>,
    bun: Seq<(Seq<char>, Seq<char>)>,
)
    ensures
        spec_missing_packs(spec_install_packs(cat, bun), bun) == Seq::<
            (Seq<char>, Seq<char>),
        >::empty(),
        spec_install_packs(spec_install_packs(cat, bun), bun) == spec_install_packs(cat, bun),
{
    lemma_install_covers(cat, bun);
    lemma_missing_empty_when_covered(spec_install_packs(cat, bun), bun);
    assert(spec_install_packs(cat, bun) + Seq::<(Seq<char>, Seq<char>)>::empty()
        =~= spec_install_packs(cat, bun));
}

/// A pack already present in the catalog keeps its exact content across
/// installation: the user's file wins over the bundled one.
pub proof fn lemma_install_keeps_existing(
    cat: Seq<(Seq<char>, Seq<char>)>,
    bun: Seq<(Seq<char>, Seq<char>)>,
    k: Seq<char>,
)
    requires
        has_key(cat, k),
    ensures
        spec_lookup(spec_install_packs(cat, bun), k) == spec_lookup(cat, k),
{
    lemma_lookup_append(cat, spec_missing_packs(cat, bun), k);
}

} // verus!
