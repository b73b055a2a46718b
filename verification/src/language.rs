//! Language packs: metadata, the translation table, the pack document
//! read from disk, and the built-in synthesized pack.

use vstd::prelude::*;

use crate::assoc::assoc_lookup;
use crate::assoc::has_key;
use crate::assoc::pairs_view;
use crate::assoc::spec_lookup;
use crate::json::parse_doc;
use crate::json::parse_doc_str;
use crate::json::prim_members_view;
use crate::json::val_members_view;
use crate::json::JsonPrim;
use crate::json::JsonVal;
use crate::json::SpecPrim;
use crate::json::SpecVal;
use crate::text::str_eq;

verus! {

/// Identity of one installed language pack.
#[derive(Debug)]
pub struct LanguageMetadata {
    /// Language/region code, the unique key of the pack.
    pub id: String,
    /// Semantic version of the pack.
    pub version: String,
    /// Author attribution.
    pub author: String,
}

/// Mathematical value of a pack's metadata.
pub struct LanguageMetadataView {
    /// Language/region code.
    pub id: Seq<char>,
    /// Semantic version.
    pub version: Seq<char>,
    /// Author attribution.
    pub author: Seq<char>,
}

impl View for LanguageMetadata {
    type V = LanguageMetadataView;

    open spec fn view(&self) -> LanguageMetadataView {
        LanguageMetadataView { id: self.id@, version: self.version@, author: self.author@ }
    }
}

/// A full language pack: its metadata and its translation table, keys
/// unique, in file order.
#[derive(Debug)]
pub struct Language {
    /// The pack's identity.
    pub metadata: LanguageMetadata,
    /// Translation key to localized text.
    pub translations: Vec<(String, String)>,
}

/// Mathematical value of a pack.
pub struct LanguageView {
    /// The pack's identity.
    pub metadata: LanguageMetadataView,
    /// Translation entries in file order.
    pub translations: Seq<(Seq<char>, Seq<char>)>,
}

impl View for Language {
    type V = LanguageView;

    open spec fn view(&self) -> LanguageView {
        LanguageView { metadata: self.metadata@, translations: pairs_view(self.translations@) }
    }
}

/// Key of the metadata member of a pack document.
pub open spec fn key_metadata() -> Seq<char> {
    seq!['m', 'e', 't', 'a', 'd', 'a', 't', 'a']
}

/// Key of the code inside the metadata object.
pub open spec fn key_id() -> Seq<char> {
    seq!['i', 'd']
}

/// Key of the version inside the metadata object.
pub open spec fn key_version() -> Seq<char> {
    seq!['v', 'e', 'r', 's', 'i', 'o', 'n']
}

/// Key of the author inside the metadata object.
pub open spec fn key_author() -> Seq<char> {
    seq!['a', 'u', 't', 'h', 'o', 'r']
}

/// Partially read metadata, at specification level.
pub struct MetaAcc {
    /// Code, once seen.
    pub id: Option<Seq<char>>,
    /// Version, once seen.
    pub version: Option<Seq<char>>,
    /// Author, once seen.
    pub author: Option<Seq<char>>,
}

/// Effect of one metadata sub-member: the three known fields must be
/// strings and may appear once; anything else is ignored.
pub open spec fn apply_meta_member(acc: MetaAcc, k: Seq<char>, p: SpecPrim) -> Option<MetaAcc> {
    if k == key_id() {
        match p {
            SpecPrim::Text(s) => if acc.id is Some {
                None
            } else {
                Some(MetaAcc { id: Some(s), ..acc })
            },
            _ => None,
        }
    } else if k == key_version() {
        match p {
            SpecPrim::Text(s) => if acc.version is Some {
                None
            } else {
                Some(MetaAcc { version: Some(s), ..acc })
            },
            _ => None,
        }
    } else if k == key_author() {
        match p {
            SpecPrim::Text(s) => if acc.author is Some {
                None
            } else {
                Some(MetaAcc { author: Some(s), ..acc })
            },
            _ => None,
        }
    } else {
        Some(acc)
    }
}

/// Reading of the metadata sub-members, left to right.
pub open spec fn meta_fold(acc: MetaAcc, ms: Seq<(Seq<char>, SpecPrim)>) -> Option<MetaAcc>
    decreases ms.len(),
{
    if ms.len() == 0 {
        Some(acc)
    } else {
        match apply_meta_member(acc, ms[0].0, ms[0].1) {
            None => None,
            Some(a2) => meta_fold(a2, ms.subrange(1, ms.len() as int)),
        }
    }
}

/// Meaning of a metadata object: all three fields present, each once.
pub open spec fn meta_of_flat(ms: Seq<(Seq<char>, SpecPrim)>) -> Option<LanguageMetadataView> {
    match meta_fold(MetaAcc { id: None, version: None, author: None }, ms) {
        Some(acc) => match (acc.id, acc.version, acc.author) {
            (Some(i), Some(v), Some(a)) => Some(
                LanguageMetadataView { id: i, version: v, author: a },
            ),
            _ => None,
        },
        None => None,
    }
}

/// Partially read pack, at specification level.
pub struct LangAcc {
    /// Metadata, once seen.
    pub meta: Option<LanguageMetadataView>,
    /// Translation entries so far.
    pub tr: Seq<(Seq<char>, Seq<char>)>,
}

/// Effect of one pack member: `metadata` must be an object and appear
/// once; every other member is a translation entry, a string under a key
/// not seen before.
pub open spec fn apply_language_member(acc: LangAcc, k: Seq<char>, v: SpecVal) -> Option<LangAcc> {
    if k == key_metadata() {
        if acc.meta is Some {
            None
        } else {
            match v {
                SpecVal::Obj(sub) => match meta_of_flat(sub) {
                    Some(m) => Some(LangAcc { meta: Some(m), tr: acc.tr }),
                    None => None,
                },
                _ => None,
            }
        }
    } else {
        match v {
            SpecVal::Prim(SpecPrim::Text(s)) => if has_key(acc.tr, k) {
                None
            } else {
                Some(LangAcc { meta: acc.meta, tr: acc.tr.push((k, s)) })
            },
            _ => None,
        }
    }
}

/// Reading of the pack members, left to right.
pub open spec fn language_fold(acc: LangAcc, ms: Seq<(Seq<char>, SpecVal)>) -> Option<LangAcc>
    decreases ms.len(),
{
    if ms.len() == 0 {
        Some(acc)
    } else {
        match apply_language_member(acc, ms[0].0, ms[0].1) {
            None => None,
            Some(a2) => language_fold(a2, ms.subrange(1, ms.len() as int)),
        }
    }
}

/// Meaning of a pack document: a well-formed document whose metadata is
/// present and whose other members are translations with unique keys.
pub open spec fn spec_parse_language(t: Seq<char>) -> Option<LanguageView> {
    match parse_doc(t) {
        Some(ms) => match language_fold(LangAcc { meta: None, tr: Seq::empty() }, ms) {
            Some(acc) => match acc.meta {
                Some(m) => Some(LanguageView { metadata: m, translations: acc.tr }),
                None => None,
            },
            None => None,
        },
        None => None,
    }
}

/// No two translation entries share a key.
pub open spec fn unique_keys(tr: Seq<(Seq<char>, Seq<char>)>) -> bool {
    forall|i: int, j: int| 0 <= i < j < tr.len() ==> (#[trigger] tr[i]).0 != (#[trigger] tr[j]).0
}

/// The fold only ever extends the table with keys it has not seen.
proof fn lemma_fold_keeps_unique(acc: LangAcc, ms: Seq<(Seq<char>, SpecVal)>)
    requires
        unique_keys(acc.tr),
        language_fold(acc, ms) is Some,
    ensures
        unique_keys(language_fold(acc, ms)->Some_0.tr),
    decreases ms.len(),
{
    if ms.len() > 0 {
        let a2 = apply_language_member(acc, ms[0].0, ms[0].1)->Some_0;
        if ms[0].0 == key_metadata() {
            assert(a2.tr == acc.tr);
        } else {
            match ms[0].1 {
                SpecVal::Prim(SpecPrim::Text(s)) => {
                    assert(!has_key(acc.tr, ms[0].0));
                    assert(a2.tr == acc.tr.push((ms[0].0, s)));
                    assert forall|i: int, j: int|
                        0 <= i < j < a2.tr.len() implies a2.tr[i].0 != a2.tr[j].0 by {
                        if j < acc.tr.len() as int {
                            assert(a2.tr[i] == acc.tr[i] && a2.tr[j] == acc.tr[j]);
                        } else {
                            assert(a2.tr[j].0 == ms[0].0);
                            assert(a2.tr[i] == acc.tr[i]);
                            if acc.tr[i].0 == ms[0].0 {
                                assert(has_key(acc.tr, ms[0].0));
                            }
                        }
                    }
                },
                _ => {
                    assert(false);
                },
            }
        }
        lemma_fold_keeps_unique(a2, ms.subrange(1, ms.len() as int));
    }
}

/// The invariant of a pack read from a document: its translation table
/// never repeats a key.
pub proof fn lemma_parse_language_unique_keys(t: Seq<char>)
    requires
        spec_parse_language(t) is Some,
    ensures
        unique_keys(spec_parse_language(t)->Some_0.translations),
{
    let ms = parse_doc(t)->Some_0;
    lemma_fold_keeps_unique(LangAcc { meta: None, tr: Seq::empty() }, ms);
}

/// Partially read metadata, executable form.
struct MetaBuild {
    id: Option<String>,
    version: Option<String>,
    author: Option<String>,
}

impl View for MetaBuild {
    type V = MetaAcc;

    closed spec fn view(&self) -> MetaAcc {
        MetaAcc {
            id: match self.id {
                Some(s) => Some(s@),
                None => None,
            },
            version: match self.version {
                Some(s) => Some(s@),
                None => None,
            },
            author: match self.author {
                Some(s) => Some(s@),
                None => None,
            },
        }
    }
}

/// Effect of one metadata sub-member, executable form.
fn apply_meta_member_x(acc: MetaBuild, key: &String, p: &JsonPrim) -> (r: Option<MetaBuild>)
    ensures
        match r {
            Some(a2) => apply_meta_member(acc@, key@, p@) == Some(a2@),
            None => apply_meta_member(acc@, key@, p@) is None,
        },
{
    proof {
        reveal_strlit("id");
        reveal_strlit("version");
        reveal_strlit("author");
        assert("id"@ =~= key_id());
        assert("version"@ =~= key_version());
        assert("author"@ =~= key_author());
    }
    if str_eq(key.as_str(), "id") {
        match p {
            JsonPrim::Text(s) => {
                if acc.id.is_some() {
                    None
                } else {
                    Some(MetaBuild { id: Some(s.clone()), version: acc.version, author: acc.author })
                }
            },
            _ => None,
        }
    } else if str_eq(key.as_str(), "version") {
        match p {
            JsonPrim::Text(s) => {
                if acc.version.is_some() {
                    None
                } else {
                    Some(MetaBuild { id: acc.id, version: Some(s.clone()), author: acc.author })
                }
            },
            _ => None,
        }
    } else if str_eq(key.as_str(), "author") {
        match p {
            JsonPrim::Text(s) => {
                if acc.author.is_some() {
                    None
                } else {
                    Some(MetaBuild { id: acc.id, version: acc.version, author: Some(s.clone()) })
                }
            },
            _ => None,
        }
    } else {
        Some(acc)
    }
}

/// Read a metadata object, executable form.
fn parse_meta_flat(ms: &Vec<(String, JsonPrim)>) -> (r: Option<LanguageMetadata>)
    ensures
        match r {
            Some(m) => meta_of_flat(prim_members_view(ms@)) == Some(m@),
            None => meta_of_flat(prim_members_view(ms@)) is None,
        },
{
    let ghost msv = prim_members_view(ms@);
    let mut acc = MetaBuild { id: None, version: None, author: None };
    let mut k: usize = 0;
    proof {
        assert(msv.subrange(0, msv.len() as int) =~= msv);
    }
    while k < ms.len()
        invariant
            k <= ms.len(),
            msv == prim_members_view(ms@),
            msv.len() == ms@.len(),
            meta_fold(MetaAcc { id: None, version: None, author: None }, msv) == meta_fold(
                acc@,
                msv.subrange(k as int, msv.len() as int),
            ),
        decreases ms.len() - k,
    {
        let (key, p) = &ms[k];
        let ghost prev = acc@;
        let ghost rem = msv.subrange(k as int, msv.len() as int);
        proof {
            assert(rem[0] == (key@, p@));
            assert(rem.subrange(1, rem.len() as int) =~= msv.subrange(k + 1, msv.len() as int));
        }
        match apply_meta_member_x(acc, key, p) {
            None => {
                proof {
                    assert(meta_fold(prev, rem) is None);
                }
                return None;
            },
            Some(next) => {
                proof {
                    assert(meta_fold(prev, rem) == meta_fold(
                        next@,
                        msv.subrange(k + 1, msv.len() as int),
                    ));
                }
                acc = next;
            },
        }
        k = k + 1;
    }
    proof {
        assert(msv.subrange(k as int, msv.len() as int) =~= Seq::<(Seq<char>, SpecPrim)>::empty());
    }
    match (acc.id, acc.version, acc.author) {
        (Some(i), Some(v), Some(a)) => Some(LanguageMetadata { id: i, version: v, author: a }),
        _ => None,
    }
}

/// Partially read pack, executable form.
struct LangBuild {
    meta: Option<LanguageMetadata>,
    tr: Vec<(String, String)>,
}

impl View for LangBuild {
    type V = LangAcc;

    closed spec fn view(&self) -> LangAcc {
        LangAcc {
            meta: match self.meta {
                Some(m) => Some(m@),
                None => None,
            },
            tr: pairs_view(self.tr@),
        }
    }
}

/// Effect of one pack member, executable form.
fn apply_language_member_x(acc: LangBuild, key: &String, v: &JsonVal) -> (r: Option<LangBuild>)
    ensures
        match r {
            Some(a2) => apply_language_member(acc@, key@, v@) == Some(a2@),
            None => apply_language_member(acc@, key@, v@) is None,
        },
{
    proof {
        reveal_strlit("metadata");
        assert("metadata"@ =~= key_metadata());
    }
    if str_eq(key.as_str(), "metadata") {
        if acc.meta.is_some() {
            None
        } else {
            match v {
                JsonVal::Obj(sub) => match parse_meta_flat(sub) {
                    Some(m) => Some(LangBuild { meta: Some(m), tr: acc.tr }),
                    None => None,
                },
                _ => None,
            }
        }
    } else {
        match v {
            JsonVal::Prim(JsonPrim::Text(s)) => {
                if crate::assoc::assoc_has_key(&acc.tr, key.as_str()) {
                    None
                } else {
                    let ghost prev_tr = pairs_view(acc.tr@);
                    let mut tr = acc.tr;
                    tr.push((key.clone(), s.clone()));
                    proof {
                        assert(pairs_view(tr@) =~= prev_tr.push((key@, s@)));
                    }
                    Some(LangBuild { meta: acc.meta, tr })
                }
            },
            _ => None,
        }
    }
}

/// Read a pack document. `None` when the text is not a well-formed
/// document, the metadata is absent or malformed, or a translation is
/// repeated or not a string.
pub fn parse_language(t: &str) -> (r: Option<Language>)
    ensures
        match r {
            Some(l) => spec_parse_language(t@) == Some(l@),
            None => spec_parse_language(t@) is None,
        },
{
    match parse_doc_str(t) {
        None => None,
        Some(ms) => {
            let ghost msv = val_members_view(ms@);
            let mut acc = LangBuild { meta: None, tr: Vec::new() };
            let mut k: usize = 0;
            proof {
                assert(msv.subrange(0, msv.len() as int) =~= msv);
                assert(pairs_view(acc.tr@) =~= Seq::<(Seq<char>, Seq<char>)>::empty());
            }
            while k < ms.len()
                invariant
                    k <= ms.len(),
                    msv == val_members_view(ms@),
                    msv.len() == ms@.len(),
                    parse_doc(t@) == Some(msv),
                    language_fold(LangAcc { meta: None, tr: Seq::empty() }, msv) == language_fold(
                        acc@,
                        msv.subrange(k as int, msv.len() as int),
                    ),
                decreases ms.len() - k,
            {
                let (key, v) = &ms[k];
                let ghost prev = acc@;
                let ghost rem = msv.subrange(k as int, msv.len() as int);
                proof {
                    assert(rem[0] == (key@, v@));
                    assert(rem.subrange(1, rem.len() as int) =~= msv.subrange(
                        k + 1,
                        msv.len() as int,
                    ));
                }
                match apply_language_member_x(acc, key, v) {
                    None => {
                        proof {
                            assert(language_fold(prev, rem) is None);
                        }
                        return None;
                    },
                    Some(next) => {
                        proof {
                            assert(language_fold(prev, rem) == language_fold(
                                next@,
                                msv.subrange(k + 1, msv.len() as int),
                            ));
                        }
                        acc = next;
                    },
                }
                k = k + 1;
            }
            proof {
                assert(msv.subrange(k as int, msv.len() as int) =~= Seq::<
                    (Seq<char>, SpecVal),
                >::empty());
            }
            match acc.meta {
                Some(m) => Some(Language { metadata: m, translations: acc.tr }),
                None => None,
            }
        },
    }
}

impl Language {
    /// The localized text under a translation key, if any.
    pub fn translation(&self, key: &str) -> (r: Option<String>)
        ensures
            match r {
                Some(v) => spec_lookup(self@.translations, key@) == Some(v@),
                None => spec_lookup(self@.translations, key@) is None,
            },
    {
        assoc_lookup(&self.translations, key)
    }

    /// An equal copy of the pack, entry by entry.
    pub fn duplicate(&self) -> (r: Language)
        ensures
            r@ == self@,
    {
        Language {
            metadata: LanguageMetadata {
                id: self.metadata.id.clone(),
                version: self.metadata.version.clone(),
                author: self.metadata.author.clone(),
            },
            translations: crate::assoc::clone_pairs(&self.translations),
        }
    }
}

} // verus!
