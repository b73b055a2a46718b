//! The document codec for settings files and language pack files.
//!
//! Both kinds of file are flat text objects: `{ "key": value, ... }`,
//! where a value is a quoted string, a bare word (`true`, `false`,
//! numbers, `null`), or — one level deep only — a nested object of such
//! members. String bodies hold their characters verbatim: the quote, the
//! backslash and control characters are not representable, so no escape
//! sequences exist in the format.
//!
//! The grammar is defined once as specification functions over
//! `Seq<char>`; the executable parser mirrors them and is proved to
//! return exactly what they describe.

use vstd::prelude::*;

use crate::text::is_ws_char;
use crate::text::is_word_char;
use crate::text::lemma_scan_text_finds;
use crate::text::lemma_scan_word_stops;
use crate::text::lemma_skip_ws_bounds;
use crate::text::lemma_skip_ws_stops;
use crate::text::scan_text;
use crate::text::scan_text_str;
use crate::text::scan_word;
use crate::text::scan_word_str;
use crate::text::skip_ws;
use crate::text::skip_ws_str;
use crate::text::valid_text_char;
use crate::text::wf_text;

verus! {

/// Specification-level primitive value of a member.
pub enum SpecPrim {
    /// A quoted string.
    Text(Seq<char>),
    /// The word `true` or `false`.
    Flag(bool),
    /// Any other bare word (a number, `null`, ...), kept only so that
    /// unknown members can be carried and ignored.
    Other,
}

/// Specification-level value of a member: a primitive, or a one-level
/// nested object of primitives.
pub enum SpecVal {
    /// A primitive value.
    Prim(SpecPrim),
    /// A nested object, as the sequence of its members in file order.
    Obj(Seq<(Seq<char>, SpecPrim)>),
}

/// Executable primitive value.
pub enum JsonPrim {
    /// A quoted string.
    Text(String),
    /// The word `true` or `false`.
    Flag(bool),
    /// Any other bare word.
    Other,
}

/// Executable member value.
pub enum JsonVal {
    /// A primitive value.
    Prim(JsonPrim),
    /// A nested object of primitives.
    Obj(Vec<(String, JsonPrim)>),
}

impl View for JsonPrim {
    type V = SpecPrim;

    open spec fn view(&self) -> SpecPrim {
        match self {
            JsonPrim::Text(s) => SpecPrim::Text(s@),
            JsonPrim::Flag(b) => SpecPrim::Flag(*b),
            JsonPrim::Other => SpecPrim::Other,
        }
    }
}

/// View of a primitive member list.
pub open spec fn prim_members_view(ms: Seq<(String, JsonPrim)>) -> Seq<(Seq<char>, SpecPrim)> {
    ms.map_values(|p: (String, JsonPrim)| (p.0@, p.1@))
}

impl View for JsonVal {
    type V = SpecVal;

    open spec fn view(&self) -> SpecVal {
        match self {
            JsonVal::Prim(p) => SpecVal::Prim(p@),
            JsonVal::Obj(ms) => SpecVal::Obj(prim_members_view(ms@)),
        }
    }
}

/// View of a document member list.
pub open spec fn val_members_view(ms: Seq<(String, JsonVal)>) -> Seq<(Seq<char>, SpecVal)> {
    ms.map_values(|p: (String, JsonVal)| (p.0@, p.1@))
}

/// The word `true`.
pub open spec fn word_true() -> Seq<char> {
    seq!['t', 'r', 'u', 'e']
}

/// The word `false`.
pub open spec fn word_false() -> Seq<char> {
    seq!['f', 'a', 'l', 's', 'e']
}

/// Meaning of a bare word token.
pub open spec fn prim_of_word(w: Seq<char>) -> SpecPrim {
    if w == word_true() {
        SpecPrim::Flag(true)
    } else if w == word_false() {
        SpecPrim::Flag(false)
    } else {
        SpecPrim::Other
    }
}

/// Parse a primitive value starting exactly at `i`; on success, the value
/// and the index just past it.
pub open spec fn parse_prim(t: Seq<char>, i: int) -> Option<(SpecPrim, int)> {
    if i < 0 || i >= t.len() {
        None
    } else if t[i] == '"' {
        match scan_text(t, i + 1) {
            Some(j) => Some((SpecPrim::Text(t.subrange(i + 1, j)), j + 1)),
            None => None,
        }
    } else {
        let j = scan_word(t, i);
        if j == i {
            None
        } else {
            Some((prim_of_word(t.subrange(i, j)), j))
        }
    }
}

/// Parse a member's key and the colon after it, starting exactly at the
/// opening quote; on success, the key and the index of the value.
pub open spec fn parse_key(t: Seq<char>, i: int) -> Option<(Seq<char>, int)> {
    if i < 0 || i >= t.len() || t[i] != '"' {
        None
    } else {
        match scan_text(t, i + 1) {
            None => None,
            Some(j) => {
                let k = skip_ws(t, j + 1);
                if k < t.len() && t[k] == ':' {
                    Some((t.subrange(i + 1, j), skip_ws(t, k + 1)))
                } else {
                    None
                }
            },
        }
    }
}

/// Parse the members of a nested object, starting after its `{`; on
/// success, the members in file order and the index just past the `}`.
pub open spec fn parse_flat_members(t: Seq<char>, i: int) -> Option<
    (Seq<(Seq<char>, SpecPrim)>, int),
>
    decreases t.len() - i,
{
    let k = skip_ws(t, i);
    if k >= t.len() {
        None
    } else if t[k] == '}' {
        Some((Seq::empty(), k + 1))
    } else {
        match parse_key(t, k) {
            None => None,
            Some((key, v0)) => match parse_prim(t, v0) {
                None => None,
                Some((p, j)) => {
                    let j1 = skip_ws(t, j);
                    // `i < j1 + 1` always holds on a parseable text; the
                    // guard makes the descent on the position evident.
                    if j1 < t.len() && t[j1] == ',' && i < j1 + 1 {
                        match parse_flat_members(t, j1 + 1) {
                            None => None,
                            Some((rest, e)) => Some((seq![(key, p)] + rest, e)),
                        }
                    } else if j1 < t.len() && t[j1] == '}' {
                        Some((seq![(key, p)], j1 + 1))
                    } else {
                        None
                    }
                },
            },
        }
    }
}

/// Parse a member value: a nested object or a primitive.
pub open spec fn parse_value(t: Seq<char>, i: int) -> Option<(SpecVal, int)> {
    if 0 <= i < t.len() && t[i] == '{' {
        match parse_flat_members(t, i + 1) {
            Some((ms, e)) => Some((SpecVal::Obj(ms), e)),
            None => None,
        }
    } else {
        match parse_prim(t, i) {
            Some((p, e)) => Some((SpecVal::Prim(p), e)),
            None => None,
        }
    }
}

/// Parse the members of the top-level object, starting after its `{`.
pub open spec fn parse_top_members(t: Seq<char>, i: int) -> Option<(Seq<(Seq<char>, SpecVal)>, int)>
    decreases t.len() - i,
{
    let k = skip_ws(t, i);
    if k >= t.len() {
        None
    } else if t[k] == '}' {
        Some((Seq::empty(), k + 1))
    } else {
        match parse_key(t, k) {
            None => None,
            Some((key, v0)) => match parse_value(t, v0) {
                None => None,
                Some((v, j)) => {
                    let j1 = skip_ws(t, j);
                    // As in `parse_flat_members`, the last conjunct makes
                    // the descent on the position evident.
                    if j1 < t.len() && t[j1] == ',' && i < j1 + 1 {
                        match parse_top_members(t, j1 + 1) {
                            None => None,
                            Some((rest, e)) => Some((seq![(key, v)] + rest, e)),
                        }
                    } else if j1 < t.len() && t[j1] == '}' {
                        Some((seq![(key, v)], j1 + 1))
                    } else {
                        None
                    }
                },
            },
        }
    }
}

/// Parse a whole document: one top-level object with nothing but
/// whitespace around it. The members are returned in file order, with
/// duplicate keys kept as they stand.
pub open spec fn parse_doc(t: Seq<char>) -> Option<Seq<(Seq<char>, SpecVal)>> {
    let i = skip_ws(t, 0);
    if i < t.len() && t[i] == '{' {
        match parse_top_members(t, i + 1) {
            Some((ms, e)) => if skip_ws(t, e) == t.len() {
                Some(ms)
            } else {
                None
            },
            None => None,
        }
    } else {
        None
    }
}

/// A primitive that the renderer can write back: a string of valid text
/// characters, or a boolean. (`Other` words are only ever read.)
pub open spec fn wf_prim(p: SpecPrim) -> bool {
    match p {
        SpecPrim::Text(s) => wf_text(s),
        SpecPrim::Flag(_) => true,
        SpecPrim::Other => false,
    }
}

/// A member list that the renderer can write back.
pub open spec fn wf_members(ms: Seq<(Seq<char>, SpecPrim)>) -> bool {
    forall|i: int|
        0 <= i < ms.len() ==> wf_text((#[trigger] ms[i]).0) && wf_prim(ms[i].1)
}

/// Rendered form of a primitive value.
pub open spec fn render_prim(p: SpecPrim) -> Seq<char> {
    match p {
        SpecPrim::Text(s) => seq!['"'] + s + seq!['"'],
        SpecPrim::Flag(b) => if b {
            word_true()
        } else {
            word_false()
        },
        SpecPrim::Other => seq!['n', 'u', 'l', 'l'],
    }
}

/// Rendered form of a member's key with its colon and one space.
pub open spec fn render_key(k: Seq<char>) -> Seq<char> {
    seq!['"'] + k + seq!['"', ':', ' ']
}

/// Rendered form of one member.
pub open spec fn render_member(k: Seq<char>, p: SpecPrim) -> Seq<char> {
    render_key(k) + render_prim(p)
}

/// Rendered members: each on its own line, indented two spaces, with a
/// comma between consecutive members.
pub open spec fn render_inner(ms: Seq<(Seq<char>, SpecPrim)>) -> Seq<char>
    decreases ms.len(),
{
    if ms.len() == 0 {
        Seq::empty()
    } else {
        seq!['\n', ' ', ' '] + render_member(ms[0].0, ms[0].1) + (if ms.len() > 1 {
            seq![','] + render_inner(ms.subrange(1, ms.len() as int))
        } else {
            Seq::empty()
        })
    }
}

/// Rendered form of a whole flat document.
pub open spec fn render_doc(ms: Seq<(Seq<char>, SpecPrim)>) -> Seq<char> {
    if ms.len() == 0 {
        seq!['{', '}']
    } else {
        seq!['{'] + render_inner(ms) + seq!['\n', '}']
    }
}

/// Members with primitive values, seen as document members.
pub open spec fn lift_prim_members(ms: Seq<(Seq<char>, SpecPrim)>) -> Seq<(Seq<char>, SpecVal)> {
    ms.map_values(|m: (Seq<char>, SpecPrim)| (m.0, SpecVal::Prim(m.1)))
}

/// Transfer of one character through a subrange equation.
proof fn lemma_char_at(t: Seq<char>, i: int, e: int, x: Seq<char>, m: int)
    requires
        0 <= i <= e <= t.len(),
        t.subrange(i, e) == x,
        0 <= m < e - i,
    ensures
        t[i + m] == x[m],
{
    assert(t.subrange(i, e)[m] == t[i + m]);
}

/// A rendered primitive parses back to itself, provided no word character
/// follows it directly.
proof fn lemma_parse_prim_at_render(t: Seq<char>, i: int, p: SpecPrim)
    requires
        wf_prim(p),
        0 <= i,
        i + render_prim(p).len() <= t.len(),
        t.subrange(i, i + render_prim(p).len()) == render_prim(p),
        i + render_prim(p).len() == t.len() || !is_word_char(t[i + render_prim(p).len()]),
    ensures
        parse_prim(t, i) == Some((p, i + render_prim(p).len())),
{
    let rp = render_prim(p);
    let rl = rp.len() as int;
    let e = i + rl;
    match p {
        SpecPrim::Text(s) => {
            let sl = s.len() as int;
            assert(rp[0] == '"' && rp[sl + 1] == '"');
            lemma_char_at(t, i, e, rp, 0);
            assert(t[i] == '"');
            lemma_char_at(t, i, e, rp, sl + 1);
            assert(t[i + 1 + sl] == '"');
            assert forall|m: int| i + 1 <= m < i + 1 + sl implies valid_text_char(t[m]) by {
                lemma_char_at(t, i, e, rp, m - i);
                assert(rp[m - i] == s[m - i - 1]);
            }
            lemma_scan_text_finds(t, i + 1, i + 1 + sl);
            assert(t.subrange(i + 1, i + 1 + sl) =~= s) by {
                assert forall|m: int|
                    0 <= m < sl implies t.subrange(i + 1, i + 1 + sl)[m] == s[m] by {
                    lemma_char_at(t, i, e, rp, m + 1);
                    assert(rp[m + 1] == s[m]);
                }
            }
        },
        SpecPrim::Flag(b) => {
            let w = if b {
                word_true()
            } else {
                word_false()
            };
            let wl = w.len() as int;
            assert(rp == w);
            if b {
                assert(is_word_char(w[0]) && is_word_char(w[1]) && is_word_char(w[2])
                    && is_word_char(w[3]));
            } else {
                assert(is_word_char(w[0]) && is_word_char(w[1]) && is_word_char(w[2])
                    && is_word_char(w[3]) && is_word_char(w[4]));
            }
            assert forall|m: int| i <= m < i + wl implies is_word_char(t[m]) by {
                lemma_char_at(t, i, e, rp, m - i);
                assert(t[m] == w[m - i]);
            }
            lemma_scan_word_stops(t, i, i + wl);
            lemma_char_at(t, i, e, rp, 0);
            assert(t[i] != '"');
            assert(t.subrange(i, i + wl) =~= w) by {
                assert forall|m: int| 0 <= m < wl implies t.subrange(i, i + wl)[m] == w[m] by {
                    lemma_char_at(t, i, e, rp, m);
                }
            }
            if b {
                assert(prim_of_word(w) == SpecPrim::Flag(true));
            } else {
                assert(word_true().len() == 4 && word_false().len() == 5);
                assert(w != word_true());
                assert(prim_of_word(w) == SpecPrim::Flag(false));
            }
        },
        SpecPrim::Other => {
            assert(false);
        },
    }
}

/// A rendered key parses back to itself, provided the value after it
/// starts with a non-whitespace character.
proof fn lemma_parse_key_at_render(t: Seq<char>, i: int, k: Seq<char>)
    requires
        wf_text(k),
        0 <= i,
        i + render_key(k).len() < t.len(),
        t.subrange(i, i + render_key(k).len()) == render_key(k),
        !is_ws_char(t[i + render_key(k).len()]),
    ensures
        parse_key(t, i) == Some((k, i + render_key(k).len())),
{
    let kl = k.len() as int;
    let rk = render_key(k);
    let rl = kl + 4;
    assert(rk.len() == rl);
    let e = i + rl;
    assert(rk[0] == '"' && rk[kl + 1] == '"' && rk[kl + 2] == ':' && rk[kl + 3] == ' ');
    lemma_char_at(t, i, e, rk, 0);
    lemma_char_at(t, i, e, rk, kl + 1);
    lemma_char_at(t, i, e, rk, kl + 2);
    lemma_char_at(t, i, e, rk, kl + 3);
    assert(t[i] == '"' && t[i + 1 + kl] == '"' && t[i + 2 + kl] == ':' && t[i + 3 + kl] == ' ');
    assert forall|m: int| i + 1 <= m < i + 1 + kl implies valid_text_char(t[m]) by {
        lemma_char_at(t, i, e, rk, m - i);
        assert(rk[m - i] == k[m - i - 1]);
    }
    lemma_scan_text_finds(t, i + 1, i + 1 + kl);
    lemma_skip_ws_stops(t, i + 2 + kl, i + 2 + kl);
    lemma_skip_ws_stops(t, i + 3 + kl, i + 4 + kl);
    assert(t.subrange(i + 1, i + 1 + kl) =~= k) by {
        assert forall|m: int| 0 <= m < kl implies t.subrange(i + 1, i + 1 + kl)[m] == k[m] by {
            lemma_char_at(t, i, e, rk, m + 1);
            assert(rk[m + 1] == k[m]);
        }
    }
}

/// Rendered members followed by the closing line parse back to
/// themselves.
proof fn lemma_parse_flat_members_at_render(t: Seq<char>, i: int, ms: Seq<(Seq<char>, SpecPrim)>)
    requires
        wf_members(ms),
        ms.len() >= 1,
        0 <= i,
        i + render_inner(ms).len() + 2 <= t.len(),
        t.subrange(i, i + render_inner(ms).len() + 2) == render_inner(ms) + seq!['\n', '}'],
    ensures
        parse_flat_members(t, i) == Some((ms, i + render_inner(ms).len() + 2)),
    decreases ms.len(),
{
    let e = i + render_inner(ms).len() + 2;
    let x = render_inner(ms) + seq!['\n', '}'];
    let k0 = ms[0].0;
    let p0 = ms[0].1;
    let m0 = render_member(k0, p0);
    let m0l = m0.len() as int;
    let k0l = k0.len() as int;
    assert(wf_text(k0) && wf_prim(p0));
    let tail = if ms.len() > 1 {
        seq![','] + render_inner(ms.subrange(1, ms.len() as int))
    } else {
        Seq::<char>::empty()
    };
    assert(render_inner(ms) == seq!['\n', ' ', ' '] + m0 + tail);
    assert(x =~= seq!['\n', ' ', ' '] + m0 + tail + seq!['\n', '}']);
    assert(x.len() == 3 + m0l + tail.len() + 2);
    // The line starts with the indentation, then the member's key.
    assert(x[0] == '\n' && x[1] == ' ' && x[2] == ' ');
    lemma_char_at(t, i, e, x, 0);
    lemma_char_at(t, i, e, x, 1);
    lemma_char_at(t, i, e, x, 2);
    assert(t[i] == '\n' && t[i + 1] == ' ' && t[i + 2] == ' ');
    assert(m0[0] == render_key(k0)[0] && render_key(k0)[0] == '"');
    assert(x[3] == m0[0]);
    lemma_char_at(t, i, e, x, 3);
    assert(t[i + 3] == '"');
    lemma_skip_ws_stops(t, i, i + 3);
    // The key with its colon stands verbatim in `t`.
    assert(forall|m: int| 0 <= m < m0l ==> #[trigger] x[3 + m] == m0[m]);
    assert(t.subrange(i + 3, i + 3 + k0l + 4) =~= render_key(k0)) by {
        assert forall|m: int|
            0 <= m < k0l + 4 implies t.subrange(i + 3, i + 3 + k0l + 4)[m] == render_key(k0)[m] by {
            lemma_char_at(t, i, e, x, 3 + m);
            assert(x[3 + m] == m0[m]);
            assert(m0[m] == render_key(k0)[m]);
        }
    }
    let v0 = i + 3 + k0l + 4;
    let rp = render_prim(p0);
    let rpl = rp.len() as int;
    assert(m0l == k0l + 4 + rpl);
    match p0 {
        SpecPrim::Text(s) => {
            assert(rp[0] == '"');
        },
        SpecPrim::Flag(b) => {
            if b {
                assert(rp[0] == 't');
            } else {
                assert(rp[0] == 'f');
            }
        },
        SpecPrim::Other => {
            assert(false);
        },
    }
    assert(m0[k0l + 4] == rp[0]);
    assert(x[3 + k0l + 4] == m0[k0l + 4]);
    lemma_char_at(t, i, e, x, 3 + k0l + 4);
    assert(t[v0] == rp[0]);
    assert(!is_ws_char(t[v0]));
    lemma_parse_key_at_render(t, i + 3, k0);
    assert(parse_key(t, i + 3) == Some((k0, v0)));
    let j = v0 + rpl;
    assert(j == i + 3 + m0l);
    assert(t.subrange(v0, j) =~= rp) by {
        assert forall|m: int| 0 <= m < rpl implies t.subrange(v0, j)[m] == rp[m] by {
            lemma_char_at(t, i, e, x, 3 + k0l + 4 + m);
            assert(x[3 + k0l + 4 + m] == m0[k0l + 4 + m]);
            assert(m0[k0l + 4 + m] == rp[m]);
        }
    }
    if ms.len() == 1 {
        assert(tail.len() == 0);
        assert(e == j + 2);
        assert(x[3 + m0l] == '\n' && x[3 + m0l + 1] == '}');
        lemma_char_at(t, i, e, x, 3 + m0l);
        lemma_char_at(t, i, e, x, 3 + m0l + 1);
        assert(t[j] == '\n' && t[j + 1] == '}');
        assert(!is_word_char('\n'));
        lemma_parse_prim_at_render(t, v0, p0);
        lemma_skip_ws_stops(t, j, j + 1);
        assert(parse_flat_members(t, i) == Some((seq![(k0, p0)], e)));
        assert(seq![(k0, p0)] =~= ms);
    } else {
        let rest = ms.subrange(1, ms.len() as int);
        assert(x[3 + m0l] == tail[0] && tail[0] == ',');
        lemma_char_at(t, i, e, x, 3 + m0l);
        assert(t[j] == ',');
        assert(!is_word_char(','));
        lemma_parse_prim_at_render(t, v0, p0);
        lemma_skip_ws_stops(t, j, j);
        assert(wf_members(rest)) by {
            assert(forall|m: int| 0 <= m < rest.len() ==> #[trigger] rest[m] == ms[m + 1]);
        }
        let ri = render_inner(rest);
        assert(render_inner(ms).len() == 4 + m0l + ri.len());
        assert(j + 1 + ri.len() + 2 == e);
        let rx = ri + seq!['\n', '}'];
        assert(t.subrange(j + 1, e) =~= rx) by {
            assert forall|m: int| 0 <= m < ri.len() + 2 implies t.subrange(j + 1, e)[m] == rx[m] by {
                lemma_char_at(t, i, e, x, (j + 1 - i) + m);
                assert(x[(j + 1 - i) + m] == rx[m]) by {
                    if m < ri.len() {
                        assert(tail[1 + m] == ri[m]);
                        assert(x[3 + m0l + 1 + m] == tail[1 + m]);
                    } else {
                        assert(x[3 + m0l + 1 + m] == (seq!['\n', '}'])[m - ri.len()]);
                    }
                }
            }
        }
        lemma_parse_flat_members_at_render(t, j + 1, rest);
        assert(parse_flat_members(t, j + 1) == Some((rest, e)));
        assert(i < j + 1);
        assert(parse_flat_members(t, i) == Some((seq![(k0, p0)] + rest, e)));
        assert(seq![(k0, p0)] + rest =~= ms);
    }
}

/// Wherever the members of a nested object parse, the same text parses as
/// top-level members, each value wrapped as a primitive.
proof fn lemma_top_members_from_flat(t: Seq<char>, i: int)
    requires
        0 <= i,
        parse_flat_members(t, i) is Some,
    ensures
        parse_top_members(t, i) == Some(
            (
                lift_prim_members(parse_flat_members(t, i)->Some_0.0),
                parse_flat_members(t, i)->Some_0.1,
            ),
        ),
    decreases t.len() - i,
{
    lemma_skip_ws_bounds(t, i);
    let k = skip_ws(t, i);
    if t[k] == '}' {
        assert(lift_prim_members(Seq::empty()) =~= Seq::<(Seq<char>, SpecVal)>::empty());
    } else {
        let (key, v0) = parse_key(t, k)->Some_0;
        let (p, j) = parse_prim(t, v0)->Some_0;
        assert(t[v0] != '{') by {
            if 0 <= v0 < t.len() && t[v0] == '{' {
                assert(scan_word(t, v0) == v0);
            }
        }
        assert(parse_value(t, v0) == Some((SpecVal::Prim(p), j)));
        let j1 = skip_ws(t, j);
        if j1 < t.len() && t[j1] == ',' && i < j1 + 1 {
            let (rest, e) = parse_flat_members(t, j1 + 1)->Some_0;
            lemma_top_members_from_flat(t, j1 + 1);
            assert(seq![(key, SpecVal::Prim(p))] + lift_prim_members(rest) =~= lift_prim_members(
                seq![(key, p)] + rest,
            ));
        } else {
            assert(seq![(key, SpecVal::Prim(p))] =~= lift_prim_members(seq![(key, p)]));
        }
    }
}

/// Round trip at document level: a rendered member list parses back to
/// exactly the members that were rendered.
pub proof fn lemma_parse_doc_of_render(ms: Seq<(Seq<char>, SpecPrim)>)
    requires
        wf_members(ms),
        ms.len() >= 1,
    ensures
        parse_doc(render_doc(ms)) == Some(lift_prim_members(ms)),
{
    let t = render_doc(ms);
    let inner = render_inner(ms);
    assert(t == seq!['{'] + inner + seq!['\n', '}']);
    assert(t[0] == '{');
    lemma_skip_ws_stops(t, 0, 0);
    assert(t.subrange(1, t.len() as int) =~= inner + seq!['\n', '}']) by {
        assert(forall|m: int|
            0 <= m < t.len() - 1 ==> t.subrange(1, t.len() as int)[m] == #[trigger] t[m + 1]);
    }
    lemma_parse_flat_members_at_render(t, 1, ms);
    assert(parse_flat_members(t, 1) == Some((ms, t.len() as int)));
    lemma_top_members_from_flat(t, 1);
    assert(skip_ws(t, t.len() as int) == t.len());
}

/// A member value whose string form, if it has one, is valid text.
pub open spec fn wf_val_text(v: SpecVal) -> bool {
    match v {
        SpecVal::Prim(SpecPrim::Text(s)) => wf_text(s),
        _ => true,
    }
}

/// A parsed primitive string is valid text: the scanner accepted each
/// of its characters.
proof fn lemma_parse_prim_wf(t: Seq<char>, i: int)
    requires
        0 <= i,
        parse_prim(t, i) is Some,
    ensures
        wf_val_text(SpecVal::Prim(parse_prim(t, i)->Some_0.0)),
{
    if i < t.len() && t[i] == '"' {
        let j = scan_text(t, i + 1)->Some_0;
        crate::text::lemma_scan_text_valid(t, i + 1, j);
        let s = t.subrange(i + 1, j);
        assert(forall|m: int| 0 <= m < s.len() ==> #[trigger] s[m] == t[i + 1 + m]);
    }
}

/// Every string value in a parsed document is valid text, so whatever a
/// reader takes from it can be written back.
pub proof fn lemma_parse_top_members_wf(t: Seq<char>, i: int)
    requires
        0 <= i,
        parse_top_members(t, i) is Some,
    ensures
        forall|k: int|
            0 <= k < parse_top_members(t, i)->Some_0.0.len() ==> wf_val_text(
                (#[trigger] parse_top_members(t, i)->Some_0.0[k]).1,
            ),
    decreases t.len() - i,
{
    lemma_skip_ws_bounds(t, i);
    let k0 = skip_ws(t, i);
    let ms = parse_top_members(t, i)->Some_0.0;
    if t[k0] == '}' {
    } else {
        let (key, v0) = parse_key(t, k0)->Some_0;
        let (v, j) = parse_value(t, v0)->Some_0;
        assert(wf_val_text(v)) by {
            if !(0 <= v0 < t.len() && t[v0] == '{') {
                lemma_parse_prim_wf(t, v0);
            }
        }
        let j1 = skip_ws(t, j);
        if j1 < t.len() && t[j1] == ',' && i < j1 + 1 {
            let rest = parse_top_members(t, j1 + 1)->Some_0.0;
            lemma_parse_top_members_wf(t, j1 + 1);
            assert(ms == seq![(key, v)] + rest);
            assert(forall|k: int| 1 <= k < ms.len() ==> #[trigger] ms[k] == rest[k - 1]);
        } else {
            assert(ms == seq![(key, v)]);
        }
    }
}

/// Executable mirror of `parse_prim`.
pub fn parse_prim_str(t: &str, n: usize, i: usize) -> (r: Option<(JsonPrim, usize)>)
    requires
        n as nat == t@.len(),
        i <= n,
    ensures
        match r {
            Some((p, j)) => parse_prim(t@, i as int) == Some((p@, j as int)) && i < j <= n,
            None => parse_prim(t@, i as int) is None,
        },
{
    if i == n {
        return None;
    }
    let c = t.get_char(i);
    if c == '"' {
        match scan_text_str(t, n, i + 1) {
            Some(j) => {
                let body = t.substring_char(i + 1, j);
                Some((JsonPrim::Text(body.to_owned()), j + 1))
            },
            None => None,
        }
    } else {
        let j = scan_word_str(t, n, i);
        if j == i {
            None
        } else {
            let is_true = j - i == 4 && t.get_char(i) == 't' && t.get_char(i + 1) == 'r'
                && t.get_char(i + 2) == 'u' && t.get_char(i + 3) == 'e';
            let is_false = j - i == 5 && t.get_char(i) == 'f' && t.get_char(i + 1) == 'a'
                && t.get_char(i + 2) == 'l' && t.get_char(i + 3) == 's' && t.get_char(i + 4)
                == 'e';
            let p = if is_true {
                JsonPrim::Flag(true)
            } else if is_false {
                JsonPrim::Flag(false)
            } else {
                JsonPrim::Other
            };
            proof {
                let w = t@.subrange(i as int, j as int);
                if is_true {
                    assert(w =~= word_true());
                } else if w == word_true() {
                    assert(w.len() == 4);
                    assert(w[0] == 't' && w[1] == 'r' && w[2] == 'u' && w[3] == 'e');
                    assert(t@[i as int] == w[0]);
                    assert(t@[i as int + 1] == w[1]);
                    assert(t@[i as int + 2] == w[2]);
                    assert(t@[i as int + 3] == w[3]);
                    assert(false);
                }
                if is_false {
                    assert(w =~= word_false());
                } else if w == word_false() {
                    assert(w.len() == 5);
                    assert(w[0] == 'f' && w[1] == 'a' && w[2] == 'l' && w[3] == 's' && w[4] == 'e');
                    assert(t@[i as int] == w[0]);
                    assert(t@[i as int + 1] == w[1]);
                    assert(t@[i as int + 2] == w[2]);
                    assert(t@[i as int + 3] == w[3]);
                    assert(t@[i as int + 4] == w[4]);
                    assert(false);
                }
            }
            Some((p, j))
        }
    }
}

/// Executable mirror of `parse_key`.
pub fn parse_key_str(t: &str, n: usize, i: usize) -> (r: Option<(String, usize)>)
    requires
        n as nat == t@.len(),
        i <= n,
    ensures
        match r {
            Some((key, v0)) => parse_key(t@, i as int) == Some((key@, v0 as int)) && i < v0 <= n,
            None => parse_key(t@, i as int) is None,
        },
{
    if i == n {
        return None;
    }
    if t.get_char(i) != '"' {
        return None;
    }
    match scan_text_str(t, n, i + 1) {
        None => None,
        Some(j) => {
            let k = skip_ws_str(t, n, j + 1);
            if k < n && t.get_char(k) == ':' {
                let key = t.substring_char(i + 1, j);
                Some((key.to_owned(), skip_ws_str(t, n, k + 1)))
            } else {
                None
            }
        },
    }
}

/// Executable mirror of `parse_flat_members`.
pub fn parse_flat_members_str(t: &str, n: usize, i: usize) -> (r: Option<
    (Vec<(String, JsonPrim)>, usize),
>)
    requires
        n as nat == t@.len(),
        i <= n,
    ensures
        match r {
            Some((ms, e)) => parse_flat_members(t@, i as int) == Some(
                (prim_members_view(ms@), e as int),
            ) && i < e <= n,
            None => parse_flat_members(t@, i as int) is None,
        },
    decreases n - i,
{
    let k = skip_ws_str(t, n, i);
    if k == n {
        return None;
    }
    if t.get_char(k) == '}' {
        let ms: Vec<(String, JsonPrim)> = Vec::new();
        proof {
            assert(prim_members_view(ms@) =~= Seq::<(Seq<char>, SpecPrim)>::empty());
        }
        return Some((ms, k + 1));
    }
    match parse_key_str(t, n, k) {
        None => None,
        Some((key, v0)) => match parse_prim_str(t, n, v0) {
            None => None,
            Some((p, j)) => {
                let j1 = skip_ws_str(t, n, j);
                if j1 < n && t.get_char(j1) == ',' {
                    match parse_flat_members_str(t, n, j1 + 1) {
                        None => None,
                        Some((rest, e)) => {
                            let ghost rest_view = prim_members_view(rest@);
                            let mut ms = rest;
                            ms.insert(0, (key, p));
                            proof {
                                assert(prim_members_view(ms@) =~= seq![(key@, p@)] + rest_view);
                            }
                            Some((ms, e))
                        },
                    }
                } else if j1 < n && t.get_char(j1) == '}' {
                    let mut ms: Vec<(String, JsonPrim)> = Vec::new();
                    ms.push((key, p));
                    proof {
                        assert(prim_members_view(ms@) =~= seq![(key@, p@)]);
                    }
                    Some((ms, j1 + 1))
                } else {
                    None
                }
            },
        },
    }
}

/// Executable mirror of `parse_value`.
pub fn parse_value_str(t: &str, n: usize, i: usize) -> (r: Option<(JsonVal, usize)>)
    requires
        n as nat == t@.len(),
        i <= n,
    ensures
        match r {
            Some((v, j)) => parse_value(t@, i as int) == Some((v@, j as int)) && i < j <= n,
            None => parse_value(t@, i as int) is None,
        },
{
    if i < n && t.get_char(i) == '{' {
        match parse_flat_members_str(t, n, i + 1) {
            Some((ms, e)) => Some((JsonVal::Obj(ms), e)),
            None => None,
        }
    } else {
        match parse_prim_str(t, n, i) {
            Some((p, j)) => Some((JsonVal::Prim(p), j)),
            None => None,
        }
    }
}

/// Executable mirror of `parse_top_members`.
pub fn parse_top_members_str(t: &str, n: usize, i: usize) -> (r: Option<
    (Vec<(String, JsonVal)>, usize),
>)
    requires
        n as nat == t@.len(),
        i <= n,
    ensures
        match r {
            Some((ms, e)) => parse_top_members(t@, i as int) == Some(
                (val_members_view(ms@), e as int),
            ) && i < e <= n,
            None => parse_top_members(t@, i as int) is None,
        },
    decreases n - i,
{
    let k = skip_ws_str(t, n, i);
    if k == n {
        return None;
    }
    if t.get_char(k) == '}' {
        let ms: Vec<(String, JsonVal)> = Vec::new();
        proof {
            assert(val_members_view(ms@) =~= Seq::<(Seq<char>, SpecVal)>::empty());
        }
        return Some((ms, k + 1));
    }
    match parse_key_str(t, n, k) {
        None => None,
        Some((key, v0)) => match parse_value_str(t, n, v0) {
            None => None,
            Some((v, j)) => {
                let j1 = skip_ws_str(t, n, j);
                if j1 < n && t.get_char(j1) == ',' {
                    match parse_top_members_str(t, n, j1 + 1) {
                        None => None,
                        Some((rest, e)) => {
                            let ghost rest_view = val_members_view(rest@);
                            let mut ms = rest;
                            ms.insert(0, (key, v));
                            proof {
                                assert(val_members_view(ms@) =~= seq![(key@, v@)] + rest_view);
                            }
                            Some((ms, e))
                        },
                    }
                } else if j1 < n && t.get_char(j1) == '}' {
                    let mut ms: Vec<(String, JsonVal)> = Vec::new();
                    ms.push((key, v));
                    proof {
                        assert(val_members_view(ms@) =~= seq![(key@, v@)]);
                    }
                    Some((ms, j1 + 1))
                } else {
                    None
                }
            },
        },
    }
}

/// Executable mirror of `parse_doc`.
pub fn parse_doc_str(t: &str) -> (r: Option<Vec<(String, JsonVal)>>)
    ensures
        match r {
            Some(ms) => parse_doc(t@) == Some(val_members_view(ms@)),
            None => parse_doc(t@) is None,
        },
{
    let n = t.unicode_len();
    let i = skip_ws_str(t, n, 0);
    if i < n && t.get_char(i) == '{' {
        match parse_top_members_str(t, n, i + 1) {
            Some((ms, e)) => {
                if skip_ws_str(t, n, e) == n {
                    Some(ms)
                } else {
                    None
                }
            },
            None => None,
        }
    } else {
        None
    }
}

} // verus!
