//! Character classes and low-level scanners shared by the document codec.
//!
//! Documents are flat text objects (see `json`). The scanners here walk a
//! `Seq<char>` view of the text; each has an executable mirror on `&str`
//! proved equal to the specification.

use vstd::prelude::*;

verus! {

/// Whitespace accepted between tokens of a document.
pub open spec fn is_ws_char(c: char) -> bool {
    c == ' ' || c == '\n' || c == '\t' || c == '\r'
}

/// Characters of a bare word token (booleans, numbers, null and the like).
pub open spec fn is_word_char(c: char) -> bool {
    ('a' <= c && c <= 'z') || ('A' <= c && c <= 'Z') || ('0' <= c && c <= '9') || c == '_'
        || c == '+' || c == '-' || c == '.'
}

/// Text that may stand verbatim between the quotes of a string token:
/// anything but the quote, the backslash and control characters.
pub open spec fn valid_text_char(c: char) -> bool {
    c != '"' && c != '\\' && c as u32 >= 32
}

/// A piece of text made only of characters that need no escaping.
pub open spec fn wf_text(s: Seq<char>) -> bool {
    forall|i: int| 0 <= i < s.len() ==> valid_text_char(#[trigger] s[i])
}

/// Index of the first non-whitespace character at or after `i`
/// (`t.len()` if none).
pub open spec fn skip_ws(t: Seq<char>, i: int) -> int
    decreases t.len() - i,
{
    if 0 <= i < t.len() && is_ws_char(t[i]) {
        skip_ws(t, i + 1)
    } else {
        i
    }
}

/// Index of the closing quote of a string token whose body starts at `i`,
/// provided the body is made of valid text characters; `None` on a stray
/// character or an unterminated token.
pub open spec fn scan_text(t: Seq<char>, i: int) -> Option<int>
    decreases t.len() - i,
{
    if i < 0 || i >= t.len() {
        None
    } else if t[i] == '"' {
        Some(i)
    } else if valid_text_char(t[i]) {
        scan_text(t, i + 1)
    } else {
        None
    }
}

/// Index just past the word token starting at `i` (equal to `i` when no
/// word character stands there).
pub open spec fn scan_word(t: Seq<char>, i: int) -> int
    decreases t.len() - i,
{
    if 0 <= i < t.len() && is_word_char(t[i]) {
        scan_word(t, i + 1)
    } else {
        i
    }
}

/// `skip_ws` lands exactly on the first non-whitespace position.
pub proof fn lemma_skip_ws_stops(t: Seq<char>, i: int, k: int)
    requires
        0 <= i <= k <= t.len(),
        forall|m: int| i <= m < k ==> is_ws_char(#[trigger] t[m]),
        k == t.len() || !is_ws_char(t[k]),
    ensures
        skip_ws(t, i) == k,
    decreases k - i,
{
    if i < k {
        lemma_skip_ws_stops(t, i + 1, k);
    }
}

/// `scan_text` finds the closing quote of a well-formed body.
pub proof fn lemma_scan_text_finds(t: Seq<char>, i: int, k: int)
    requires
        0 <= i <= k < t.len(),
        forall|m: int| i <= m < k ==> valid_text_char(#[trigger] t[m]),
        t[k] == '"',
    ensures
        scan_text(t, i) == Some(k),
    decreases k - i,
{
    if i < k {
        lemma_scan_text_finds(t, i + 1, k);
    }
}

/// `scan_word` consumes exactly the word characters before `k`.
pub proof fn lemma_scan_word_stops(t: Seq<char>, i: int, k: int)
    requires
        0 <= i <= k <= t.len(),
        forall|m: int| i <= m < k ==> is_word_char(#[trigger] t[m]),
        k == t.len() || !is_word_char(t[k]),
    ensures
        scan_word(t, i) == k,
    decreases k - i,
{
    if i < k {
        lemma_scan_word_stops(t, i + 1, k);
    }
}

/// Bounds of `skip_ws`: it never moves backwards nor past the end.
pub proof fn lemma_skip_ws_bounds(t: Seq<char>, i: int)
    requires
        0 <= i <= t.len(),
    ensures
        i <= skip_ws(t, i) <= t.len(),
    decreases t.len() - i,
{
    if 0 <= i < t.len() && is_ws_char(t[i]) {
        lemma_skip_ws_bounds(t, i + 1);
    }
}

/// What `scan_text` accepted is valid text: the body before the found
/// quote has no character that would need escaping.
pub proof fn lemma_scan_text_valid(t: Seq<char>, i: int, j: int)
    requires
        0 <= i,
        scan_text(t, i) == Some(j),
    ensures
        i <= j < t.len(),
        forall|m: int| i <= m < j ==> valid_text_char(#[trigger] t[m]),
    decreases t.len() - i,
{
    if i < t.len() && t[i] != '"' && valid_text_char(t[i]) {
        lemma_scan_text_valid(t, i + 1, j);
    }
}

/// String slice equality, decided at the level of character sequences.
pub fn str_eq(a: &str, b: &str) -> (r: bool)
    ensures
        r == (a@ == b@),
{
    let x = a.to_owned();
    let y = b.to_owned();
    x == y
}

/// Executable mirror of `skip_ws`.
pub fn skip_ws_str(t: &str, n: usize, i: usize) -> (r: usize)
    requires
        n as nat == t@.len(),
        i <= n,
    ensures
        r as int == skip_ws(t@, i as int),
        i <= r <= n,
    decreases n - i,
{
    if i == n {
        return i;
    }
    let c = t.get_char(i);
    if c == ' ' || c == '\n' || c == '\t' || c == '\r' {
        skip_ws_str(t, n, i + 1)
    } else {
        i
    }
}

/// Executable mirror of `scan_text`.
pub fn scan_text_str(t: &str, n: usize, i: usize) -> (r: Option<usize>)
    requires
        n as nat == t@.len(),
        i <= n,
    ensures
        match r {
            Some(j) => scan_text(t@, i as int) == Some(j as int) && i <= j < n,
            None => scan_text(t@, i as int) is None,
        },
    decreases n - i,
{
    if i == n {
        return None;
    }
    let c = t.get_char(i);
    if c == '"' {
        Some(i)
    } else if c != '\\' && c as u32 >= 32 {
        scan_text_str(t, n, i + 1)
    } else {
        None
    }
}

/// Executable mirror of `scan_word`.
pub fn scan_word_str(t: &str, n: usize, i: usize) -> (r: usize)
    requires
        n as nat == t@.len(),
        i <= n,
    ensures
        r as int == scan_word(t@, i as int),
        i <= r <= n,
    decreases n - i,
{
    if i == n {
        return i;
    }
    let c = t.get_char(i);
    if ('a' <= c && c <= 'z') || ('A' <= c && c <= 'Z') || ('0' <= c && c <= '9') || c == '_'
        || c == '+' || c == '-' || c == '.' {
        scan_word_str(t, n, i + 1)
    } else {
        i
    }
}

} // verus!
