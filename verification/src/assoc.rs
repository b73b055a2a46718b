//! Association lists of text pairs: the translation table of a language
//! pack, and the model of a directory of pack files (name to content).
//! Lookup is first-match; the laws about appending entries live here too.

use vstd::prelude::*;

use crate::text::str_eq;

verus! {

/// View of a list of owned string pairs.
pub open spec fn pairs_view(v: Seq<(String, String)>) -> Seq<(Seq<char>, Seq<char>)> {
    v.map_values(|p: (String, String)| (p.0@, p.1@))
}

/// Whether some entry has the given key.
pub open spec fn has_key(es: Seq<(Seq<char>, Seq<char>)>, k: Seq<char>) -> bool {
    exists|i: int| 0 <= i < es.len() && (#[trigger] es[i]).0 == k
}

/// The value of the first entry with the given key, if any.
pub open spec fn spec_lookup(es: Seq<(Seq<char>, Seq<char>)>, k: Seq<char>) -> Option<Seq<char>>
    decreases es.len(),
{
    if es.len() == 0 {
        None
    } else if es[0].0 == k {
        Some(es[0].1)
    } else {
        spec_lookup(es.subrange(1, es.len() as int), k)
    }
}

/// A found lookup is a present key, and the other way round.
pub proof fn lemma_lookup_some_iff_has_key(es: Seq<(Seq<char>, Seq<char>)>, k: Seq<char>)
    ensures
        spec_lookup(es, k) is Some <==> has_key(es, k),
    decreases es.len(),
{
    if es.len() > 0 && es[0].0 != k {
        let rest = es.subrange(1, es.len() as int);
        lemma_lookup_some_iff_has_key(rest, k);
        if has_key(rest, k) {
            let i = choose|i: int| 0 <= i < rest.len() && (#[trigger] rest[i]).0 == k;
            assert(es[i + 1].0 == k);
        }
        if has_key(es, k) {
            let i = choose|i: int| 0 <= i < es.len() && (#[trigger] es[i]).0 == k;
            assert(rest[i - 1].0 == k);
        }
    }
}

/// Looking up in an extended list: entries already present win, new
/// entries answer only for keys that were absent.
pub proof fn lemma_lookup_append(
    a: Seq<(Seq<char>, Seq<char>)>,
    b: Seq<(Seq<char>, Seq<char>)>,
    k: Seq<char>,
)
    ensures
        spec_lookup(a + b, k) == if has_key(a, k) {
            spec_lookup(a, k)
        } else {
            spec_lookup(b, k)
        },
    decreases a.len(),
{
    lemma_lookup_some_iff_has_key(a, k);
    if a.len() == 0 {
        assert(a + b =~= b);
    } else {
        assert((a + b)[0] == a[0]);
        if a[0].0 == k {
            assert(has_key(a, k));
        } else {
            assert((a + b).subrange(1, (a + b).len() as int) =~= a.subrange(1, a.len() as int) + b);
            lemma_lookup_append(a.subrange(1, a.len() as int), b, k);
            let rest = a.subrange(1, a.len() as int);
            lemma_lookup_some_iff_has_key(rest, k);
            if has_key(rest, k) {
                let i = choose|i: int| 0 <= i < rest.len() && (#[trigger] rest[i]).0 == k;
                assert(a[i + 1].0 == k);
                assert(has_key(a, k));
            }
            if has_key(a, k) {
                let i = choose|i: int| 0 <= i < a.len() && (#[trigger] a[i]).0 == k;
                assert(rest[i - 1].0 == k);
                assert(has_key(rest, k));
            }
        }
    }
}

/// Whether some entry has the given key, executable form.
pub fn assoc_has_key(es: &Vec<(String, String)>, k: &str) -> (r: bool)
    ensures
        r == has_key(pairs_view(es@), k@),
{
    let ghost esv = pairs_view(es@);
    let mut i: usize = 0;
    while i < es.len()
        invariant
            i <= es.len(),
            esv == pairs_view(es@),
            esv.len() == es@.len(),
            forall|j: int| 0 <= j < i ==> (#[trigger] esv[j]).0 != k@,
        decreases es.len() - i,
    {
        if str_eq(es[i].0.as_str(), k) {
            proof {
                assert(esv[i as int].0 == k@);
            }
            return true;
        }
        i = i + 1;
    }
    false
}

/// The value of the first entry with the given key, executable form.
pub fn assoc_lookup(es: &Vec<(String, String)>, k: &str) -> (r: Option<String>)
    ensures
        match r {
            Some(v) => spec_lookup(pairs_view(es@), k@) == Some(v@),
            None => spec_lookup(pairs_view(es@), k@) is None,
        },
{
    let ghost esv = pairs_view(es@);
    let mut i: usize = 0;
    proof {
        assert(esv.subrange(0, esv.len() as int) =~= esv);
    }
    while i < es.len()
        invariant
            i <= es.len(),
            esv == pairs_view(es@),
            esv.len() == es@.len(),
            spec_lookup(esv, k@) == spec_lookup(esv.subrange(i as int, esv.len() as int), k@),
        decreases es.len() - i,
    {
        let ghost rem = esv.subrange(i as int, esv.len() as int);
        proof {
            assert(rem[0] == esv[i as int]);
            assert(rem.subrange(1, rem.len() as int) =~= esv.subrange(
                i + 1,
                esv.len() as int,
            ));
        }
        if str_eq(es[i].0.as_str(), k) {
            return Some(es[i].1.clone());
        }
        i = i + 1;
    }
    proof {
        assert(esv.subrange(i as int, esv.len() as int) =~= Seq::<(Seq<char>, Seq<char>)>::empty());
    }
    None
}

/// A copy of a list of string pairs, entry by entry.
pub fn clone_pairs(es: &Vec<(String, String)>) -> (r: Vec<(String, String)>)
    ensures
        pairs_view(r@) == pairs_view(es@),
        r@.len() == es@.len(),
{
    let mut out: Vec<(String, String)> = Vec::new();
    let mut i: usize = 0;
    while i < es.len()
        invariant
            i <= es.len(),
            out@.len() == i,
            forall|j: int|
                0 <= j < i ==> (#[trigger] out@[j]).0@ == es@[j].0@ && out@[j].1@ == es@[j].1@,
        decreases es.len() - i,
    {
        out.push((es[i].0.clone(), es[i].1.clone()));
        i = i + 1;
    }
    proof {
        assert(pairs_view(out@) =~= pairs_view(es@));
    }
    out
}

} // verus!
