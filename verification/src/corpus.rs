//! Cutting a line of a word list into words: punctuation, dashes and spaces
//! separate words unless the alphabet itself uses that scalar as a letter.

use vstd::prelude::*;
use crate::alphabet::Alphabet;
use crate::text::{chars_of, string_from_chars};
use crate::conf::{trimmed, trim_chars, slice_of};
use crate::catalog::views;
use crate::lexorder::strictly_sorted;
use crate::token_set::{has_str, lex_order, locate, token_order};
use crate::catalog::dedup_first;
use crate::tokenizer::{regularize_name, regularized, rule_views, token_views, Lexicon};
use crate::lexorder::{char_seq_lt, lemma_lt_irreflexive};

verus! {

broadcast use vstd::string::group_string_axioms;

/// The scalars that separate words in a word list.
pub open spec fn is_word_sep(c: char) -> bool {
    c == '!' || c == '?' || c == ',' || c == '.' || c == '_' || c == '/' || c == ';' || c == '+'
        || c == '|' || c == ':' || c == '\\' || c == ' ' || c == '-' || c == '–' || c == '—'
        || c == '‒' || c == '⸺' || c == '⸻'
}

fn word_sep(c: char) -> (r: bool)
    ensures
        r == is_word_sep(c),
{
    c == '!' || c == '?' || c == ',' || c == '.' || c == '_' || c == '/' || c == ';' || c == '+'
        || c == '|' || c == ':' || c == '\\' || c == ' ' || c == '-' || c == '–' || c == '—'
        || c == '‒' || c == '⸺' || c == '⸻'
}

/// A separator that is not a letter of the alphabet.
pub open spec fn cuts(syms: Seq<char>, c: char) -> bool {
    is_word_sep(c) && !syms.contains(c)
}

/// Index of the first cutting scalar of `s`, if any.
pub open spec fn first_cut(syms: Seq<char>, s: Seq<char>, from: int) -> Option<int>
    decreases s.len() - from,
{
    if from < 0 || from >= s.len() {
        None
    } else if cuts(syms, s[from]) {
        Some(from)
    } else {
        first_cut(syms, s, from + 1)
    }
}

/// The pieces of `s` between cutting scalars, in order (empty ones included).
pub open spec fn pieces(syms: Seq<char>, s: Seq<char>) -> Seq<Seq<char>>
    decreases s.len(),
{
    match first_cut(syms, s, 0) {
        Some(i) => if 0 <= i < s.len() {
            seq![s.take(i)] + pieces(syms, s.skip(i + 1))
        } else {
            seq![s]
        },
        None => seq![s],
    }
}

/// The words of a line: the non-empty pieces of the trimmed line.
pub open spec fn line_words(syms: Seq<char>, line: Seq<char>) -> Seq<Seq<char>> {
    pieces(syms, trimmed(line)).filter(|p: Seq<char>| p.len() > 0)
}

proof fn lemma_first_cut_props(syms: Seq<char>, s: Seq<char>, from: int)
    requires
        0 <= from,
    ensures
        first_cut(syms, s, from) matches Some(i) ==> from <= i < s.len() && cuts(syms, s[i]),
    decreases s.len() - from,
{
    if from < s.len() && !cuts(syms, s[from]) {
        lemma_first_cut_props(syms, s, from + 1);
    }
}

fn symbol_in(alpha: &Alphabet, c: char) -> (r: bool)
    ensures
        r == alpha@.contains(c),
{
    let n = crate::alphabet::n_letters(alpha);
    let mut i: usize = 0;
    while i < n
        invariant
            n == alpha@.len(),
            i <= alpha@.len(),
            forall|j: int| 0 <= j < i ==> alpha@[j] != c,
        decreases n - i,
    {
        if crate::alphabet::index_char(alpha, i) == c {
            assert(alpha@[i as int] == c);
            return true;
        }
        i += 1;
    }
    false
}

fn find_cut(alpha: &Alphabet, s: &Vec<char>) -> (r: Option<usize>)
    ensures
        r == (match first_cut(alpha@, s@, 0) {
            Some(i) => Some(i as usize),
            None => None::<usize>,
        }),
{
    let mut i: usize = 0;
    while i < s.len()
        invariant
            i <= s.len(),
            first_cut(alpha@, s@, 0) == first_cut(alpha@, s@, i as int),
        decreases s.len() - i,
    {
        if word_sep(s[i]) && !symbol_in(alpha, s[i]) {
            return Some(i);
        }
        i += 1;
    }
    None
}

proof fn lemma_words_split(syms: Seq<char>, rest: Seq<char>, i: int)
    requires
        0 <= i < rest.len(),
        first_cut(syms, rest, 0) == Some(i),
    ensures
        pieces(syms, rest).filter(|p: Seq<char>| p.len() > 0)
            == (if rest.take(i).len() > 0 { seq![rest.take(i)] } else { Seq::empty() })
                + pieces(syms, rest.skip(i + 1)).filter(|p: Seq<char>| p.len() > 0),
{
    let pred = |p: Seq<char>| p.len() > 0;
    let tail = pieces(syms, rest.skip(i + 1));
    assert(pieces(syms, rest) == seq![rest.take(i)] + tail);
    tail.lemma_filter_prepend(rest.take(i), pred);
}

proof fn lemma_words_last(syms: Seq<char>, rest: Seq<char>)
    requires
        first_cut(syms, rest, 0) is None,
    ensures
        pieces(syms, rest).filter(|p: Seq<char>| p.len() > 0)
            == (if rest.len() > 0 { seq![rest] } else { Seq::empty() }),
{
    let pred = |p: Seq<char>| p.len() > 0;
    let e = Seq::<Seq<char>>::empty();
    assert(pieces(syms, rest) =~= seq![rest] + e);
    e.lemma_filter_prepend(rest, pred);
    e.lemma_filter_len(pred);
    assert(e.filter(pred) =~= e);
}

/// The words of one line of a word list, in order.
pub fn split_line(alpha: &Alphabet, line: &str) -> (r: Vec<String>)
    ensures
        r@.map_values(|w: String| w@) == line_words(alpha@, line@),
{
    let ghost syms = alpha@;
    let ghost pred = |p: Seq<char>| p.len() > 0;
    let mut rest = trim_chars(&chars_of(line));
    let mut out: Vec<String> = Vec::new();
    assert(out@.map_values(|w: String| w@) + pieces(syms, rest@).filter(pred) =~= line_words(syms, line@));
    loop
        invariant
            syms == alpha@,
            pred == (|p: Seq<char>| p.len() > 0),
            out@.map_values(|w: String| w@) + pieces(syms, rest@).filter(pred) == line_words(syms, line@),
        decreases rest.len(),
    {
        let ghost o0 = out@.map_values(|w: String| w@);
        proof {
            lemma_first_cut_props(syms, rest@, 0);
        }
        match find_cut(alpha, &rest) {
            Some(i) => {
                let head = slice_of(&rest, 0, i);
                let tail = slice_of(&rest, i + 1, rest.len());
                proof {
                    assert(head@ =~= rest@.take(i as int));
                    assert(tail@ =~= rest@.skip(i + 1));
                    lemma_words_split(syms, rest@, i as int);
                }
                if head.len() > 0 {
                    out.push(string_from_chars(&head));
                }
                assert(out@.map_values(|w: String| w@) =~= o0 + (if head@.len() > 0 { seq![head@] } else { Seq::empty() }));
                rest = tail;
            },
            None => {
                proof {
                    lemma_words_last(syms, rest@);
                }
                if rest.len() > 0 {
                    out.push(string_from_chars(&rest));
                }
                assert(out@.map_values(|w: String| w@) =~= o0 + (if rest@.len() > 0 { seq![rest@] } else { Seq::empty() }));
                return out;
            },
        }
    }
}

/* ------------------------------ word lists ------------------------------ */

/// The non-empty words, in order.
pub open spec fn nonempty_words(ws: Seq<Seq<char>>) -> Seq<Seq<char>>
    decreases ws.len(),
{
    if ws.len() == 0 {
        ws
    } else if ws.last().len() == 0 {
        nonempty_words(ws.drop_last())
    } else {
        nonempty_words(ws.drop_last()).push(ws.last())
    }
}

/// The non-empty words, each once, in increasing order.
pub fn canonical_words(words: &Vec<String>) -> (r: Vec<String>)
    ensures
        views(r@) == lex_order(nonempty_words(views(words@))),
{
    let ghost ws = views(words@);
    let mut kept: Vec<String> = Vec::new();
    let mut i: usize = 0;
    while i < words.len()
        invariant
            ws == views(words@),
            i <= words.len(),
            views(kept@) == nonempty_words(ws.take(i as int)),
        decreases words.len() - i,
    {
        assert(ws.take(i + 1).drop_last() =~= ws.take(i as int));
        let cs = chars_of(words[i].as_str());
        if cs.len() > 0 {
            let ghost kv = views(kept@);
            kept.push(words[i].clone());
            assert(views(kept@) =~= kv.push(ws[i as int]));
        }
        i += 1;
    }
    assert(ws.take(i as int) =~= ws);
    token_order(&kept)
}

/// The words, in order, that are not listed in `gone`.
pub open spec fn without_listed(ws: Seq<Seq<char>>, gone: Seq<Seq<char>>) -> Seq<Seq<char>>
    decreases ws.len(),
{
    if ws.len() == 0 {
        ws
    } else if gone.contains(ws.last()) {
        without_listed(ws.drop_last(), gone)
    } else {
        without_listed(ws.drop_last(), gone).push(ws.last())
    }
}

/// The words that `gone` does not list, in their order.
pub fn remove_words(words: &Vec<String>, gone: &Vec<String>) -> (r: Vec<String>)
    ensures
        views(r@) == without_listed(views(words@), lex_order(views(gone@))),
{
    let g = token_order(gone);
    let ghost ws = views(words@);
    let mut kept: Vec<String> = Vec::new();
    let mut i: usize = 0;
    while i < words.len()
        invariant
            ws == views(words@),
            views(g@) == lex_order(views(gone@)),
            strictly_sorted(views(g@)),
            i <= words.len(),
            views(kept@) == without_listed(ws.take(i as int), views(g@)),
        decreases words.len() - i,
    {
        assert(ws.take(i + 1).drop_last() =~= ws.take(i as int));
        if !has_str(&g, words[i].as_str()) {
            let ghost kv = views(kept@);
            kept.push(words[i].clone());
            assert(views(kept@) =~= kv.push(ws[i as int]));
        }
        i += 1;
    }
    assert(ws.take(i as int) =~= ws);
    kept
}


/// The words, each kept at its first occurrence, in order.
pub fn dedup_words(words: &Vec<String>) -> (r: Vec<String>)
    ensures
        views(r@) == dedup_first(views(words@)),
{
    let set = token_order(words);
    let ghost sv = views(set@);
    let ghost wv = views(words@);
    let mut used: Vec<bool> = Vec::new();
    let mut k: usize = 0;
    while k < set.len()
        invariant
            k <= set@.len(),
            used@.len() == k,
            forall|p: int| 0 <= p < k ==> !(#[trigger] used@[p]),
        decreases set.len() - k,
    {
        used.push(false);
        k += 1;
    }
    let mut out: Vec<String> = Vec::new();
    let mut i: usize = 0;
    proof {
        assert(wv.take(0) =~= Seq::<Seq<char>>::empty());
    }
    while i < words.len()
        invariant
            i <= words@.len(),
            sv == views(set@),
            wv == views(words@),
            strictly_sorted(sv),
            forall|x: Seq<char>| sv.contains(x) <==> wv.contains(x),
            used@.len() == set@.len(),
            views(out@) == dedup_first(wv.take(i as int)),
            forall|p: int| 0 <= p < set@.len() ==> (#[trigger] used@[p] <==> dedup_first(wv.take(i as int)).contains(sv[p])),
        decreases words.len() - i,
    {
        let ghost seen = wv.take(i as int);
        let ghost x = wv[i as int];
        proof {
            assert(wv.take(i + 1).drop_last() =~= seen);
            assert(wv.take(i + 1).last() == x);
            assert(wv.contains(x));
        }
        let c = chars_of(words[i].as_str());
        match locate(&set, &c) {
            Ok(p) => {
                proof {
                    assert(sv[p as int] == x);
                    if used@[p as int] {
                        assert(dedup_first(wv.take(i + 1)) == dedup_first(seen));
                    }
                }
                if !used[p] {
                    used.set(p, true);
                    out.push(words[i].clone());
                    proof {
                        assert(sv[p as int] == x);
                        assert(!dedup_first(seen).contains(x));
                        assert(dedup_first(wv.take(i + 1)) == dedup_first(seen).push(x));
                        assert(views(out@) =~= dedup_first(seen).push(x));
                        assert forall|q: int| 0 <= q < set@.len() implies (#[trigger] used@[q] <==> dedup_first(wv.take(i + 1)).contains(sv[q])) by {
                            if q != p as int {
                                if sv[q] == x {
                                    if q < p {
                                        assert(char_seq_lt(sv[q], sv[p as int]));
                                    } else {
                                        assert(char_seq_lt(sv[p as int], sv[q]));
                                    }
                                    lemma_lt_irreflexive(x);
                                }
                                if dedup_first(seen).push(x).contains(sv[q]) {
                                    let w = choose|w: int| 0 <= w < dedup_first(seen).push(x).len() && dedup_first(seen).push(x)[w] == sv[q];
                                    assert(w < dedup_first(seen).len());
                                    assert(dedup_first(seen)[w] == sv[q]);
                                }
                                if dedup_first(seen).contains(sv[q]) {
                                    let w = choose|w: int| 0 <= w < dedup_first(seen).len() && dedup_first(seen)[w] == sv[q];
                                    assert(dedup_first(seen).push(x)[w] == sv[q]);
                                }
                            } else {
                                assert(dedup_first(seen).push(x)[dedup_first(seen).len() as int] == x);
                            }
                        }
                    }
                }
            },
            Err(_) => {
                proof {
                    let j = choose|j: int| 0 <= j < sv.len() && sv[j] == x;
                    lemma_lt_irreflexive(x);
                    assert(sv[j] == set@[j]@);
                    assert(false);
                }
            },
        }
        i += 1;
    }
    proof {
        assert(wv.take(words@.len() as int) =~= wv);
    }
    out
}


/// The entry a blocked-list line gives: nothing for a blank line or one
/// starting with `#` (after trimming), else the compiled form of the
/// trimmed line, unless that is empty.
pub open spec fn blocked_entry(lex: Lexicon, line: Seq<char>) -> Option<Seq<char>> {
    let t = trimmed(line);
    if t.len() == 0 || t[0] == '#' {
        None
    } else {
        let c = regularized(t, token_views(lex.tokens@), lex.symbols@, rule_views(lex.rules@));
        if c.len() == 0 { None } else { Some(c) }
    }
}

/// The entries of the lines, in order.
pub open spec fn blocked_entries_of(lex: Lexicon, lines: Seq<Seq<char>>) -> Seq<Seq<char>>
    decreases lines.len(),
{
    if lines.len() == 0 {
        Seq::empty()
    } else {
        let prev = blocked_entries_of(lex, lines.drop_last());
        match blocked_entry(lex, lines.last()) {
            Some(c) => prev.push(c),
            None => prev,
        }
    }
}

/// The blocked words of a blocked list's lines, each once, in the order of
/// their first line.
pub fn blocked_entries(lex: &Lexicon, lines: &Vec<String>) -> (r: Vec<String>)
    requires
        lex.wf(),
    ensures
        views(r@) == dedup_first(blocked_entries_of(*lex, views(lines@))),
{
    let ghost lv = views(lines@);
    let mut found: Vec<String> = Vec::new();
    let mut i: usize = 0;
    proof {
        assert(lv.take(0) =~= Seq::<Seq<char>>::empty());
    }
    while i < lines.len()
        invariant
            i <= lines@.len(),
            lex.wf(),
            lv == views(lines@),
            views(found@) == blocked_entries_of(*lex, lv.take(i as int)),
        decreases lines.len() - i,
    {
        proof {
            assert(lv.take(i + 1).drop_last() =~= lv.take(i as int));
            assert(lv.take(i + 1).last() == lines@[i as int]@);
        }
        let t = trim_chars(&chars_of(lines[i].as_str()));
        if t.len() > 0 && t[0] != '#' {
            let ts = string_from_chars(&t);
            let c = regularize_name(lex, ts.as_str());
            if chars_of(c.as_str()).len() > 0 {
                found.push(c);
                assert(views(found@) =~= blocked_entries_of(*lex, lv.take(i as int)).push(found@.last()@));
            }
        }
        i += 1;
    }
    proof {
        assert(lv.take(lines@.len() as int) =~= lv);
    }
    dedup_words(&found)
}

} // verus!
