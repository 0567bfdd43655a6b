//! Word-list filters: length limit and blocked words, and short words that
//! read as Roman numerals.

use vstd::prelude::*;
use crate::text::chars_of;
use crate::lexorder::scalar_value;

verus! {

broadcast use vstd::string::group_string_axioms;

/// Every scalar of `s` is `c`, and there are at most `max` of them.
pub open spec fn repeats(s: Seq<char>, c: char, max: int) -> bool {
    s.len() <= max && forall|i: int| 0 <= i < s.len() ==> s[i] == c
}

/// One Roman decimal place written with `one`, `five` and `ten`:
/// `one ten`, `one five`, or an optional `five` followed by up to four `one`.
pub open spec fn roman_place(s: Seq<char>, one: char, five: char, ten: char) -> bool {
    ||| s == seq![one, ten]
    ||| s == seq![one, five]
    ||| repeats(s, one, 4)
    ||| (s.len() >= 1 && s[0] == five && repeats(s.drop_first(), one, 4))
}

/// The whole of `s` matches `^m{0,4}(cm|cd|d?c{0,4})(xc|xl|l?x{0,4})(ix|iv|v?i{0,4})$`.
pub open spec fn roman_shape(s: Seq<char>) -> bool {
    exists|a: int, b: int, c: int|
        #![trigger s.subrange(0, a), s.subrange(a, b), s.subrange(b, c)]
        0 <= a <= b <= c <= s.len()
        && repeats(s.subrange(0, a), 'm', 4)
        && roman_place(s.subrange(a, b), 'c', 'd', 'm')
        && roman_place(s.subrange(b, c), 'x', 'l', 'c')
        && roman_place(s.subrange(c, s.len() as int), 'i', 'v', 'x')
}

/// `regex::Regex::is_match` for the Roman numeral pattern (built with
/// `Regex::new`, which accepts this constant pattern).  The contract states
/// the language of the pattern: Rust's `^` and `$` anchor at the ends of the
/// text.
#[verifier::external_body]
fn matches_roman_pattern(s: &str) -> (r: bool)
    ensures
        r == roman_shape(s@),
{
    regex::Regex::new(r"^m{0,4}(cm|cd|d?c{0,4})(xc|xl|l?x{0,4})(ix|iv|v?i{0,4})$").unwrap().is_match(s)
}

/// Bytes of the UTF-8 encoding of one scalar.
pub open spec fn utf8_width(c: char) -> nat {
    if (c as int) < 0x80 {
        1
    } else if (c as int) < 0x800 {
        2
    } else if (c as int) < 0x10000 {
        3
    } else {
        4
    }
}

/// Bytes of the UTF-8 encoding of a string (`str::len`).
pub open spec fn utf8_len(s: Seq<char>) -> nat
    decreases s.len(),
{
    if s.len() == 0 {
        0
    } else {
        utf8_len(s.drop_last()) + utf8_width(s.last())
    }
}

proof fn lemma_utf8_len_take(s: Seq<char>, i: int)
    requires
        0 <= i < s.len(),
    ensures
        utf8_len(s.take(i + 1)) == utf8_len(s.take(i)) + utf8_width(s[i]),
        utf8_len(s.take(i)) <= utf8_len(s),
    decreases s.len() - i,
{
    assert(s.take(i + 1).drop_last() =~= s.take(i));
    if i + 1 < s.len() {
        lemma_utf8_len_take(s, i + 1);
    } else {
        assert(s.take(i + 1) =~= s);
    }
}

/// Whether the UTF-8 encoding of `s` takes at most `limit` bytes.
fn utf8_len_at_most(s: &str, limit: usize) -> (r: bool)
    ensures
        r == (utf8_len(s@) <= limit),
{
    let cs = chars_of(s);
    let mut total: usize = 0;
    let mut i: usize = 0;
    assert(cs@.take(0) =~= Seq::<char>::empty());
    while i < cs.len()
        invariant
            i <= cs.len(),
            cs@ == s@,
            total == utf8_len(cs@.take(i as int)),
            total <= limit,
        decreases cs.len() - i,
    {
        let v = scalar_value(cs[i]);
        let w: usize = if v < 0x80 { 1 } else if v < 0x800 { 2 } else if v < 0x10000 { 3 } else { 4 };
        proof {
            lemma_utf8_len_take(cs@, i as int);
        }
        if w > limit - total {
            proof {
                if i + 1 < cs.len() {
                    lemma_utf8_len_take(cs@, i + 1);
                } else {
                    assert(cs@.take(i + 1) =~= cs@);
                }
            }
            return false;
        }
        total = total + w;
        i += 1;
    }
    assert(cs@.take(cs.len() as int) =~= cs@);
    true
}

/// A word of at most ten bytes that reads as a Roman numeral.
pub open spec fn is_short_roman(w: Seq<char>) -> bool {
    utf8_len(w) <= 10 && roman_shape(w)
}

/// Drops the words of at most ten bytes that read as Roman numerals.
pub fn remove_roman_numerals(words: Vec<String>) -> (r: Vec<String>)
    ensures
        r@ == words@.filter(|w: String| !is_short_roman(w@)),
{
    let ghost pred = |w: String| !is_short_roman(w@);
    let mut out: Vec<String> = Vec::new();
    let mut i: usize = 0;
    assert(words@.take(0) =~= Seq::<String>::empty());
    while i < words.len()
        invariant
            i <= words.len(),
            pred == (|w: String| !is_short_roman(w@)),
            out@ == words@.take(i as int).filter(pred),
        decreases words.len() - i,
    {
        let w = &words[i];
        proof {
            words@.take(i as int).lemma_filter_push(words@[i as int], pred);
            assert(words@.take(i + 1) =~= words@.take(i as int).push(words@[i as int]));
        }
        let drop = utf8_len_at_most(w.as_str(), 10) && matches_roman_pattern(w.as_str());
        if !drop {
            out.push(w.clone());
        }
        i += 1;
    }
    assert(words@.take(words.len() as int) =~= words@);
    out
}

/// Some string of `v` spells `s`.
pub open spec fn listed(v: Seq<String>, s: Seq<char>) -> bool {
    exists|j: int| 0 <= j < v.len() && #[trigger] v[j]@ == s
}

/// The word survives the length limit and the blocked list.
pub open spec fn keeps_word(w: Seq<char>, max_len: usize, blocked: Seq<String>) -> bool {
    w.len() <= max_len && !listed(blocked, w)
}

fn is_listed(v: &Vec<String>, w: &String) -> (r: bool)
    ensures
        r == listed(v@, w@),
{
    let mut j: usize = 0;
    while j < v.len()
        invariant
            j <= v.len(),
            forall|k: int| 0 <= k < j ==> v@[k]@ != w@,
        decreases v.len() - j,
    {
        if v[j] == *w {
            return true;
        }
        j += 1;
    }
    false
}

/// The words of a list that the length filter keeps, in order.
pub open spec fn kept_words(words: Seq<String>, max_len: usize, blocked: Seq<String>) -> Seq<String> {
    words.filter(|w: String| keeps_word(w@, max_len, blocked))
}

/// A word survives the length filter exactly when it has at most `max_len`
/// scalars (characters, not bytes) and no blocked entry spells it.
pub proof fn law_length_counts_scalars(words: Seq<String>, max_len: usize, blocked: Seq<String>)
    ensures
        forall|i: int| 0 <= i < words.len() ==>
            (kept_words(words, max_len, blocked).contains(#[trigger] words[i])
                <==> (words[i]@.len() <= max_len && forall|j: int| 0 <= j < blocked.len() ==> blocked[j]@ != words[i]@)),
        forall|i: int| 0 <= i < kept_words(words, max_len, blocked).len() ==>
            (#[trigger] kept_words(words, max_len, blocked)[i])@.len() <= max_len
            && forall|j: int| 0 <= j < blocked.len() ==> blocked[j]@ != kept_words(words, max_len, blocked)[i]@,
{
    let pred = |w: String| keeps_word(w@, max_len, blocked);
    let kept = words.filter(pred);
    assert(kept == kept_words(words, max_len, blocked));
    assert forall|i: int| 0 <= i < words.len() implies (kept.contains(#[trigger] words[i])
        <==> (words[i]@.len() <= max_len && forall|j: int| 0 <= j < blocked.len() ==> blocked[j]@ != words[i]@)) by {
        if words[i]@.len() <= max_len && forall|j: int| 0 <= j < blocked.len() ==> blocked[j]@ != words[i]@ {
            assert(!listed(blocked, words[i]@));
            words.lemma_filter_contains(pred, i);
        }
        if kept.contains(words[i]) {
            let k = choose|k: int| 0 <= k < kept.len() && kept[k] == words[i];
            words.lemma_filter_pred(pred, k);
            assert forall|j: int| 0 <= j < blocked.len() implies blocked[j]@ != words[i]@ by {
                if blocked[j]@ == words[i]@ {
                    assert(listed(blocked, words[i]@));
                }
            }
        }
    }
    assert forall|i: int| 0 <= i < kept.len() implies (#[trigger] kept[i])@.len() <= max_len
        && forall|j: int| 0 <= j < blocked.len() ==> blocked[j]@ != kept[i]@ by {
        words.lemma_filter_pred(pred, i);
        assert forall|j: int| 0 <= j < blocked.len() implies blocked[j]@ != kept[i]@ by {
            if blocked[j]@ == kept[i]@ {
                assert(listed(blocked, kept[i]@));
            }
        }
    }
}

/// Drops the words longer than `max_len` scalars and the blocked words.
pub fn remove_long_words(words: Vec<String>, max_len: usize, blocked: &Vec<String>) -> (r: Vec<String>)
    ensures
        r@ == words@.filter(|w: String| keeps_word(w@, max_len, blocked@)),
        forall|i: int| 0 <= i < words@.len() ==> (r@.contains(#[trigger] words@[i])
            <==> (words@[i]@.len() <= max_len && forall|j: int| 0 <= j < blocked@.len() ==> blocked@[j]@ != words@[i]@)),
        forall|i: int| 0 <= i < r@.len() ==> (#[trigger] r@[i])@.len() <= max_len
            && forall|j: int| 0 <= j < blocked@.len() ==> blocked@[j]@ != r@[i]@,
{
    let ghost pred = |w: String| keeps_word(w@, max_len, blocked@);
    let mut out: Vec<String> = Vec::new();
    let mut i: usize = 0;
    assert(words@.take(0) =~= Seq::<String>::empty());
    while i < words.len()
        invariant
            i <= words.len(),
            pred == (|w: String| keeps_word(w@, max_len, blocked@)),
            out@ == words@.take(i as int).filter(pred),
        decreases words.len() - i,
    {
        let w = &words[i];
        proof {
            words@.take(i as int).lemma_filter_push(words@[i as int], pred);
            assert(words@.take(i + 1) =~= words@.take(i as int).push(words@[i as int]));
        }
        let n = chars_of(w.as_str()).len();
        if n <= max_len && !is_listed(blocked, w) {
            out.push(w.clone());
        }
        i += 1;
    }
    assert(words@.take(words.len() as int) =~= words@);
    proof {
        law_length_counts_scalars(words@, max_len, blocked@);
    }
    out
}

} // verus!
