//! The verifier's configuration file, one `key = value` line at a time:
//! `cubes`, `words` and `sentences` entries; `#` starts a comment.

use vstd::prelude::*;
use crate::text::{chars_of, string_from_chars, chars_equal};
use crate::catalog::views;

verus! {

broadcast use vstd::string::group_string_axioms;

/// The Unicode `White_Space` property (`char::is_whitespace`).
pub open spec fn is_space(c: char) -> bool {
    let v = c as int;
    (0x09 <= v <= 0x0D) || v == 0x20 || v == 0x85 || v == 0xA0 || v == 0x1680
        || (0x2000 <= v <= 0x200A) || v == 0x2028 || v == 0x2029 || v == 0x202F || v == 0x205F
        || v == 0x3000
}

fn space(c: char) -> (r: bool)
    ensures
        r == is_space(c),
{
    let v = crate::lexorder::scalar_value(c);
    (0x09 <= v && v <= 0x0D) || v == 0x20 || v == 0x85 || v == 0xA0 || v == 0x1680
        || (0x2000 <= v && v <= 0x200A) || v == 0x2028 || v == 0x2029 || v == 0x202F || v == 0x205F
        || v == 0x3000
}

/// Index of the first `c` in `s`, if any.
pub open spec fn find_char(s: Seq<char>, c: char) -> Option<int> {
    if s.contains(c) {
        Some(choose|i: int| 0 <= i < s.len() && s[i] == c && forall|j: int| 0 <= j < i ==> s[j] != c)
    } else {
        None
    }
}

/// Index of the first whitespace scalar in `s`, if any.
pub open spec fn find_space(s: Seq<char>) -> Option<int> {
    if exists|i: int| 0 <= i < s.len() && #[trigger] is_space(s[i]) {
        Some(choose|i: int| 0 <= i < s.len() && is_space(s[i]) && forall|j: int| 0 <= j < i ==> !is_space(#[trigger] s[j]))
    } else {
        None
    }
}

/// Number of leading whitespace scalars.
pub open spec fn lead_spaces(s: Seq<char>) -> nat
    decreases s.len(),
{
    if s.len() > 0 && is_space(s[0]) {
        1 + lead_spaces(s.drop_first())
    } else {
        0
    }
}

/// Number of trailing whitespace scalars.
pub open spec fn trail_spaces(s: Seq<char>) -> nat
    decreases s.len(),
{
    if s.len() > 0 && is_space(s.last()) {
        1 + trail_spaces(s.drop_last())
    } else {
        0
    }
}

/// `str::trim`: without leading and trailing whitespace.
#[verifier::opaque]
pub open spec fn trimmed(s: Seq<char>) -> Seq<char> {
    let a = lead_spaces(s) as int;
    let rest = s.skip(a);
    rest.take(rest.len() - trail_spaces(rest) as int)
}

/// ASCII letters lowered, everything else kept (`str::to_ascii_lowercase`).
pub open spec fn ascii_lower(s: Seq<char>) -> Seq<char> {
    s.map_values(|c: char| if 'A' <= c <= 'Z' { ((c as u32) + 32) as char } else { c })
}

/// The parts of `s` between the separators `c`, in order (`str::split`).
pub open spec fn split_on(s: Seq<char>, c: char) -> Seq<Seq<char>>
    decreases s.len(),
{
    match find_char(s, c) {
        Some(i) => if 0 <= i < s.len() {
            seq![s.take(i)] + split_on(s.skip(i + 1), c)
        } else {
            seq![s]
        },
        None => seq![s],
    }
}

/// The non-empty trimmed parts of a comma-separated list.
#[verifier::opaque]
pub open spec fn list_items(s: Seq<char>) -> Seq<Seq<char>> {
    split_on(s, ',').map_values(|p: Seq<char>| trimmed(p)).filter(|p: Seq<char>| p.len() > 0)
}

/// The content of a line: up to its first `#`, trimmed.
pub open spec fn line_content(l: Seq<char>) -> Seq<char> {
    match find_char(l, '#') {
        Some(i) => trimmed(l.take(i)),
        None => trimmed(l),
    }
}

/// The raw key and value of a non-empty line: split at the first `=`,
/// else at the first `:`, else at the first whitespace.
pub open spec fn split_line(l: Seq<char>) -> Option<(Seq<char>, Seq<char>)> {
    match find_char(l, '=') {
        Some(i) => Some((l.take(i), l.skip(i + 1))),
        None => match find_char(l, ':') {
            Some(i) => Some((l.take(i), l.skip(i + 1))),
            None => match find_space(l) {
                Some(i) => Some((l.take(i), l.skip(i + 1))),
                None => None,
            },
        },
    }
}

/// What a configuration file sets.
pub struct VerifyConf {
    pub cubes_path: Option<String>,
    pub word_paths: Vec<String>,
    pub sentence_paths: Vec<String>,
}

/// Spec view of a configuration.
#[verifier::ext_equal]
pub struct ConfView {
    pub cubes: Option<Seq<char>>,
    pub words: Seq<Seq<char>>,
    pub sentences: Seq<Seq<char>>,
    pub unknown: Seq<(Seq<char>, int)>,
}

/// Why a configuration file is refused.
pub enum ConfError {
    /// The line, numbered from one, has content but no separator.
    BadLine(usize, String),
    /// No `cubes` entry.
    MissingCubes,
}

pub open spec fn is_cubes_key(k: Seq<char>) -> bool {
    k == "cubes"@ || k == "cubes_file"@ || k == "cubes.txt"@
}

pub open spec fn is_words_key(k: Seq<char>) -> bool {
    k == "word"@ || k == "words"@ || k == "word_file"@
}

pub open spec fn is_sentences_key(k: Seq<char>) -> bool {
    k == "sentence"@ || k == "sentences"@ || k == "sentence_file"@
}

/// The effect of line number `n` (from one) on the configuration so far.
pub open spec fn conf_step(c: ConfView, l: Seq<char>, n: int) -> Result<ConfView, int> {
    let t = line_content(l);
    if t.len() == 0 {
        Ok(c)
    } else {
        match split_line(t) {
            None => Err(n),
            Some((k0, v0)) => {
                let k = ascii_lower(trimmed(k0));
                let v = trimmed(v0);
                if v.len() == 0 {
                    Ok(c)
                } else if is_cubes_key(k) {
                    Ok(ConfView { cubes: Some(v), ..c })
                } else if is_words_key(k) {
                    Ok(ConfView { words: c.words + list_items(v), ..c })
                } else if is_sentences_key(k) {
                    Ok(ConfView { sentences: c.sentences + list_items(v), ..c })
                } else {
                    Ok(ConfView { unknown: c.unknown.push((k, n)), ..c })
                }
            },
        }
    }
}

/// The configuration after the first `n` lines.
pub open spec fn conf_lines(ls: Seq<Seq<char>>) -> Result<ConfView, int>
    decreases ls.len(),
{
    if ls.len() == 0 {
        Ok(ConfView { cubes: None, words: Seq::empty(), sentences: Seq::empty(), unknown: Seq::empty() })
    } else {
        match conf_lines(ls.drop_last()) {
            Err(n) => Err(n),
            Ok(c) => conf_step(c, ls.last(), ls.len() as int),
        }
    }
}

/* ------------------------------- scanning ------------------------------- */

fn find_char_exec(s: &Vec<char>, c: char) -> (r: Option<usize>)
    ensures
        r == (match find_char(s@, c) {
            Some(i) => Some(i as usize),
            None => None::<usize>,
        }),
        r matches Some(i) ==> i < s.len() && find_char(s@, c) == Some(i as int),
{
    let mut i: usize = 0;
    while i < s.len()
        invariant
            i <= s.len(),
            forall|j: int| 0 <= j < i ==> s@[j] != c,
        decreases s.len() - i,
    {
        if s[i] == c {
            assert(s@.contains(c));
            let ghost k = choose|k: int| 0 <= k < s@.len() && s@[k] == c && forall|j: int| 0 <= j < k ==> s@[j] != c;
            assert(k == i) by {
                if k < i {
                } else if k > i {
                    assert(s@[i as int] == c);
                }
            }
            return Some(i);
        }
        i += 1;
    }
    None
}

fn find_space_exec(s: &Vec<char>) -> (r: Option<usize>)
    ensures
        r == (match find_space(s@) {
            Some(i) => Some(i as usize),
            None => None::<usize>,
        }),
        r matches Some(i) ==> i < s.len() && find_space(s@) == Some(i as int),
{
    let mut i: usize = 0;
    while i < s.len()
        invariant
            i <= s.len(),
            forall|j: int| 0 <= j < i ==> !is_space(#[trigger] s@[j]),
        decreases s.len() - i,
    {
        if space(s[i]) {
            assert(is_space(s@[i as int]));
            let ghost k = choose|k: int| 0 <= k < s@.len() && is_space(s@[k]) && forall|j: int| 0 <= j < k ==> !is_space(#[trigger] s@[j]);
            assert(k == i) by {
                if k > i {
                    assert(is_space(s@[i as int]));
                }
            }
            return Some(i);
        }
        i += 1;
    }
    None
}

pub(crate) fn slice_of(s: &Vec<char>, a: usize, b: usize) -> (r: Vec<char>)
    requires
        a <= b <= s.len(),
    ensures
        r@ == s@.subrange(a as int, b as int),
{
    let mut out: Vec<char> = Vec::new();
    let mut i: usize = a;
    while i < b
        invariant
            a <= i <= b <= s.len(),
            out@ == s@.subrange(a as int, i as int),
        decreases b - i,
    {
        out.push(s[i]);
        i += 1;
        assert(out@ =~= s@.subrange(a as int, i as int));
    }
    out
}

proof fn lemma_lead_spaces(s: Seq<char>, i: int)
    requires
        0 <= i <= s.len(),
        forall|j: int| 0 <= j < i ==> is_space(#[trigger] s[j]),
        i == s.len() || !is_space(s[i]),
    ensures
        lead_spaces(s) == i,
    decreases i,
{
    if i > 0 {
        assert forall|j: int| 0 <= j < i - 1 implies is_space(#[trigger] s.drop_first()[j]) by {
            assert(s.drop_first()[j] == s[j + 1]);
        }
        lemma_lead_spaces(s.drop_first(), i - 1);
    }
}

proof fn lemma_trail_spaces(s: Seq<char>, e: int)
    requires
        0 <= e <= s.len(),
        forall|j: int| e <= j < s.len() ==> is_space(#[trigger] s[j]),
        e == 0 || !is_space(s[e - 1]),
    ensures
        trail_spaces(s) == s.len() - e,
    decreases s.len() - e,
{
    if e < s.len() {
        assert forall|j: int| e <= j < s.len() - 1 implies is_space(#[trigger] s.drop_last()[j]) by {
            assert(s.drop_last()[j] == s[j]);
        }
        lemma_trail_spaces(s.drop_last(), e);
    }
}

/// `str::trim` on scalars.
pub(crate) fn trim_chars(s: &Vec<char>) -> (r: Vec<char>)
    ensures
        r@ == trimmed(s@),
{
    let mut a: usize = 0;
    while a < s.len() && space(s[a])
        invariant
            a <= s.len(),
            forall|j: int| 0 <= j < a ==> is_space(#[trigger] s@[j]),
        decreases s.len() - a,
    {
        a += 1;
    }
    proof {
        lemma_lead_spaces(s@, a as int);
    }
    let mut e: usize = s.len();
    while e > a && space(s[e - 1])
        invariant
            a <= e <= s.len(),
            forall|j: int| e <= j < s.len() ==> is_space(#[trigger] s@[j]),
        decreases e,
    {
        e -= 1;
    }
    let ghost rest = s@.skip(a as int);
    proof {
        assert forall|j: int| e - a <= j < rest.len() implies is_space(#[trigger] rest[j]) by {
            assert(rest[j] == s@[j + a]);
        }
        if e > a {
            assert(rest[e - a - 1] == s@[e - 1]);
        }
        lemma_trail_spaces(rest, e - a);
        assert(rest.take(e - a) =~= s@.subrange(a as int, e as int));
        reveal(trimmed);
    }
    slice_of(s, a, e)
}

/// Whitespace by the Unicode `White_Space` property (`char::is_whitespace`).
pub fn space_pub(c: char) -> (r: bool)
    ensures
        r == is_space(c),
{
    space(c)
}

pub(crate) fn ascii_lower_exec(s: &Vec<char>) -> (r: Vec<char>)
    ensures
        r@ == ascii_lower(s@),
{
    let mut out: Vec<char> = Vec::new();
    let mut i: usize = 0;
    while i < s.len()
        invariant
            i <= s.len(),
            out@ == ascii_lower(s@.take(i as int)),
        decreases s.len() - i,
    {
        let c = s[i];
        let d = if 'A' <= c && c <= 'Z' {
            ascii_lowered(c)
        } else {
            c
        };
        out.push(d);
        i += 1;
        assert(out@ =~= ascii_lower(s@.take(i as int)));
    }
    assert(s@.take(s.len() as int) =~= s@);
    out
}

/// The small letter of an ASCII capital.
fn ascii_lowered(c: char) -> (r: char)
    requires
        'A' <= c <= 'Z',
    ensures
        r == ((c as u32) + 32) as char,
{
    ((c as u8) + 32) as char
}

/// The item contributed by one part of a list.
pub open spec fn item_of(p: Seq<char>) -> Seq<Seq<char>> {
    if trimmed(p).len() > 0 {
        seq![trimmed(p)]
    } else {
        Seq::empty()
    }
}

proof fn lemma_list_items_split(rest: Seq<char>, i: int)
    requires
        0 <= i < rest.len(),
        find_char(rest, ',') == Some(i),
    ensures
        list_items(rest) == item_of(rest.take(i)) + list_items(rest.skip(i + 1)),
{
    reveal(list_items);
    let pred = |p: Seq<char>| p.len() > 0;
    let tr = |p: Seq<char>| trimmed(p);
    let tail = split_on(rest.skip(i + 1), ',');
    let m = tail.map_values(tr);
    assert(split_on(rest, ',') == seq![rest.take(i)] + tail);
    let whole = seq![rest.take(i)] + tail;
    assert(whole.map_values(tr) =~= seq![trimmed(rest.take(i))] + m) by {
        assert forall|j: int| 0 <= j < whole.len() implies #[trigger] whole.map_values(tr)[j]
            == (seq![trimmed(rest.take(i))] + m)[j] by {
            if j > 0 {
                assert(whole[j] == tail[j - 1]);
            }
        }
    }
    m.lemma_filter_prepend(trimmed(rest.take(i)), pred);
}

proof fn lemma_list_items_last(rest: Seq<char>)
    requires
        find_char(rest, ',') is None,
    ensures
        list_items(rest) == item_of(rest),
{
    reveal(list_items);
    let pred = |p: Seq<char>| p.len() > 0;
    let tr = |p: Seq<char>| trimmed(p);
    let e = Seq::<Seq<char>>::empty();
    assert(split_on(rest, ',').map_values(tr) =~= seq![trimmed(rest)] + e);
    e.lemma_filter_prepend(trimmed(rest), pred);
    e.lemma_filter_len(pred);
    assert(e.filter(pred) =~= e);
}

fn split_list(s: &Vec<char>) -> (r: Vec<Vec<char>>)
    ensures
        char_vecs(r@) == list_items(s@),
{
    let mut out: Vec<Vec<char>> = Vec::new();
    let mut rest: Vec<char> = slice_of(s, 0, s.len());
    assert(s@.subrange(0, s.len() as int) =~= s@);
    assert(char_vecs(out@) + list_items(rest@) =~= list_items(s@));
    loop
        invariant
            char_vecs(out@) + list_items(rest@) == list_items(s@),
        decreases rest.len(),
    {
        let ghost o0 = char_vecs(out@);
        match find_char_exec(&rest, ',') {
            Some(i) => {
                let head = slice_of(&rest, 0, i);
                let part = trim_chars(&head);
                let tail = slice_of(&rest, i + 1, rest.len());
                proof {
                    assert(head@ =~= rest@.take(i as int));
                    assert(tail@ =~= rest@.skip(i + 1));
                    lemma_list_items_split(rest@, i as int);
                }
                if part.len() > 0 {
                    out.push(part);
                }
                assert(char_vecs(out@) =~= o0 + item_of(head@));
                rest = tail;
            },
            None => {
                let part = trim_chars(&rest);
                proof {
                    lemma_list_items_last(rest@);
                }
                if part.len() > 0 {
                    out.push(part);
                }
                assert(char_vecs(out@) =~= o0 + item_of(rest@));
                assert(list_items(s@) =~= char_vecs(out@));
                return out;
            },
        }
    }
}

fn is_key(k: &Vec<char>, name: &str) -> (r: bool)
    ensures
        r == (k@ == name@),
{
    chars_equal(k, &chars_of(name))
}

/// The scalars of each vector.
pub open spec fn char_vecs(v: Seq<Vec<char>>) -> Seq<Seq<char>> {
    v.map_values(|t: Vec<char>| t@)
}

fn strings_of(v: &Vec<Vec<char>>) -> (r: Vec<String>)
    ensures
        views(r@) == char_vecs(v@),
{
    let mut out: Vec<String> = Vec::new();
    let mut i: usize = 0;
    assert(views(out@) =~= char_vecs(v@.take(0)));
    while i < v.len()
        invariant
            i <= v.len(),
            views(out@) == char_vecs(v@.take(i as int)),
        decreases v.len() - i,
    {
        let t = string_from_chars(&v[i]);
        let ghost o0 = views(out@);
        out.push(t);
        assert(views(out@) =~= o0.push(v@[i as int]@));
        assert(char_vecs(v@.take(i + 1)) =~= char_vecs(v@.take(i as int)).push(v@[i as int]@));
        i += 1;
    }
    assert(v@.take(v.len() as int) =~= v@);
    out
}

fn append_strings(out: &mut Vec<String>, more: Vec<String>)
    ensures
        views(final(out)@) == views(old(out)@) + views(more@),
{
    let ghost o0 = views(out@);
    let mut i: usize = 0;
    assert(views(out@) =~= o0 + views(more@.take(0)));
    while i < more.len()
        invariant
            i <= more.len(),
            views(out@) == o0 + views(more@.take(i as int)),
        decreases more.len() - i,
    {
        let ghost o1 = views(out@);
        out.push(more[i].clone());
        assert(views(out@) =~= o1.push(more@[i as int]@));
        assert(views(more@.take(i + 1)) =~= views(more@.take(i as int)).push(more@[i as int]@));
        i += 1;
    }
    assert(more@.take(more.len() as int) =~= more@);
}

/// The spec view of what has been parsed.
pub open spec fn conf_view(cubes: Option<String>, words: Seq<String>, sentences: Seq<String>,
    unknown: Seq<(String, usize)>) -> ConfView {
    ConfView {
        cubes: match cubes {
            Some(c) => Some(c@),
            None => None,
        },
        words: views(words),
        sentences: views(sentences),
        unknown: unknown.map_values(|u: (String, usize)| (u.0@, u.1 as int)),
    }
}

fn apply_line(cubes: &mut Option<String>, words: &mut Vec<String>, sentences: &mut Vec<String>,
    unknown: &mut Vec<(String, usize)>, line: &String, n: usize) -> (ok: bool)
    ensures
        ok ==> conf_step(conf_view(*old(cubes), old(words)@, old(sentences)@, old(unknown)@), line@, n as int)
            == Ok::<ConfView, int>(conf_view(*final(cubes), final(words)@, final(sentences)@, final(unknown)@)),
        !ok ==> conf_step(conf_view(*old(cubes), old(words)@, old(sentences)@, old(unknown)@), line@, n as int) is Err,
{
    let ghost c0 = conf_view(*cubes, words@, sentences@, unknown@);
    let ghost l = line@;
    let raw = chars_of(line.as_str());
    let cut = match find_char_exec(&raw, '#') {
        Some(h) => slice_of(&raw, 0, h),
        None => slice_of(&raw, 0, raw.len()),
    };
    proof {
        assert(raw@.subrange(0, raw.len() as int) =~= raw@);
        match find_char(raw@, '#') {
            Some(h) => { assert(raw@.subrange(0, h) =~= raw@.take(h)); },
            None => {},
        }
    }
    let t = trim_chars(&cut);
    assert(t@ == line_content(l));
    if t.len() > 0 {
        let (k0, v0) = match find_char_exec(&t, '=') {
            Some(e) => (slice_of(&t, 0, e), slice_of(&t, e + 1, t.len())),
            None => match find_char_exec(&t, ':') {
                Some(e) => (slice_of(&t, 0, e), slice_of(&t, e + 1, t.len())),
                None => match find_space_exec(&t) {
                    Some(e) => (slice_of(&t, 0, e), slice_of(&t, e + 1, t.len())),
                    None => {
                        return false;
                    },
                },
            },
        };
        proof {
            assert(split_line(t@) is Some);
            assert(k0@ =~= split_line(t@)->Some_0.0);
            assert(v0@ =~= split_line(t@)->Some_0.1);
        }
        let k = ascii_lower_exec(&trim_chars(&k0));
        let v = trim_chars(&v0);
        if v.len() > 0 {
            if is_key(&k, "cubes") || is_key(&k, "cubes_file") || is_key(&k, "cubes.txt") {
                *cubes = Some(string_from_chars(&v));
            } else if is_key(&k, "word") || is_key(&k, "words") || is_key(&k, "word_file") {
                let items = strings_of(&split_list(&v));
                append_strings(words, items);
            } else if is_key(&k, "sentence") || is_key(&k, "sentences") || is_key(&k, "sentence_file") {
                let items = strings_of(&split_list(&v));
                append_strings(sentences, items);
            } else {
                let ghost u0 = unknown@;
                unknown.push((string_from_chars(&k), n));
                assert(unknown@.map_values(|u: (String, usize)| (u.0@, u.1 as int)) =~= u0.map_values(
                    |u: (String, usize)| (u.0@, u.1 as int)).push((k@, n as int)));
            }
        }
    }
    assert(conf_view(*cubes, words@, sentences@, unknown@) =~= conf_step(c0, l, n as int)->Ok_0);
    true
}

/// Parses the lines of a configuration file.  On success, also returns the
/// unknown keys with their line numbers, from one.
pub fn parse_conf_lines(lines: &Vec<String>) -> (r: Result<(VerifyConf, Vec<(String, usize)>), ConfError>)
    requires
        lines.len() < usize::MAX,
    ensures
        ({
            let lv = views(lines@);
            match r {
                Ok((c, u)) => c.cubes_path is Some && conf_lines(lv) == Ok::<ConfView, int>(
                    conf_view(c.cubes_path, c.word_paths@, c.sentence_paths@, u@)),
                Err(ConfError::BadLine(n, l)) => conf_lines(lv) == Err::<ConfView, int>(n as int)
                    && 1 <= n <= lines.len() && l@ == lv[n - 1],
                Err(ConfError::MissingCubes) => conf_lines(lv) matches Ok(v) && v.cubes is None,
            }
        }),
{
    let ghost lv = views(lines@);
    let mut cubes: Option<String> = None;
    let mut words: Vec<String> = Vec::new();
    let mut sentences: Vec<String> = Vec::new();
    let mut unknown: Vec<(String, usize)> = Vec::new();
    let mut i: usize = 0;
    assert(lv.take(0) =~= Seq::<Seq<char>>::empty());
    assert(conf_view(cubes, words@, sentences@, unknown@) =~= conf_lines(lv.take(0))->Ok_0);
    while i < lines.len()
        invariant
            i <= lines.len() < usize::MAX,
            lv == views(lines@),
            conf_lines(lv.take(i as int)) == Ok::<ConfView, int>(conf_view(cubes, words@, sentences@, unknown@)),
        decreases lines.len() - i,
    {
        let ghost c0 = conf_view(cubes, words@, sentences@, unknown@);
        let ghost l = lv[i as int];
        proof {
            assert(lv.take(i + 1).drop_last() =~= lv.take(i as int));
            assert(lv.take(i + 1).last() == l);
        }
        if !apply_line(&mut cubes, &mut words, &mut sentences, &mut unknown, &lines[i], i + 1) {
            proof {
                lemma_conf_fails_from(lv, i as int + 1, lines.len() as int);
                assert(lv.take(lines.len() as int) =~= lv);
            }
            return Err(ConfError::BadLine(i + 1, lines[i].clone()));
        }
        i += 1;
    }
    assert(lv.take(lines.len() as int) =~= lv);
    match cubes {
        Some(_) => Ok((VerifyConf { cubes_path: cubes, word_paths: words, sentence_paths: sentences }, unknown)),
        None => Err(ConfError::MissingCubes),
    }
}

proof fn lemma_conf_fails_from(lv: Seq<Seq<char>>, a: int, b: int)
    requires
        0 < a <= b <= lv.len(),
        conf_lines(lv.take(a)) is Err,
    ensures
        conf_lines(lv.take(b)) == conf_lines(lv.take(a)),
    decreases b - a,
{
    if a < b {
        lemma_conf_fails_from(lv, a, b - 1);
        assert(lv.take(b).drop_last() =~= lv.take(b - 1));
    }
}

} // verus!
