//! Cube files: the face tokens of each cube, read from a Java-style
//! `[[...], ...]` array literal or from pythonic `set("...")` entries, and
//! compiled to one `u64` mask per letter (bit `j` set when cube `j` carries
//! the letter).

use vstd::prelude::*;
use crate::alphabet::{Alphabet, letter_index, char_index};
use crate::bits::{has_bit, lemma_bit_or, lemma_bit_single};
use crate::text::{chars_of, string_from_chars};
use crate::conf::find_char;
use crate::tokenizer::{Lexicon, regularized, token_views, rule_views, compile_face_token, regularize_name};

verus! {

broadcast use vstd::string::group_string_axioms;

/* ------------------------------ compiling ------------------------------ */

/// The compiled letters of a face token.
pub open spec fn face_compiled(lex: Lexicon, t: Seq<char>) -> Seq<char> {
    regularized(t, token_views(lex.tokens@), lex.symbols@, rule_views(lex.rules@))
}

/// A face token compiles to exactly one letter.
pub open spec fn face_ok(lex: Lexicon, t: Seq<char>) -> bool {
    face_compiled(lex, t).len() == 1
}

/// The letter index of a face token that compiles to one letter.
pub open spec fn face_letter(lex: Lexicon, t: Seq<char>) -> Option<int> {
    letter_index(lex.symbols@, face_compiled(lex, t)[0])
}

/// One of the first `f` faces of `cube` is letter `li`.
pub open spec fn cube_has_upto(lex: Lexicon, cube: Seq<Seq<char>>, li: int, f: int) -> bool {
    exists|g: int| 0 <= g < f && g < cube.len() && face_ok(lex, cube[g]) && #[trigger] face_letter(lex, cube[g]) == Some(li)
}

/// Some face of `cube` is letter `li`.
pub open spec fn cube_has(lex: Lexicon, cube: Seq<Seq<char>>, li: int) -> bool {
    cube_has_upto(lex, cube, li, cube.len() as int)
}

/// A face of cube `j` that the masks can take: it compiles to one letter,
/// and if that letter is in the alphabet, cube `j` is one of the 64 cubes
/// a mask has bits for.
pub open spec fn face_clear(lex: Lexicon, j: int, t: Seq<char>) -> bool {
    face_ok(lex, t) && (j < 64 || face_letter(lex, t) is None)
}

/// Every face of the first `j` cubes, and the first `f` faces of cube `j`,
/// are clear.
pub open spec fn faces_ok_before(lex: Lexicon, cubes: Seq<Seq<Seq<char>>>, j: int, f: int) -> bool {
    &&& forall|a: int, b: int| 0 <= a < j && 0 <= b < cubes[a].len() ==> face_clear(lex, a, #[trigger] cubes[a][b])
    &&& forall|b: int| 0 <= b < f ==> face_clear(lex, j, #[trigger] cubes[j][b])
}

/// The masks of the cubes: bit `j` of letter `li` is set exactly when cube
/// `j` carries `li`.
pub open spec fn masks_of(lex: Lexicon, cubes: Seq<Seq<Seq<char>>>, masks: Seq<u64>) -> bool {
    &&& masks.len() == lex.symbols@.len()
    &&& forall|li: int, j: int| 0 <= li < masks.len() ==>
        (#[trigger] has_bit(masks[li], j) <==> (0 <= j < cubes.len() && cube_has(lex, cubes[j], li)))
}

/// Compiles cube faces to letter masks, cube by cube and face by face.  On
/// failure, names the first face (cube, face) that is not clear: one that
/// does not compile to exactly one letter, or an alphabet letter on a cube
/// past the 64th.
pub fn compile_cubes(lex: &Lexicon, alpha: &Alphabet, cubes: &Vec<Vec<String>>) -> (r: Result<Vec<u64>, (usize, usize)>)
    requires
        lex.wf(),
        alpha@ == lex.symbols@,
    ensures
        ({
            let cv = cubes@.map_values(|c: Vec<String>| c@.map_values(|t: String| t@));
            match r {
                Ok(m) => faces_ok_before(*lex, cv, cv.len() as int, 0) && masks_of(*lex, cv, m@),
                Err((j, f)) => j < cv.len() && f < cv[j as int].len() && faces_ok_before(*lex, cv, j as int, f as int)
                    && !face_clear(*lex, j as int, cv[j as int][f as int]),
            }
        }),
{
    let ghost cv = cubes@.map_values(|c: Vec<String>| c@.map_values(|t: String| t@));
    let n = crate::alphabet::n_letters(alpha);
    let mut masks: Vec<u64> = Vec::new();
    while masks.len() < n
        invariant
            masks.len() <= n,
            forall|li: int| 0 <= li < masks.len() ==> masks@[li] == 0u64,
        decreases n - masks.len(),
    {
        masks.push(0u64);
    }
    proof {
        assert forall|li: int, j: int| 0 <= li < masks.len() implies !#[trigger] has_bit(masks@[li], j) by {
            if 0 <= j < 64 {
                let jj = j as u64;
                assert((0u64 >> jj) & 1u64 == 0u64) by (bit_vector);
            }
        }
    }
    let mut j: usize = 0;
    while j < cubes.len()
        invariant
            lex.wf(),
            alpha@ == lex.symbols@,
            n == lex.symbols@.len(),
            j <= cubes.len(),
            cv == cubes@.map_values(|c: Vec<String>| c@.map_values(|t: String| t@)),
            masks.len() == n,
            faces_ok_before(*lex, cv, j as int, 0),
            forall|li: int, jj: int| 0 <= li < n ==>
                (#[trigger] has_bit(masks@[li], jj) <==> (0 <= jj < j && cube_has(*lex, cv[jj], li))),
        decreases cubes.len() - j,
    {
        let cube = &cubes[j];
        let mut f: usize = 0;
        while f < cube.len()
            invariant
                lex.wf(),
                alpha@ == lex.symbols@,
                n == lex.symbols@.len(),
                j < cubes.len(),
                f <= cube.len(),
                cube@ == cubes@[j as int]@,
                cv == cubes@.map_values(|c: Vec<String>| c@.map_values(|t: String| t@)),
                masks.len() == n,
                faces_ok_before(*lex, cv, j as int, f as int),
                forall|li: int, jj: int| 0 <= li < n ==>
                    (#[trigger] has_bit(masks@[li], jj) <==> ((0 <= jj < j && cube_has(*lex, cv[jj], li))
                        || (jj == j && cube_has_upto(*lex, cv[j as int], li, f as int)))),
            decreases cube.len() - f,
        {
            assert(cv[j as int][f as int] == cube@[f as int]@);
            match compile_face_token(lex, cube[f].as_str()) {
                Err(_) => {
                    return Err((j, f));
                },
                Ok(c) => {
                    proof {
                        crate::alphabet::lemma_letter_index_props(alpha@, c);
                    }
                    let ghost old_masks = masks@;
                    match char_index(alpha, c) {
                        Some(li) => {
                            if j >= 64 {
                                return Err((j, f));
                            }
                            let old_m = masks[li];
                            masks.set(li, old_m | (1u64 << (j as u64)));
                            proof {
                                lemma_mask_step(*lex, cv, j as int, f as int, old_masks, masks@, Some(li as int));
                            }
                        },
                        None => {
                            proof {
                                lemma_mask_step(*lex, cv, j as int, f as int, old_masks, masks@, None);
                            }
                        },
                    }
                },
            }
            f += 1;
        }
        j += 1;
    }
    Ok(masks)
}

proof fn lemma_mask_step(lex: Lexicon, cv: Seq<Seq<Seq<char>>>, j: int, f: int, old_masks: Seq<u64>,
    new_masks: Seq<u64>, li: Option<int>)
    requires
        0 <= j < cv.len(),
        0 <= f < cv[j].len(),
        face_ok(lex, cv[j][f]),
        li is Some ==> j < 64,
        li == face_letter(lex, cv[j][f]),
        old_masks.len() == new_masks.len(),
        li matches Some(l) ==> 0 <= l < old_masks.len() && new_masks == old_masks.update(l, old_masks[l] | (1u64 << (j as u64))),
        li is None ==> new_masks == old_masks,
        forall|l: int, jj: int| 0 <= l < old_masks.len() ==>
            (#[trigger] has_bit(old_masks[l], jj) <==> ((0 <= jj < j && cube_has(lex, cv[jj], l))
                || (jj == j && cube_has_upto(lex, cv[j], l, f)))),
    ensures
        forall|l: int, jj: int| 0 <= l < new_masks.len() ==>
            (#[trigger] has_bit(new_masks[l], jj) <==> ((0 <= jj < j && cube_has(lex, cv[jj], l))
                || (jj == j && cube_has_upto(lex, cv[j], l, f + 1)))),
{
    assert forall|l: int, jj: int| 0 <= l < new_masks.len() implies (#[trigger] has_bit(new_masks[l], jj)
        <==> ((0 <= jj < j && cube_has(lex, cv[jj], l)) || (jj == j && cube_has_upto(lex, cv[j], l, f + 1)))) by {
        assert(has_bit(old_masks[l], jj) <==> ((0 <= jj < j && cube_has(lex, cv[jj], l))
                || (jj == j && cube_has_upto(lex, cv[j], l, f))));
        if li == Some(l) {
            lemma_bit_or(old_masks[l], 1u64 << (j as u64), jj);
            lemma_bit_single(j as u64, jj);
        }
        if cube_has_upto(lex, cv[j], l, f + 1) && !cube_has_upto(lex, cv[j], l, f) {
            let g = choose|g: int| 0 <= g < f + 1 && g < cv[j].len() && face_ok(lex, cv[j][g])
                && #[trigger] face_letter(lex, cv[j][g]) == Some(l);
            assert(g == f);
        }
        if li == Some(l) {
            assert(face_letter(lex, cv[j][f]) == Some(l));
            assert(cube_has_upto(lex, cv[j], l, f + 1));
        }
        if cube_has_upto(lex, cv[j], l, f) {
            let g = choose|g: int| 0 <= g < f && g < cv[j].len() && face_ok(lex, cv[j][g])
                && #[trigger] face_letter(lex, cv[j][g]) == Some(l);
            assert(face_letter(lex, cv[j][g]) == Some(l));
            assert(cube_has_upto(lex, cv[j], l, f + 1));
        }
    }
}

/* ------------------------- Java-style array text ------------------------- */

/// Scanner state for a Java-style array literal of cubes.
#[verifier::ext_equal]
pub struct JsScan {
    pub depth: nat,
    pub in_string: bool,
    pub quote: char,
    pub escape: bool,
    pub token: Seq<char>,
    pub faces: Seq<Seq<char>>,
    pub cubes: Seq<Seq<Seq<char>>>,
    pub stopped: bool,
    pub nested: bool,
}

pub open spec fn js_start() -> JsScan {
    JsScan {
        depth: 0,
        in_string: false,
        quote: ' ',
        escape: false,
        token: Seq::empty(),
        faces: Seq::empty(),
        cubes: Seq::empty(),
        stopped: false,
        nested: false,
    }
}

/// One scalar of the scan.  Inside a quoted token a backslash makes the
/// next scalar literal and the opening quote closes the token; outside,
/// quotes open a token only within a cube, `[` opens a level (a third level
/// is an error), `]` closes one (closing a cube at level two), and a `]`
/// with no open level ends the scan.  Everything else is skipped.
pub open spec fn js_step(st: JsScan, c: char) -> JsScan {
    if st.stopped {
        st
    } else if st.escape {
        JsScan { escape: false, token: st.token.push(c), ..st }
    } else if st.in_string {
        if c == st.quote {
            JsScan { in_string: false, faces: st.faces.push(st.token), token: Seq::empty(), ..st }
        } else if c == '\\' {
            JsScan { escape: true, ..st }
        } else {
            JsScan { token: st.token.push(c), ..st }
        }
    } else if (c == '\'' || c == '"') && st.depth >= 2 {
        JsScan { in_string: true, quote: c, token: Seq::empty(), ..st }
    } else if c == '[' {
        if st.depth + 1 == 3 {
            JsScan { stopped: true, nested: true, ..st }
        } else {
            JsScan { depth: (st.depth + 1) as nat, ..st }
        }
    } else if c == ']' {
        let closed = if st.depth == 2 {
            JsScan { cubes: st.cubes.push(st.faces), faces: Seq::empty(), ..st }
        } else {
            st
        };
        if st.depth == 0 {
            JsScan { stopped: true, ..closed }
        } else {
            JsScan { depth: (st.depth - 1) as nat, ..closed }
        }
    } else {
        st
    }
}

/// The scan of a whole text.
pub open spec fn js_run(s: Seq<char>) -> JsScan
    decreases s.len(),
{
    if s.len() == 0 {
        js_start()
    } else {
        js_step(js_run(s.drop_last()), s.last())
    }
}

/// Why a cube file is refused.
pub enum CubeError {
    /// The text has no `[`.
    NoArray,
    /// An array is nested three levels deep.
    Nested,
    /// A face token (cube index, token) does not compile to exactly one letter.
    BadFace(usize, String),
    /// No cube was closed.
    NoCubes,
    /// A face of a cube past the 64th is an alphabet letter, and a mask has
    /// bits for 64 cubes only (the number of cubes found).
    TooManyCubes(usize),
    /// No `set("...")` entry was found.
    NoSets,
}

struct Scanner {
    depth: usize,
    in_string: bool,
    quote: char,
    escape: bool,
    token: Vec<char>,
    faces: Vec<Vec<char>>,
    cubes: Vec<Vec<String>>,
    stopped: bool,
    nested: bool,
}

spec fn scanner_view(sc: Scanner) -> JsScan {
    JsScan {
        depth: sc.depth as nat,
        in_string: sc.in_string,
        quote: sc.quote,
        escape: sc.escape,
        token: sc.token@,
        faces: face_views(sc.faces@),
        cubes: Seq::new(sc.cubes@.len(), |i: int| sc.cubes@[i]@.map_values(|t: String| t@)),
        stopped: sc.stopped,
        nested: sc.nested,
    }
}

/// The scalars of each face.
spec fn face_views(faces: Seq<Vec<char>>) -> Seq<Seq<char>> {
    Seq::new(faces.len(), |i: int| faces[i]@)
}

fn face_strings(faces: &Vec<Vec<char>>) -> (r: Vec<String>)
    ensures
        r@.map_values(|t: String| t@) == face_views(faces@),
{
    let mut out: Vec<String> = Vec::new();
    let mut i: usize = 0;
    assert(out@.map_values(|t: String| t@) =~= face_views(faces@.take(0)));
    while i < faces.len()
        invariant
            i <= faces.len(),
            out@.map_values(|t: String| t@) == face_views(faces@.take(i as int)),
        decreases faces.len() - i,
    {
        let ghost o0 = out@.map_values(|t: String| t@);
        out.push(string_from_chars(&faces[i]));
        assert(out@.map_values(|t: String| t@) =~= o0.push(faces@[i as int]@));
        assert(face_views(faces@.take(i + 1)) =~= face_views(faces@.take(i as int)).push(faces@[i as int]@));
        i += 1;
    }
    assert(faces@.take(faces.len() as int) =~= faces@);
    out
}

fn scan_step(sc: &mut Scanner, c: char)
    requires
        old(sc).depth < 3,
    ensures
        scanner_view(*final(sc)) == js_step(scanner_view(*old(sc)), c),
        final(sc).depth < 3,
{
    let ghost v0 = scanner_view(*sc);
    if sc.stopped {
    } else if sc.escape {
        sc.escape = false;
        sc.token.push(c);
    } else if sc.in_string {
        if c == sc.quote {
            sc.in_string = false;
            let mut t: Vec<char> = Vec::new();
            std::mem::swap(&mut t, &mut sc.token);
            sc.faces.push(t);
            assert(face_views(sc.faces@) =~= v0.faces.push(v0.token));
        } else if c == '\\' {
            sc.escape = true;
        } else {
            sc.token.push(c);
        }
    } else if (c == '\'' || c == '"') && sc.depth >= 2 {
        sc.in_string = true;
        sc.quote = c;
        sc.token = Vec::new();
    } else if c == '[' {
        if sc.depth + 1 == 3 {
            sc.stopped = true;
            sc.nested = true;
        } else {
            sc.depth = sc.depth + 1;
        }
    } else if c == ']' {
        if sc.depth == 2 {
            let mut fs: Vec<Vec<char>> = Vec::new();
            std::mem::swap(&mut fs, &mut sc.faces);
            let strs = face_strings(&fs);
            sc.cubes.push(strs);
            assert(Seq::new(sc.cubes@.len(), |i: int| sc.cubes@[i]@.map_values(|t: String| t@))
                =~= v0.cubes.push(v0.faces));
        }
        if sc.depth == 0 {
            sc.stopped = true;
        } else {
            sc.depth = sc.depth - 1;
        }
    }
    assert(scanner_view(*sc) =~= js_step(v0, c));
}

/// The first face that is not clear compiles to an alphabet letter on a
/// cube past the 64th.
pub open spec fn first_overflow_face(lex: Lexicon, cubes: Seq<Seq<Seq<char>>>) -> bool {
    exists|j: int, f: int| 0 <= j < cubes.len() && 0 <= f < cubes[j].len() && #[trigger] faces_ok_before(lex, cubes, j, f)
        && face_ok(lex, cubes[j][f]) && !face_clear(lex, j, cubes[j][f])
}

/// `t` is the first face that is not clear, in cube `j`, and it does not
/// compile to one letter.
pub open spec fn first_bad_face(lex: Lexicon, cubes: Seq<Seq<Seq<char>>>, j: int, t: Seq<char>) -> bool {
    exists|f: int| 0 <= f < cubes[j].len() && 0 <= j < cubes.len() && #[trigger] faces_ok_before(lex, cubes, j, f)
        && !face_ok(lex, cubes[j][f]) && t == cubes[j][f]
}

/// The scan of a cube text from its first `[`; `None` without one.
pub open spec fn js_scan_of(s: Seq<char>) -> Option<JsScan> {
    match find_char(s, '[') {
        Some(i) => Some(js_run(s.skip(i))),
        None => None,
    }
}

/// The face tokens of each cube of a Java-style text, and whether the scan
/// stopped at a third nesting level.
pub fn scan_js_cubes(text: &str) -> (r: Option<(Vec<Vec<String>>, bool)>)
    ensures
        match r {
            None => js_scan_of(text@) is None,
            Some((cubes, nested)) => js_scan_of(text@) matches Some(st)
                && cubes@.map_values(|c: Vec<String>| c@.map_values(|t: String| t@)) == st.cubes
                && nested == st.nested,
        },
{
    let cs = chars_of(text);
    let mut i: usize = 0;
    while i < cs.len() && cs[i] != '['
        invariant
            i <= cs.len(),
            forall|j: int| 0 <= j < i ==> cs@[j] != '[',
        decreases cs.len() - i,
    {
        i += 1;
    }
    if i == cs.len() {
        return None;
    }
    proof {
        assert(cs@.contains('['));
        let k = choose|k: int| 0 <= k < cs@.len() && cs@[k] == '[' && forall|j: int| 0 <= j < k ==> cs@[j] != '[';
        assert(k == i) by {
            if k > i {
                assert(cs@[i as int] == '[');
            }
        }
    }
    let ghost rest = cs@.skip(i as int);
    let mut sc = Scanner {
        depth: 0,
        in_string: false,
        quote: ' ',
        escape: false,
        token: Vec::new(),
        faces: Vec::new(),
        cubes: Vec::new(),
        stopped: false,
        nested: false,
    };
    assert(scanner_view(sc) =~= js_run(rest.take(0)));
    let mut k: usize = i;
    while k < cs.len()
        invariant
            i <= k <= cs.len(),
            rest == cs@.skip(i as int),
            sc.depth < 3,
            scanner_view(sc) == js_run(rest.take(k - i)),
        decreases cs.len() - k,
    {
        scan_step(&mut sc, cs[k]);
        proof {
            assert(rest.take(k + 1 - i).drop_last() =~= rest.take(k - i));
            assert(rest.take(k + 1 - i).last() == cs@[k as int]);
        }
        k += 1;
    }
    assert(rest.take(cs.len() - i) =~= rest);
    let cubes = sc.cubes;
    let nested = sc.nested;
    assert(cubes@.map_values(|c: Vec<String>| c@.map_values(|t: String| t@)) =~= js_run(rest).cubes);
    Some((cubes, nested))
}

/// Whether a face token compiles to exactly one letter.
fn face_compiles(lex: &Lexicon, t: &str) -> (r: bool)
    requires
        lex.wf(),
    ensures
        r == face_ok(*lex, t@),
{
    compile_face_token(lex, t).is_ok()
}

/// Reads a Java-style cube text: `[[...], [...], ...]` with quoted face
/// tokens.  On success returns the letter masks and the number of cubes.
pub fn parse_cubes_jsconst(lex: &Lexicon, alpha: &Alphabet, text: &str) -> (r: Result<(Vec<u64>, usize), CubeError>)
    requires
        lex.wf(),
        alpha@ == lex.symbols@,
    ensures
        match js_scan_of(text@) {
            None => r matches Err(CubeError::NoArray),
            Some(st) => match r {
                Ok((m, n)) => n == st.cubes.len() && 0 < n && !st.nested
                    && faces_ok_before(*lex, st.cubes, n as int, 0) && masks_of(*lex, st.cubes, m@),
                Err(CubeError::TooManyCubes(n)) => n == st.cubes.len() && first_overflow_face(*lex, st.cubes),
                Err(CubeError::BadFace(j, t)) => first_bad_face(*lex, st.cubes, j as int, t@),
                Err(CubeError::Nested) => faces_ok_before(*lex, st.cubes, st.cubes.len() as int, 0) && st.nested,
                Err(CubeError::NoCubes) => st.cubes.len() == 0 && !st.nested,
                Err(_) => false,
            },
        },
{
    let (cubes, nested) = match scan_js_cubes(text) {
        None => {
            return Err(CubeError::NoArray);
        },
        Some(x) => x,
    };
    match compile_cubes(lex, alpha, &cubes) {
        Err((j, f)) => {
            if face_compiles(lex, cubes[j][f].as_str()) {
                proof {
                    let cv = cubes@.map_values(|c: Vec<String>| c@.map_values(|t: String| t@));
                    let st = js_scan_of(text@)->Some_0;
                    assert(cv == st.cubes);
                    assert(cv[j as int][f as int] == cubes@[j as int]@[f as int]@);
                    assert(first_overflow_face(*lex, st.cubes)) by {
                        assert(faces_ok_before(*lex, st.cubes, j as int, f as int));
                    }
                }
                return Err(CubeError::TooManyCubes(cubes.len()));
            }
            let t = cubes[j][f].clone();
            proof {
                let cv = cubes@.map_values(|c: Vec<String>| c@.map_values(|t: String| t@));
                let st = js_scan_of(text@)->Some_0;
                assert(cv == st.cubes);
                assert(cv[j as int][f as int] == t@);
                let fi = f as int;
                assert(0 <= fi < st.cubes[j as int].len() && j < st.cubes.len() && faces_ok_before(*lex, st.cubes, j as int, fi)
                    && !face_ok(*lex, st.cubes[j as int][fi]) && t@ == st.cubes[j as int][fi]);
                assert(first_bad_face(*lex, st.cubes, j as int, t@));
            }
            return Err(CubeError::BadFace(j, t));
        },
        Ok(m) => {
            if nested {
                return Err(CubeError::Nested);
            }
            if cubes.len() == 0 {
                return Err(CubeError::NoCubes);
            }
            Ok((m, cubes.len()))
        },
    }
}

/* --------------------------- pythonic set text --------------------------- */

/// The scalars that `\s` matches: Unicode `White_Space`.
pub open spec fn is_re_space(c: char) -> bool {
    ('\t' <= c && c <= '\r') || c == ' ' || c == '\u{85}' || c == '\u{a0}' || c == '\u{1680}'
        || ('\u{2000}' <= c && c <= '\u{200a}') || c == '\u{2028}' || c == '\u{2029}' || c == '\u{202f}'
        || c == '\u{205f}' || c == '\u{3000}'
}

/// A scalar of `[A-Za-z]`.
pub open spec fn is_ascii_letter(c: char) -> bool {
    ('A' <= c && c <= 'Z') || ('a' <= c && c <= 'z')
}

/// A scalar of `['"]`.
pub open spec fn is_quote(c: char) -> bool {
    c == '\'' || c == '"'
}

/// The end of the run of `\s` scalars starting at `i`.
pub open spec fn skip_space(s: Seq<char>, i: int) -> int
    decreases s.len() - i,
{
    if 0 <= i < s.len() && is_re_space(s[i]) {
        skip_space(s, i + 1)
    } else {
        i
    }
}

/// The end of the run of `[A-Za-z]` scalars starting at `i`.
pub open spec fn skip_letters(s: Seq<char>, i: int) -> int
    decreases s.len() - i,
{
    if 0 <= i < s.len() && is_ascii_letter(s[i]) {
        skip_letters(s, i + 1)
    } else {
        i
    }
}

pub proof fn lemma_skip_space_ge(s: Seq<char>, i: int)
    ensures
        skip_space(s, i) >= i,
    decreases s.len() - i,
{
    if 0 <= i < s.len() && is_re_space(s[i]) {
        lemma_skip_space_ge(s, i + 1);
    }
}

/// The match of `set\(\s*(['"])([A-Za-z]+)(['"])\s*\)` that starts at `i`,
/// if any: where it ends, and its three groups.  Each part can end in one
/// place only (spaces are neither quotes nor letters), so the match at a
/// given start is unique.
pub open spec fn set_match(s: Seq<char>, i: int) -> Option<(int, (Seq<char>, Seq<char>, Seq<char>))> {
    if 0 <= i && i + 4 <= s.len() && s[i] == 's' && s[i + 1] == 'e' && s[i + 2] == 't' && s[i + 3] == '(' {
        let a = skip_space(s, i + 4);
        let b = skip_letters(s, a + 1);
        let c = skip_space(s, b + 1);
        if a < s.len() && is_quote(s[a]) && b > a + 1 && b < s.len() && is_quote(s[b]) && c < s.len() && s[c] == ')' {
            Some((c + 1, (seq![s[a]], s.subrange(a + 1, b), seq![s[b]])))
        } else {
            None
        }
    } else {
        None
    }
}

/// The successive non-overlapping matches from position `i` on, leftmost
/// first: each search starts where the previous match ended.
pub open spec fn captures_from(s: Seq<char>, i: int) -> Seq<(Seq<char>, Seq<char>, Seq<char>)>
    decreases s.len() - i,
{
    if i < 0 || i >= s.len() {
        Seq::empty()
    } else {
        match set_match(s, i) {
            Some((e, g)) => {
                proof {
                    let a = skip_space(s, i + 4);
                    let b = skip_letters(s, a + 1);
                    lemma_skip_space_ge(s, i + 4);
                    lemma_skip_space_ge(s, b + 1);
                }
                seq![g] + captures_from(s, e)
            },
            None => captures_from(s, i + 1),
        }
    }
}

/// The captures of `set\(\s*(['"])([A-Za-z]+)(['"])\s*\)` over a text, in
/// order: opening quote, letters, closing quote.
pub open spec fn set_captures(s: Seq<char>) -> Seq<(Seq<char>, Seq<char>, Seq<char>)> {
    captures_from(s, 0)
}

/// `regex::Regex::captures_iter` with the pythonic set pattern (built with
/// `Regex::new`, which accepts this constant pattern), each capture taken as
/// its three groups: the successive non-overlapping leftmost matches that
/// `set_captures` states.
#[verifier::external_body]
fn python_set_captures(s: &str) -> (r: Vec<(String, String, String)>)
    ensures
        r@.map_values(|c: (String, String, String)| (c.0@, c.1@, c.2@)) == set_captures(s@),
{
    let re = regex::Regex::new(r#"set\(\s*(['"])([A-Za-z]+)(['"])\s*\)"#).unwrap();
    re.captures_iter(s).map(|cap| (cap[1].to_string(), cap[2].to_string(), cap[3].to_string())).collect()
}

/// The letter strings of the captures whose quotes match.
pub open spec fn matched_sets(caps: Seq<(Seq<char>, Seq<char>, Seq<char>)>) -> Seq<Seq<char>>
    decreases caps.len(),
{
    if caps.len() == 0 {
        Seq::empty()
    } else {
        let prev = matched_sets(caps.drop_last());
        if caps.last().0 == caps.last().2 {
            prev.push(caps.last().1)
        } else {
            prev
        }
    }
}

/// Cube `j`'s face string compiles to some letter `li`.
pub open spec fn set_has(lex: Lexicon, letters: Seq<char>, li: int) -> bool {
    exists|k: int| 0 <= k < face_compiled(lex, letters).len()
        && #[trigger] letter_index(lex.symbols@, face_compiled(lex, letters)[k]) == Some(li)
}

/// Reads pythonic cube text: `set("...")` entries; entries with mismatched
/// quotes are skipped; at most `max_cubes` cubes are used.  Each entry's
/// letters are compiled as one text.  On success returns the masks, the
/// number of entries used and the number skipped.
pub fn parse_cubes_pythonic(lex: &Lexicon, alpha: &Alphabet, text: &str, max_cubes: usize)
    -> (r: Result<(Vec<u64>, usize, usize), CubeError>)
    requires
        lex.wf(),
        alpha@ == lex.symbols@,
        max_cubes <= 64,
    ensures
        ({
            let sets = matched_sets(set_captures(text@));
            match r {
                Ok((m, used, skipped)) => sets.len() > 0 && used == (if sets.len() < max_cubes { sets.len() } else { max_cubes as nat })
                    && skipped == set_captures(text@).len() - sets.len()
                    && m@.len() == lex.symbols@.len()
                    && forall|li: int, j: int| 0 <= li < m@.len() ==>
                        (#[trigger] has_bit(m@[li], j) <==> (0 <= j < used && set_has(*lex, sets[j], li))),
                Err(CubeError::NoSets) => sets.len() == 0,
                Err(_) => false,
            }
        }),
{
    let caps = python_set_captures(text);
    let ghost cv = caps@.map_values(|c: (String, String, String)| (c.0@, c.1@, c.2@));
    let mut sets: Vec<String> = Vec::new();
    let mut i: usize = 0;
    assert(cv.take(0) =~= Seq::<(Seq<char>, Seq<char>, Seq<char>)>::empty());
    assert(sets@.map_values(|t: String| t@) =~= matched_sets(cv.take(0)));
    while i < caps.len()
        invariant
            i <= caps.len(),
            cv == caps@.map_values(|c: (String, String, String)| (c.0@, c.1@, c.2@)),
            sets@.map_values(|t: String| t@) == matched_sets(cv.take(i as int)),
            sets.len() <= i,
        decreases caps.len() - i,
    {
        assert(cv.take(i + 1).drop_last() =~= cv.take(i as int));
        let ghost s0 = sets@.map_values(|t: String| t@);
        if caps[i].0 == caps[i].2 {
            sets.push(caps[i].1.clone());
            assert(sets@.map_values(|t: String| t@) =~= s0.push(caps@[i as int].1@));
        }
        i += 1;
    }
    assert(cv.take(caps.len() as int) =~= cv);
    let ghost sv = sets@.map_values(|t: String| t@);
    if sets.len() == 0 {
        return Err(CubeError::NoSets);
    }
    let used: usize = if sets.len() < max_cubes { sets.len() } else { max_cubes };
    let n = crate::alphabet::n_letters(alpha);
    let mut masks: Vec<u64> = Vec::new();
    while masks.len() < n
        invariant
            masks.len() <= n,
            forall|li: int| 0 <= li < masks.len() ==> masks@[li] == 0u64,
        decreases n - masks.len(),
    {
        masks.push(0u64);
    }
    proof {
        assert forall|li: int, j: int| 0 <= li < masks.len() implies !#[trigger] has_bit(masks@[li], j) by {
            if 0 <= j < 64 {
                let jj = j as u64;
                assert((0u64 >> jj) & 1u64 == 0u64) by (bit_vector);
            }
        }
    }
    let mut j: usize = 0;
    while j < used
        invariant
            lex.wf(),
            alpha@ == lex.symbols@,
            n == lex.symbols@.len(),
            used <= sets.len(),
            used <= 64,
            j <= used,
            sv == sets@.map_values(|t: String| t@),
            masks.len() == n,
            forall|li: int, jj: int| 0 <= li < n ==>
                (#[trigger] has_bit(masks@[li], jj) <==> (0 <= jj < j && set_has(*lex, sv[jj], li))),
        decreases used - j,
    {
        let compiled = chars_of(regularize_name(lex, sets[j].as_str()).as_str());
        assert(compiled@ == face_compiled(*lex, sv[j as int]));
        let mut k: usize = 0;
        while k < compiled.len()
            invariant
                lex.wf(),
                alpha@ == lex.symbols@,
                n == lex.symbols@.len(),
                j < used <= 64,
                used <= sv.len(),
                k <= compiled.len(),
                compiled@ == face_compiled(*lex, sv[j as int]),
                masks.len() == n,
                forall|li: int, jj: int| 0 <= li < n ==>
                    (#[trigger] has_bit(masks@[li], jj) <==> ((0 <= jj < j && set_has(*lex, sv[jj], li))
                        || (jj == j && letters_upto(*lex, compiled@, li, k as int)))),
            decreases compiled.len() - k,
        {
            let c = compiled[k];
            proof {
                crate::alphabet::lemma_letter_index_props(alpha@, c);
            }
            let ghost old_masks = masks@;
            match char_index(alpha, c) {
                Some(li) => {
                    let old_m = masks[li];
                    masks.set(li, old_m | (1u64 << (j as u64)));
                    proof {
                        lemma_set_mask_step(*lex, sv, j as int, k as int, compiled@, old_masks, masks@, Some(li as int));
                    }
                },
                None => {
                    proof {
                        lemma_set_mask_step(*lex, sv, j as int, k as int, compiled@, old_masks, masks@, None);
                    }
                },
            }
            k += 1;
        }
        proof {
            assert forall|li: int, jj: int| 0 <= li < n implies (#[trigger] has_bit(masks@[li], jj)
                <==> (0 <= jj < j + 1 && set_has(*lex, sv[jj], li))) by {
                lemma_letters_upto_all(*lex, sv[j as int], li);
            }
        }
        j += 1;
    }
    Ok((masks, used, caps.len() - sets.len()))
}

/// Some of the first `k` compiled letters is letter `l`.
pub open spec fn letters_upto(lex: Lexicon, compiled: Seq<char>, l: int, k: int) -> bool {
    exists|q: int| 0 <= q < k && #[trigger] letter_index(lex.symbols@, compiled[q]) == Some(l)
}

proof fn lemma_set_mask_step(lex: Lexicon, sv: Seq<Seq<char>>, j: int, k: int, compiled: Seq<char>,
    old_masks: Seq<u64>, new_masks: Seq<u64>, li: Option<int>)
    requires
        0 <= j < 64,
        j < sv.len(),
        0 <= k < compiled.len(),
        li == letter_index(lex.symbols@, compiled[k]),
        old_masks.len() == new_masks.len(),
        li matches Some(l) ==> 0 <= l < old_masks.len() && new_masks == old_masks.update(l, old_masks[l] | (1u64 << (j as u64))),
        li is None ==> new_masks == old_masks,
        forall|l: int, jj: int| 0 <= l < old_masks.len() ==>
            (#[trigger] has_bit(old_masks[l], jj) <==> ((0 <= jj < j && set_has(lex, sv[jj], l))
                || (jj == j && letters_upto(lex, compiled, l, k)))),
    ensures
        forall|l: int, jj: int| 0 <= l < new_masks.len() ==>
            (#[trigger] has_bit(new_masks[l], jj) <==> ((0 <= jj < j && set_has(lex, sv[jj], l))
                || (jj == j && letters_upto(lex, compiled, l, k + 1)))),
{
    assert forall|l: int, jj: int| 0 <= l < new_masks.len() implies (#[trigger] has_bit(new_masks[l], jj)
        <==> ((0 <= jj < j && set_has(lex, sv[jj], l)) || (jj == j && letters_upto(lex, compiled, l, k + 1)))) by {
        assert(has_bit(old_masks[l], jj) <==> ((0 <= jj < j && set_has(lex, sv[jj], l))
            || (jj == j && letters_upto(lex, compiled, l, k))));
        if li == Some(l) {
            lemma_bit_or(old_masks[l], 1u64 << (j as u64), jj);
            lemma_bit_single(j as u64, jj);
            assert(letter_index(lex.symbols@, compiled[k]) == Some(l));
        }
        if letters_upto(lex, compiled, l, k + 1) {
            let q = choose|q: int| 0 <= q < k + 1 && #[trigger] letter_index(lex.symbols@, compiled[q]) == Some(l);
            if q < k {
                assert(letters_upto(lex, compiled, l, k));
            }
        }
        if letters_upto(lex, compiled, l, k) {
            let q = choose|q: int| 0 <= q < k && #[trigger] letter_index(lex.symbols@, compiled[q]) == Some(l);
            assert(letter_index(lex.symbols@, compiled[q]) == Some(l));
        }
    }
}

proof fn lemma_letters_upto_all(lex: Lexicon, letters: Seq<char>, l: int)
    ensures
        letters_upto(lex, face_compiled(lex, letters), l, face_compiled(lex, letters).len() as int)
            == set_has(lex, letters, l),
{
}

} // verus!
