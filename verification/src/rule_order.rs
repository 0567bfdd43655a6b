//! The order of rewrite rules: longest left-hand side first (in UTF-8
//! bytes), ties by the left-hand side's lexicographic order, equal
//! left-hand sides kept in the order they were produced; then adjacent
//! repeats collapsed.

use vstd::prelude::*;
use crate::catalog::rule_views;
use crate::filters::{utf8_len, utf8_width};
use crate::lexorder::{chars_lt, char_seq_lt, lemma_lt_irreflexive, lemma_lt_total, lemma_lt_transitive, scalar_value};
use crate::text::chars_of;

verus! {

broadcast use vstd::string::group_string_axioms;

/// A rule as the specifications see it: left-hand side, right-hand side.
pub type RuleView = (Seq<char>, Seq<char>);

/// Left-hand side `a` sorts strictly before `b`: more UTF-8 bytes, or as
/// many and lexicographically smaller.
pub open spec fn lhs_before(a: Seq<char>, b: Seq<char>) -> bool {
    utf8_len(a) > utf8_len(b) || (utf8_len(a) == utf8_len(b) && char_seq_lt(a, b))
}

/// No rule is followed by one whose left-hand side sorts before its own.
pub open spec fn rules_sorted(r: Seq<RuleView>) -> bool {
    forall|i: int, j: int| 0 <= i < j < r.len() ==> !lhs_before(#[trigger] r[j].0, #[trigger] r[i].0)
}

/// The rules of `s` whose left-hand side is `x`, in order.
pub open spec fn class_of(s: Seq<RuleView>, x: Seq<char>) -> Seq<RuleView>
    decreases s.len(),
{
    if s.len() == 0 {
        Seq::empty()
    } else if s.last().0 == x {
        class_of(s.drop_last(), x).push(s.last())
    } else {
        class_of(s.drop_last(), x)
    }
}

/// `s` with each run of equal neighbours collapsed to one element.
pub open spec fn dedup_adjacent(s: Seq<RuleView>) -> Seq<RuleView>
    decreases s.len(),
{
    if s.len() <= 1 {
        s
    } else if s[s.len() - 2] == s.last() {
        dedup_adjacent(s.drop_last())
    } else {
        dedup_adjacent(s.drop_last()).push(s.last())
    }
}

/// `out` is `s` sorted stably by left-hand side and with adjacent repeats
/// collapsed: it is sorted, and for each left-hand side its rules are those
/// of `s`, in the order of `s`, with repeats in a row removed.
pub open spec fn ordered_rules_of(out: Seq<RuleView>, s: Seq<RuleView>) -> bool {
    &&& rules_sorted(out)
    &&& forall|x: Seq<char>| #[trigger] class_of(out, x) == dedup_adjacent(class_of(s, x))
}

/// The ordering of `s`: sorted stably by left-hand side, adjacent repeats
/// collapsed (the one sequence that [`ordered_rules_of`] admits).
pub open spec fn ordered(s: Seq<RuleView>) -> Seq<RuleView> {
    choose|o: Seq<RuleView>| ordered_rules_of(o, s)
}

proof fn lemma_dedup_last(u: Seq<RuleView>)
    requires
        u.len() > 0,
    ensures
        dedup_adjacent(u).len() > 0,
        dedup_adjacent(u).last() == u.last(),
    decreases u.len(),
{
    if u.len() > 1 && u[u.len() - 2] == u.last() {
        lemma_dedup_last(u.drop_last());
    }
}

proof fn lemma_dedup_distinct_neighbours(u: Seq<RuleView>)
    ensures
        forall|j: int| 0 <= j < dedup_adjacent(u).len() - 1 ==> #[trigger] dedup_adjacent(u)[j] != dedup_adjacent(u)[j + 1],
    decreases u.len(),
{
    if u.len() > 1 {
        lemma_dedup_distinct_neighbours(u.drop_last());
        if u[u.len() - 2] == u.last() {
            assert(dedup_adjacent(u) == dedup_adjacent(u.drop_last()));
        } else {
            lemma_dedup_last(u.drop_last());
            let d = dedup_adjacent(u.drop_last());
            assert forall|j: int| 0 <= j < dedup_adjacent(u).len() - 1 implies #[trigger] dedup_adjacent(u)[j] != dedup_adjacent(u)[j + 1] by {
                if j < d.len() - 1 {
                    assert(d[j] != d[j + 1]);
                }
            }
        }
    }
}

proof fn lemma_class_prefix(s: Seq<RuleView>, x: Seq<char>, m: int)
    requires
        0 <= m <= s.len(),
    ensures
        class_of(s.take(m), x).len() <= class_of(s, x).len(),
        class_of(s, x).take(class_of(s.take(m), x).len() as int) == class_of(s.take(m), x),
    decreases s.len(),
{
    if m == s.len() {
        assert(s.take(m) =~= s);
        assert(class_of(s, x).take(class_of(s, x).len() as int) =~= class_of(s, x));
    } else {
        assert(s.take(m) =~= s.drop_last().take(m));
        lemma_class_prefix(s.drop_last(), x, m);
        let c = class_of(s.drop_last(), x);
        let p = class_of(s.take(m), x);
        if s.last().0 == x {
            assert(c.push(s.last()).take(p.len() as int) =~= c.take(p.len() as int));
        }
    }
}

proof fn lemma_class_contains(s: Seq<RuleView>, x: RuleView)
    requires
        s.contains(x),
    ensures
        class_of(s, x.0).contains(x),
    decreases s.len(),
{
    if s.last() == x {
        assert(class_of(s, x.0) == class_of(s.drop_last(), x.0).push(x));
        assert(class_of(s, x.0)[class_of(s, x.0).len() - 1] == x);
    } else {
        let k = choose|k: int| 0 <= k < s.len() && s[k] == x;
        assert(s.drop_last()[k] == x);
        lemma_class_contains(s.drop_last(), x);
        let c = class_of(s.drop_last(), x.0);
        let j = choose|j: int| 0 <= j < c.len() && c[j] == x;
        if s.last().0 == x.0 {
            assert(class_of(s, x.0)[j] == x);
        }
    }
}

proof fn lemma_class_within(s: Seq<RuleView>, y: Seq<char>, x: RuleView)
    requires
        class_of(s, y).contains(x),
    ensures
        s.contains(x),
    decreases s.len(),
{
    let c = class_of(s, y);
    let j = choose|j: int| 0 <= j < c.len() && c[j] == x;
    if s.last().0 == y && j == c.len() - 1 {
        assert(s[s.len() - 1] == x);
    } else {
        let c0 = class_of(s.drop_last(), y);
        assert(c0[j] == x);
        lemma_class_within(s.drop_last(), y, x);
        let k = choose|k: int| 0 <= k < s.drop_last().len() && s.drop_last()[k] == x;
        assert(s[k] == x);
    }
}

proof fn lemma_dedup_contains(u: Seq<RuleView>, x: RuleView)
    requires
        u.contains(x),
    ensures
        dedup_adjacent(u).contains(x),
    decreases u.len(),
{
    if u.len() <= 1 {
    } else if u.last() == x {
        lemma_dedup_last(u);
        assert(dedup_adjacent(u)[dedup_adjacent(u).len() - 1] == x);
    } else {
        let k = choose|k: int| 0 <= k < u.len() && u[k] == x;
        assert(u.drop_last()[k] == x);
        lemma_dedup_contains(u.drop_last(), x);
        let d = dedup_adjacent(u.drop_last());
        let j = choose|j: int| 0 <= j < d.len() && d[j] == x;
        if u[u.len() - 2] != u.last() {
            assert(dedup_adjacent(u)[j] == x);
        }
    }
}

/// An ordering of `s` keeps every rule of `s`.
pub proof fn lemma_ordered_keeps(out: Seq<RuleView>, s: Seq<RuleView>, x: RuleView)
    requires
        ordered_rules_of(out, s),
        s.contains(x),
    ensures
        out.contains(x),
{
    lemma_class_contains(s, x);
    lemma_dedup_contains(class_of(s, x.0), x);
    assert(class_of(out, x.0) == dedup_adjacent(class_of(s, x.0)));
    lemma_class_within(out, x.0, x);
}

/// An ordered rule list has no two equal neighbours.
pub proof fn lemma_ordered_no_adjacent_repeats(out: Seq<RuleView>, s: Seq<RuleView>)
    requires
        ordered_rules_of(out, s),
    ensures
        forall|i: int| 0 <= i < out.len() - 1 ==> #[trigger] out[i] != out[i + 1],
{
    assert forall|i: int| 0 <= i < out.len() - 1 implies #[trigger] out[i] != out[i + 1] by {
        if out[i] == out[i + 1] {
            let x = out[i].0;
            let p0 = class_of(out.take(i), x);
            assert(out.take(i + 2).drop_last() =~= out.take(i + 1));
            assert(out.take(i + 1).drop_last() =~= out.take(i));
            let p2 = class_of(out.take(i + 2), x);
            assert(out.take(i + 1).last() == out[i]);
            assert(out.take(i + 2).last() == out[i + 1]);
            assert(class_of(out.take(i + 1), x) == p0.push(out[i]));
            assert(p2 == class_of(out.take(i + 1), x).push(out[i + 1]));
            lemma_class_prefix(out, x, i + 2);
            let cc = class_of(out, x);
            assert(cc[p0.len() as int] == p2[p0.len() as int]);
            assert(cc[p0.len() as int + 1] == p2[p0.len() as int + 1]);
            lemma_dedup_distinct_neighbours(class_of(s, x));
            assert(cc == dedup_adjacent(class_of(s, x)));
            assert(cc[p0.len() as int] != cc[p0.len() as int + 1]);
        }
    }
}

/// Two sorted rule sequences with the same rules for every left-hand side
/// are equal.
pub proof fn lemma_sorted_classes_unique(o1: Seq<RuleView>, o2: Seq<RuleView>)
    requires
        rules_sorted(o1),
        rules_sorted(o2),
        forall|x: Seq<char>| #[trigger] class_of(o1, x) == class_of(o2, x),
    ensures
        o1 == o2,
    decreases o1.len() + o2.len(),
{
    if o1.len() == 0 && o2.len() == 0 {
        assert(o1 =~= o2);
    } else if o1.len() == 0 {
        assert(class_of(o2, o2.last().0) == class_of(o1, o2.last().0));
        assert(o2.drop_last().push(o2.last()) =~= o2);
        lemma_class_push(o2.drop_last(), o2.last(), o2.last().0);
    } else if o2.len() == 0 {
        assert(class_of(o1, o1.last().0) == class_of(o2, o1.last().0));
        assert(o1.drop_last().push(o1.last()) =~= o1);
        lemma_class_push(o1.drop_last(), o1.last(), o1.last().0);
    } else {
        let a = o1.last();
        let b = o2.last();
        let x = a.0;
        let y = b.0;
        assert(o1.drop_last().push(a) =~= o1);
        assert(o2.drop_last().push(b) =~= o2);
        lemma_class_push(o1.drop_last(), a, x);
        lemma_class_push(o2.drop_last(), b, y);
        if x != y {
            lemma_before_total(x, y);
            if lhs_before(x, y) {
                // y's rules in o1 all sort no later than a, yet y sorts after x
                assert(class_of(o1, y) == class_of(o2, y));
                lemma_class_push(o1.drop_last(), a, y);
                lemma_class_member(o1.drop_last(), y);
                let k = choose|k: int| 0 <= k < o1.drop_last().len() && o1.drop_last()[k].0 == y;
                assert(o1[k].0 == y);
                assert(!lhs_before(o1[o1.len() - 1].0, o1[k].0));
            } else {
                assert(class_of(o1, x) == class_of(o2, x));
                lemma_class_push(o2.drop_last(), b, x);
                lemma_class_member(o2.drop_last(), x);
                let k = choose|k: int| 0 <= k < o2.drop_last().len() && o2.drop_last()[k].0 == x;
                assert(o2[k].0 == x);
                assert(!lhs_before(o2[o2.len() - 1].0, o2[k].0));
            }
        }
        assert(class_of(o1, x) == class_of(o2, x));
        assert(class_of(o1, x).last() == a);
        assert(a == b);
        assert forall|z: Seq<char>| #[trigger] class_of(o1.drop_last(), z) == class_of(o2.drop_last(), z) by {
            lemma_class_push(o1.drop_last(), a, z);
            lemma_class_push(o2.drop_last(), b, z);
            assert(class_of(o1, z) == class_of(o2, z));
            if z == x {
                assert(class_of(o1.drop_last(), z) =~= class_of(o1, z).drop_last());
                assert(class_of(o2.drop_last(), z) =~= class_of(o2, z).drop_last());
            }
        }
        assert forall|i: int, j: int| 0 <= i < j < o1.drop_last().len() implies
            !lhs_before(#[trigger] o1.drop_last()[j].0, #[trigger] o1.drop_last()[i].0) by {
            assert(o1.drop_last()[j] == o1[j] && o1.drop_last()[i] == o1[i]);
        }
        assert forall|i: int, j: int| 0 <= i < j < o2.drop_last().len() implies
            !lhs_before(#[trigger] o2.drop_last()[j].0, #[trigger] o2.drop_last()[i].0) by {
            assert(o2.drop_last()[j] == o2[j] && o2.drop_last()[i] == o2[i]);
        }
        lemma_sorted_classes_unique(o1.drop_last(), o2.drop_last());
    }
}

/// A non-empty class has a member with that left-hand side.
pub proof fn lemma_class_member(s: Seq<RuleView>, x: Seq<char>)
    requires
        class_of(s, x).len() > 0,
    ensures
        exists|k: int| 0 <= k < s.len() && s[k].0 == x,
    decreases s.len(),
{
    if s.last().0 != x {
        lemma_class_member(s.drop_last(), x);
        let k = choose|k: int| 0 <= k < s.drop_last().len() && s.drop_last()[k].0 == x;
        assert(s[k].0 == x);
    } else {
        assert(s[s.len() - 1].0 == x);
    }
}

/// Each rule's left-hand side has a non-empty class.
pub proof fn lemma_class_has(s: Seq<RuleView>, k: int)
    requires
        0 <= k < s.len(),
    ensures
        class_of(s, s[k].0).len() > 0,
    decreases s.len(),
{
    if k < s.len() - 1 {
        lemma_class_has(s.drop_last(), k);
        assert(s.drop_last()[k] == s[k]);
    }
}

proof fn lemma_dedup_empty(s: Seq<RuleView>)
    requires
        s.len() > 0,
    ensures
        dedup_adjacent(s).len() > 0,
    decreases s.len(),
{
    if s.len() > 1 {
        lemma_dedup_empty(s.drop_last());
    }
}

/// Every left-hand side of an ordering is the left-hand side of a rule it orders.
pub proof fn lemma_ordered_sources(out: Seq<RuleView>, s: Seq<RuleView>, k: int)
    requires
        ordered_rules_of(out, s),
        0 <= k < out.len(),
    ensures
        exists|j: int| 0 <= j < s.len() && s[j].0 == out[k].0,
{
    let x = out[k].0;
    lemma_class_has(out, k);
    assert(class_of(out, x) == dedup_adjacent(class_of(s, x)));
    if class_of(s, x).len() == 0 {
        assert(class_of(s, x) =~= Seq::<RuleView>::empty());
        assert(dedup_adjacent(class_of(s, x)).len() == 0);
    } else {
        lemma_dedup_empty(class_of(s, x));
    }
    lemma_class_member(s, x);
}

pub proof fn lemma_before_irreflexive(a: Seq<char>)
    ensures
        !lhs_before(a, a),
{
    lemma_lt_irreflexive(a);
}

pub proof fn lemma_before_transitive(a: Seq<char>, b: Seq<char>, c: Seq<char>)
    requires
        lhs_before(a, b),
        lhs_before(b, c),
    ensures
        lhs_before(a, c),
{
    if utf8_len(a) == utf8_len(b) && utf8_len(b) == utf8_len(c) {
        lemma_lt_transitive(a, b, c);
    }
}

pub proof fn lemma_before_total(a: Seq<char>, b: Seq<char>)
    requires
        a != b,
    ensures
        lhs_before(a, b) || lhs_before(b, a),
{
    lemma_lt_total(a, b);
}

/// Not after: `a` sorts before `b` or has the same left-hand side order.
proof fn lemma_not_after_transitive(a: Seq<char>, b: Seq<char>, c: Seq<char>)
    requires
        !lhs_before(b, a),
        !lhs_before(c, b),
    ensures
        !lhs_before(c, a),
{
    if lhs_before(c, a) {
        if a == b {
        } else if b == c {
        } else {
            lemma_before_total(a, b);
            lemma_before_total(b, c);
            lemma_before_transitive(a, b, c);
            lemma_before_transitive(c, a, b);
            lemma_before_irreflexive(b);
        }
    }
}

/// Between two rules of one left-hand side, every rule of a sorted
/// sequence has that left-hand side.
proof fn lemma_between_same(a: Seq<char>, b: Seq<char>)
    requires
        !lhs_before(b, a),
        !lhs_before(a, b),
    ensures
        a == b,
{
    if a != b {
        lemma_before_total(a, b);
    }
}

proof fn lemma_class_push(s: Seq<RuleView>, e: RuleView, x: Seq<char>)
    ensures
        class_of(s.push(e), x) == (if e.0 == x { class_of(s, x).push(e) } else { class_of(s, x) }),
{
    assert(s.push(e).drop_last() =~= s);
}

proof fn lemma_class_add(a: Seq<RuleView>, b: Seq<RuleView>, x: Seq<char>)
    ensures
        class_of(a + b, x) == class_of(a, x) + class_of(b, x),
    decreases b.len(),
{
    if b.len() == 0 {
        assert(a + b =~= a);
        assert(class_of(a, x) + class_of(b, x) =~= class_of(a, x));
    } else {
        lemma_class_add(a, b.drop_last(), x);
        assert((a + b).drop_last() =~= a + b.drop_last());
        if b.last().0 == x {
            assert(class_of(a, x) + class_of(b.drop_last(), x).push(b.last())
                =~= (class_of(a, x) + class_of(b.drop_last(), x)).push(b.last()));
        }
    }
}

proof fn lemma_class_none(s: Seq<RuleView>, x: Seq<char>)
    requires
        forall|k: int| 0 <= k < s.len() ==> (#[trigger] s[k]).0 != x,
    ensures
        class_of(s, x) == Seq::<RuleView>::empty(),
    decreases s.len(),
{
    if s.len() > 0 {
        lemma_class_none(s.drop_last(), x);
    }
}

proof fn lemma_take_push(s: Seq<RuleView>, i: int)
    requires
        0 <= i < s.len(),
    ensures
        s.take(i + 1) == s.take(i).push(s[i]),
{
    assert(s.take(i + 1) =~= s.take(i).push(s[i]));
}

/// `str::len` of a string given as scalars: its UTF-8 byte count.
fn utf8_count(s: &Vec<char>) -> (r: u128)
    ensures
        r == utf8_len(s@),
{
    let mut n: u128 = 0;
    let mut i: usize = 0;
    while i < s.len()
        invariant
            i <= s.len(),
            n == utf8_len(s@.take(i as int)),
            n <= 4 * i,
        decreases s.len() - i,
    {
        let c = scalar_value(s[i]);
        let w: u128 = if c < 0x80 { 1 } else if c < 0x800 { 2 } else if c < 0x10000 { 3 } else { 4 };
        proof {
            assert(s@.take(i + 1).drop_last() =~= s@.take(i as int));
            assert(w == utf8_width(s@[i as int]));
        }
        n = n + w;
        i += 1;
    }
    assert(s@.take(i as int) =~= s@);
    n
}

/// Whether the left-hand side of `a` sorts strictly before that of `b`.
fn rule_before(a: &(String, String), b: &(String, String)) -> (r: bool)
    ensures
        r == lhs_before(a.0@, b.0@),
{
    let ca = chars_of(a.0.as_str());
    let cb = chars_of(b.0.as_str());
    let la = utf8_count(&ca);
    let lb = utf8_count(&cb);
    if la != lb {
        la > lb
    } else {
        chars_lt(&ca, &cb)
    }
}

fn clone_rule(r: &(String, String)) -> (c: (String, String))
    ensures
        c == *r,
{
    (r.0.clone(), r.1.clone())
}

/// Merges two sorted runs; on equal left-hand sides the first run's rules
/// come first.
fn merge_runs(a: &Vec<(String, String)>, b: &Vec<(String, String)>) -> (out: Vec<(String, String)>)
    requires
        rules_sorted(rule_views(a@)),
        rules_sorted(rule_views(b@)),
    ensures
        rules_sorted(rule_views(out@)),
        forall|x: Seq<char>| #[trigger] class_of(rule_views(out@), x)
            == class_of(rule_views(a@), x) + class_of(rule_views(b@), x),
{
    let ghost av = rule_views(a@);
    let ghost bv = rule_views(b@);
    let mut out: Vec<(String, String)> = Vec::new();
    let mut i: usize = 0;
    let mut j: usize = 0;
    assert forall|x: Seq<char>| #[trigger] class_of(rule_views(out@), x)
        == class_of(av.take(0), x) + class_of(bv.take(0), x) by {
        assert(rule_views(out@) =~= Seq::<RuleView>::empty());
        assert(av.take(0) =~= Seq::<RuleView>::empty());
        assert(bv.take(0) =~= Seq::<RuleView>::empty());
        assert(Seq::<RuleView>::empty() + Seq::<RuleView>::empty() =~= Seq::<RuleView>::empty());
    }
    while i < a.len() || j < b.len()
        invariant
            av == rule_views(a@),
            bv == rule_views(b@),
            rules_sorted(av),
            rules_sorted(bv),
            i <= a.len(),
            j <= b.len(),
            out.len() == i + j,
            rules_sorted(rule_views(out@)),
            forall|x: Seq<char>| #[trigger] class_of(rule_views(out@), x)
                == class_of(av.take(i as int), x) + class_of(bv.take(j as int), x),
            out.len() > 0 && i < a.len() ==> !lhs_before(av[i as int].0, rule_views(out@).last().0),
            out.len() > 0 && j < b.len() ==> !lhs_before(bv[j as int].0, rule_views(out@).last().0),
            i < a.len() ==> forall|k: int| 0 <= k < j ==> lhs_before(#[trigger] bv[k].0, av[i as int].0),
        decreases a.len() + b.len() - i - j,
    {
        let ghost ov = rule_views(out@);
        let take_a = j >= b.len() || (i < a.len() && !rule_before(&b[j], &a[i]));
        if take_a {
            let e = clone_rule(&a[i]);
            let ghost ev = av[i as int];
            out.push(e);
            proof {
                assert(rule_views(out@) =~= ov.push(ev));
                lemma_take_push(av, i as int);
                assert forall|x: Seq<char>| #[trigger] class_of(rule_views(out@), x)
                    == class_of(av.take(i + 1), x) + class_of(bv.take(j as int), x) by {
                    lemma_class_push(ov, ev, x);
                    lemma_class_push(av.take(i as int), ev, x);
                    if ev.0 == x {
                        assert forall|k: int| 0 <= k < bv.take(j as int).len() implies (#[trigger] bv.take(j as int)[k]).0 != x by {
                            assert(lhs_before(bv[k].0, av[i as int].0));
                            lemma_before_irreflexive(x);
                        }
                        lemma_class_none(bv.take(j as int), x);
                        assert(class_of(av.take(i as int), x).push(ev) + Seq::<RuleView>::empty()
                            =~= (class_of(av.take(i as int), x) + Seq::<RuleView>::empty()).push(ev));
                    }
                }
                assert forall|p: int, q: int| 0 <= p < q < rule_views(out@).len() implies
                    !lhs_before(#[trigger] rule_views(out@)[q].0, #[trigger] rule_views(out@)[p].0) by {
                    if q == rule_views(out@).len() - 1 && p < q {
                        if ov.len() > 0 {
                            if p < ov.len() - 1 {
                                assert(!lhs_before(ov.last().0, ov[p].0));
                            } else {
                                lemma_before_irreflexive(ov[p].0);
                            }
                            lemma_not_after_transitive(ov[p].0, ov.last().0, ev.0);
                        }
                    }
                }
                if i + 1 < a.len() {
                    assert(!lhs_before(av[i + 1].0, av[i as int].0));
                    assert forall|k: int| 0 <= k < j implies lhs_before(#[trigger] bv[k].0, av[i + 1].0) by {
                        assert(lhs_before(bv[k].0, av[i as int].0));
                        if av[i as int].0 != av[i + 1].0 {
                            lemma_before_total(av[i as int].0, av[i + 1].0);
                            lemma_before_transitive(bv[k].0, av[i as int].0, av[i + 1].0);
                        }
                    }
                }
            }
            i += 1;
        } else {
            let e = clone_rule(&b[j]);
            let ghost ev = bv[j as int];
            out.push(e);
            proof {
                assert(rule_views(out@) =~= ov.push(ev));
                lemma_take_push(bv, j as int);
                assert forall|x: Seq<char>| #[trigger] class_of(rule_views(out@), x)
                    == class_of(av.take(i as int), x) + class_of(bv.take(j + 1), x) by {
                    lemma_class_push(ov, ev, x);
                    lemma_class_push(bv.take(j as int), ev, x);
                    if ev.0 == x {
                        assert(class_of(av.take(i as int), x) + class_of(bv.take(j as int), x).push(ev)
                            =~= (class_of(av.take(i as int), x) + class_of(bv.take(j as int), x)).push(ev));
                    }
                }
                assert forall|p: int, q: int| 0 <= p < q < rule_views(out@).len() implies
                    !lhs_before(#[trigger] rule_views(out@)[q].0, #[trigger] rule_views(out@)[p].0) by {
                    if q == rule_views(out@).len() - 1 && p < q {
                        if ov.len() > 0 {
                            if p < ov.len() - 1 {
                                assert(!lhs_before(ov.last().0, ov[p].0));
                            } else {
                                lemma_before_irreflexive(ov[p].0);
                            }
                            lemma_not_after_transitive(ov[p].0, ov.last().0, ev.0);
                        }
                    }
                }
                if i < a.len() {
                    assert(lhs_before(ev.0, av[i as int].0));
                    assert forall|k: int| 0 <= k < j + 1 implies lhs_before(#[trigger] bv[k].0, av[i as int].0) by {
                        if k < j {
                        }
                    }
                    if lhs_before(av[i as int].0, ev.0) {
                        lemma_before_transitive(ev.0, av[i as int].0, ev.0);
                        lemma_before_irreflexive(ev.0);
                    }
                }
                if j + 1 < b.len() {
                    assert(!lhs_before(bv[j + 1].0, bv[j as int].0));
                }
            }
            j += 1;
        }
    }
    proof {
        assert(av.take(i as int) =~= av);
        assert(bv.take(j as int) =~= bv);
    }
    out
}

/// Sorts `v[lo..hi]` stably by left-hand side.
fn sort_range(v: &Vec<(String, String)>, lo: usize, hi: usize) -> (out: Vec<(String, String)>)
    requires
        lo <= hi <= v.len(),
    ensures
        rules_sorted(rule_views(out@)),
        forall|x: Seq<char>| #[trigger] class_of(rule_views(out@), x)
            == class_of(rule_views(v@).subrange(lo as int, hi as int), x),
    decreases hi - lo,
{
    let ghost s = rule_views(v@);
    if hi - lo == 0 {
        let out: Vec<(String, String)> = Vec::new();
        assert(rule_views(out@) =~= s.subrange(lo as int, hi as int));
        out
    } else if hi - lo == 1 {
        let mut out: Vec<(String, String)> = Vec::new();
        out.push(clone_rule(&v[lo]));
        assert(rule_views(out@) =~= s.subrange(lo as int, hi as int));
        out
    } else {
        let mid = lo + (hi - lo) / 2;
        let a = sort_range(v, lo, mid);
        let b = sort_range(v, mid, hi);
        let out = merge_runs(&a, &b);
        proof {
            assert forall|x: Seq<char>| #[trigger] class_of(rule_views(out@), x)
                == class_of(s.subrange(lo as int, hi as int), x) by {
                assert(s.subrange(lo as int, hi as int)
                    =~= s.subrange(lo as int, mid as int) + s.subrange(mid as int, hi as int));
                lemma_class_add(s.subrange(lo as int, mid as int), s.subrange(mid as int, hi as int), x);
            }
        }
        out
    }
}

/// Collapses adjacent repeats of a sorted rule list.
fn dedup_sorted(v: &Vec<(String, String)>) -> (out: Vec<(String, String)>)
    requires
        rules_sorted(rule_views(v@)),
    ensures
        rules_sorted(rule_views(out@)),
        forall|x: Seq<char>| #[trigger] class_of(rule_views(out@), x)
            == dedup_adjacent(class_of(rule_views(v@), x)),
{
    let ghost s = rule_views(v@);
    let mut out: Vec<(String, String)> = Vec::new();
    let mut i: usize = 0;
    assert forall|x: Seq<char>| #[trigger] class_of(rule_views(out@), x)
        == dedup_adjacent(class_of(s.take(0), x)) by {
        assert(rule_views(out@) =~= Seq::<RuleView>::empty());
        assert(s.take(0) =~= Seq::<RuleView>::empty());
    }
    while i < v.len()
        invariant
            s == rule_views(v@),
            rules_sorted(s),
            i <= v.len(),
            (out.len() > 0) == (i > 0),
            i > 0 ==> rule_views(out@).last() == s[i - 1],
            rules_sorted(rule_views(out@)),
            forall|x: Seq<char>| #[trigger] class_of(rule_views(out@), x)
                == dedup_adjacent(class_of(s.take(i as int), x)),
        decreases v.len() - i,
    {
        let ghost ov = rule_views(out@);
        let ghost e = s[i as int];
        proof {
            lemma_take_push(s, i as int);
        }
        let repeat = out.len() > 0 && {
            let last = &out[out.len() - 1];
            crate::text::str_equal(last.0.as_str(), v[i].0.as_str())
                && crate::text::str_equal(last.1.as_str(), v[i].1.as_str())
        };
        if repeat {
            proof {
                assert(ov.last() == e);
                assert forall|x: Seq<char>| #[trigger] class_of(rule_views(out@), x)
                    == dedup_adjacent(class_of(s.take(i + 1), x)) by {
                    lemma_class_push(s.take(i as int), e, x);
                    if e.0 == x {
                        let c = class_of(s.take(i as int), x);
                        assert(s.take(i as int) =~= s.take(i - 1).push(s[i - 1]));
                        lemma_class_push(s.take(i - 1), s[i - 1], x);
                        assert(c.last() == e);
                        assert(c.push(e).drop_last() =~= c);
                    }
                }
            }
        } else {
            out.push(clone_rule(&v[i]));
            proof {
                assert(rule_views(out@) =~= ov.push(e));
                assert forall|x: Seq<char>| #[trigger] class_of(rule_views(out@), x)
                    == dedup_adjacent(class_of(s.take(i + 1), x)) by {
                    lemma_class_push(ov, e, x);
                    lemma_class_push(s.take(i as int), e, x);
                    if e.0 == x {
                        let c = class_of(s.take(i as int), x);
                        if i > 0 {
                            assert(s.take(i as int) =~= s.take(i - 1).push(s[i - 1]));
                            lemma_class_push(s.take(i - 1), s[i - 1], x);
                            if s[i - 1].0 != x {
                                assert forall|k: int| 0 <= k < s.take(i - 1).len() implies
                                    (#[trigger] s.take(i - 1)[k]).0 != x by {
                                    if s[k].0 == x {
                                        assert(!lhs_before(s[i - 1].0, s[k].0));
                                        assert(!lhs_before(s[i as int].0, s[i - 1].0));
                                        lemma_between_same(s[k].0, s[i - 1].0);
                                    }
                                }
                                lemma_class_none(s.take(i - 1), x);
                            }
                        } else {
                            assert(s.take(0) =~= Seq::<RuleView>::empty());
                        }
                        assert(c.push(e).drop_last() =~= c);
                        if c.len() > 0 {
                            assert(c.last() == s[i - 1]);
                        }
                    }
                }
                assert forall|p: int, q: int| 0 <= p < q < rule_views(out@).len() implies
                    !lhs_before(#[trigger] rule_views(out@)[q].0, #[trigger] rule_views(out@)[p].0) by {
                    if q == rule_views(out@).len() - 1 && i > 0 {
                        assert(!lhs_before(s[i as int].0, s[i - 1].0));
                        if p < ov.len() - 1 {
                            assert(!lhs_before(ov.last().0, ov[p].0));
                        } else {
                            lemma_before_irreflexive(ov[p].0);
                        }
                        lemma_not_after_transitive(ov[p].0, ov.last().0, e.0);
                    }
                }
            }
        }
        i += 1;
    }
    assert(s.take(i as int) =~= s);
    out
}

/// Orders rewrite rules: sorted by left-hand side (more UTF-8 bytes first,
/// then lexicographically), equal left-hand sides in their given order,
/// adjacent repeats dropped.
pub fn order_rules(v: &Vec<(String, String)>) -> (out: Vec<(String, String)>)
    ensures
        ordered_rules_of(rule_views(out@), rule_views(v@)),
        rule_views(out@) == ordered(rule_views(v@)),
{
    let sorted = sort_range(v, 0, v.len());
    assert(rule_views(v@).subrange(0, v.len() as int) =~= rule_views(v@));
    let out = dedup_sorted(&sorted);
    proof {
        let o = ordered(rule_views(v@));
        assert(ordered_rules_of(rule_views(out@), rule_views(v@)));
        assert(ordered_rules_of(o, rule_views(v@)));
        assert forall|x: Seq<char>| #[trigger] class_of(rule_views(out@), x) == class_of(o, x) by {
            assert(class_of(rule_views(out@), x) == dedup_adjacent(class_of(rule_views(v@), x)));
            assert(class_of(o, x) == dedup_adjacent(class_of(rule_views(v@), x)));
        }
        lemma_sorted_classes_unique(rule_views(out@), o);
    }
    out
}

} // verus!
