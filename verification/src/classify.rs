use vstd::prelude::*;

use rand::rngs::SmallRng;

use crate::lattice::{
    endpoints, insert_class, lattice_classes, lemma_same_items_no_duplicates, shuffled_positions,
    str_views, strictly_sorted,
};
use crate::random::random_below;
use crate::security::{flow_views, SecurityLatticeInput};
use crate::text::lemma_text_lt_irreflexive;

verus! {

/// Whether a set of classes holds two different ones.
pub open spec fn has_two(e: Set<Seq<char>>) -> bool {
    exists|a: Seq<char>, b: Seq<char>| e.contains(a) && e.contains(b) && a != b
}

/// The levels that a classification of a program under `lattice` assigns:
/// the lattice's classes in the order of texts, or `low` and `high` when
/// the lattice names fewer than two classes.
pub fn classification_levels(lattice: &SecurityLatticeInput) -> (r: Vec<String>)
    ensures
        has_two(endpoints(flow_views(lattice.rules@))) ==> strictly_sorted(str_views(r@))
            && str_views(r@).to_set() == endpoints(flow_views(lattice.rules@)),
        !has_two(endpoints(flow_views(lattice.rules@))) ==> str_views(r@) == seq![
            "low"@,
            "high"@,
        ],
        r@.len() >= 2,
{
    let ghost e = endpoints(flow_views(lattice.rules@));
    let classes = lattice_classes(lattice);
    let ghost cv = str_views(classes@);
    if classes.len() < 2 {
        proof {
            assert forall|a: Seq<char>, b: Seq<char>| e.contains(a) && e.contains(b) implies a
                == b by {
                assert(cv.to_set().contains(a));
                assert(cv.to_set().contains(b));
            }
        }
        let r = vec!["low".to_owned(), "high".to_owned()];
        assert(str_views(r@) =~= seq!["low"@, "high"@]);
        r
    } else {
        proof {
            assert(cv.to_set().contains(cv[0]));
            assert(cv.to_set().contains(cv[1]));
            lemma_text_lt_irreflexive(cv[0]);
            assert(cv[0] != cv[1]);
        }
        classes
    }
}

/// Whether variable `a` goes strictly before variable `b`: assigned more
/// often, or as often and used in fewer guards.
pub open spec fn usage_before(lhs: Seq<usize>, guards: Seq<usize>, a: int, b: int) -> bool {
    lhs[a] > lhs[b] || (lhs[a] == lhs[b] && guards[a] < guards[b])
}

/// Whether the variables `s` are in usage order: none goes strictly before
/// one that precedes it.
pub open spec fn usage_sorted(lhs: Seq<usize>, guards: Seq<usize>, s: Seq<usize>) -> bool {
    forall|i: int, j: int|
        0 <= i < j < s.len() ==> !usage_before(lhs, guards, #[trigger] s[j] as int, #[trigger] s[i] as int)
}

/// Sorts the variables `sel` (positions in `lhs` and `guards`) into usage
/// order, inserting each in turn after those it does not go before.
fn sort_by_usage(sel: &Vec<usize>, lhs: &Vec<usize>, guards: &Vec<usize>) -> (r: Vec<usize>)
    requires
        lhs@.len() == guards@.len(),
        forall|i: int| 0 <= i < sel@.len() ==> #[trigger] sel@[i] < lhs@.len(),
    ensures
        r@.to_multiset() == sel@.to_multiset(),
        usage_sorted(lhs@, guards@, r@),
{
    let mut out: Vec<usize> = Vec::new();
    let n = sel.len();
    assert(out@ =~= sel@.take(0));
    for t in 0..n
        invariant
            n == sel@.len(),
            lhs@.len() == guards@.len(),
            forall|i: int| 0 <= i < sel@.len() ==> #[trigger] sel@[i] < lhs@.len(),
            forall|i: int| 0 <= i < out@.len() ==> #[trigger] out@[i] < lhs@.len(),
            out@.to_multiset() == sel@.take(t as int).to_multiset(),
            usage_sorted(lhs@, guards@, out@),
    {
        let x = sel[t];
        let mut p: usize = 0;
        while p < out.len() && !(lhs[x] > lhs[out[p]] || (lhs[x] == lhs[out[p]] && guards[x] < guards[out[p]]))
            invariant
                p <= out@.len(),
                x < lhs@.len(),
                lhs@.len() == guards@.len(),
                forall|i: int| 0 <= i < out@.len() ==> #[trigger] out@[i] < lhs@.len(),
                forall|k: int| 0 <= k < p ==> !usage_before(lhs@, guards@, x as int, #[trigger] out@[k] as int),
            decreases out@.len() - p,
        {
            p = p + 1;
        }
        let ghost before = out@;
        out.insert(p, x);
        proof {
            assert(out@ == before.insert(p as int, x));
            assert(sel@.take(t + 1) =~= sel@.take(t as int).push(x));
            vstd::seq_lib::to_multiset_insert(before, p as int, x);
            vstd::seq_lib::to_multiset_build(sel@.take(t as int), x);
            assert forall|i: int, j: int| 0 <= i < j < out@.len() implies !usage_before(
                lhs@,
                guards@,
                #[trigger] out@[j] as int,
                #[trigger] out@[i] as int,
            ) by {
                if j < p {
                    assert(out@[i] == before[i] && out@[j] == before[j]);
                } else if j == p {
                    assert(out@[i] == before[i]);
                } else if i < p {
                    assert(out@[i] == before[i] && out@[j] == before[j - 1]);
                    assert(!usage_before(lhs@, guards@, before[j - 1] as int, before[i] as int));
                } else if i == p {
                    assert(out@[j] == before[j - 1]);
                    assert(usage_before(lhs@, guards@, x as int, before[p as int] as int));
                    if j - 1 > p {
                        assert(!usage_before(lhs@, guards@, before[j - 1] as int, before[p as int] as int));
                    }
                } else {
                    assert(out@[i] == before[i - 1] && out@[j] == before[j - 1]);
                }
            }
        }
    }
    assert(sel@.take(n as int) =~= sel@);
    out
}

/// The smallest of the counts.
fn min_count(counts: &Vec<usize>) -> (m: usize)
    requires
        counts@.len() > 0,
    ensures
        exists|t: int| 0 <= t < counts@.len() && counts@[t] == m,
        forall|u: int| 0 <= u < counts@.len() ==> m <= #[trigger] counts@[u],
{
    let mut m = counts[0];
    let mut t: usize = 1;
    let ghost mut at: int = 0;
    while t < counts.len()
        invariant
            1 <= t <= counts@.len(),
            0 <= at < counts@.len(),
            counts@[at] == m,
            forall|u: int| 0 <= u < t ==> m <= #[trigger] counts@[u],
        decreases counts@.len() - t,
    {
        if counts[t] < m {
            m = counts[t];
            proof {
                at = t as int;
            }
        }
        t = t + 1;
    }
    m
}

/// The positions, in order, whose count is `m`.
fn positions_with(counts: &Vec<usize>, m: usize) -> (c: Vec<usize>)
    ensures
        forall|i: int| 0 <= i < c@.len() ==> #[trigger] c@[i] < counts@.len() && counts@[c@[i] as int] == m,
        forall|i: int, j: int| 0 <= i < j < c@.len() ==> #[trigger] c@[i] < #[trigger] c@[j],
        forall|t: int| 0 <= t < counts@.len() && #[trigger] counts@[t] == m ==> c@.contains(t as usize),
{
    let mut c: Vec<usize> = Vec::new();
    let n = counts.len();
    for t in 0..n
        invariant
            n == counts@.len(),
            forall|i: int| 0 <= i < c@.len() ==> #[trigger] c@[i] < t && counts@[c@[i] as int] == m,
            forall|i: int, j: int| 0 <= i < j < c@.len() ==> #[trigger] c@[i] < #[trigger] c@[j],
            forall|u: int| 0 <= u < t && #[trigger] counts@[u] == m ==> c@.contains(u as usize),
    {
        let ghost before = c@;
        if counts[t] == m {
            c.push(t);
            proof {
                assert forall|u: int| 0 <= u < t + 1 && #[trigger] counts@[u] == m implies c@.contains(
                    u as usize,
                ) by {
                    if u < t {
                        let k = choose|k: int| 0 <= k < before.len() && before[k] == u as usize;
                        assert(c@[k] == u as usize);
                    } else {
                        assert(c@[before.len() as int] == t);
                    }
                }
            }
        }
    }
    c
}

/// The position of the text of `x` in `ordered`, where it occurs.
fn position_of(ordered: &Vec<String>, x: &String) -> (t: usize)
    requires
        str_views(ordered@).contains(x@),
    ensures
        t < ordered@.len(),
        ordered@[t as int]@ == x@,
{
    let mut t: usize = 0;
    while t < ordered.len()
        invariant
            t <= ordered@.len(),
            str_views(ordered@).contains(x@),
            forall|u: int| 0 <= u < t ==> (#[trigger] ordered@[u])@ != x@,
        decreases ordered@.len() - t,
    {
        if ordered[t] == *x {
            return t;
        }
        t = t + 1;
    }
    proof {
        let u = choose|u: int| 0 <= u < ordered@.len() && str_views(ordered@)[u] == x@;
        assert(ordered@[u]@ == x@);
    }
    0
}

/// How often `l` occurs in `ls`.
pub open spec fn occurrences(ls: Seq<Seq<char>>, l: Seq<char>) -> nat
    decreases ls.len(),
{
    if ls.len() == 0 {
        0
    } else {
        occurrences(ls.drop_last(), l) + if ls.last() == l {
            1nat
        } else {
            0nat
        }
    }
}

/// A text occurs at most as often as the sequence is long.
proof fn lemma_occurrences_bound(ls: Seq<Seq<char>>, l: Seq<char>)
    ensures
        occurrences(ls, l) <= ls.len(),
    decreases ls.len(),
{
    if ls.len() > 0 {
        lemma_occurrences_bound(ls.drop_last(), l);
    }
}

/// Two sequences without repetitions that hold the same items are equally
/// long.
proof fn lemma_same_set_same_len<A>(p: Seq<A>, q: Seq<A>)
    requires
        p.no_duplicates(),
        q.no_duplicates(),
        p.to_set() == q.to_set(),
    ensures
        p.len() == q.len(),
{
    p.unique_seq_to_set();
    q.unique_seq_to_set();
}

/// A strictly sorted sequence of texts has no repetitions.
proof fn lemma_sorted_no_duplicates(s: Seq<Seq<char>>)
    requires
        strictly_sorted(s),
    ensures
        s.no_duplicates(),
{
    assert forall|i: int, j: int| 0 <= i < s.len() && 0 <= j < s.len() && i != j implies s[i]
        != s[j] by {
        if i < j {
            assert(crate::text::text_lt(s[i], s[j]));
            lemma_text_lt_irreflexive(s[i]);
        } else {
            assert(crate::text::text_lt(s[j], s[i]));
            lemma_text_lt_irreflexive(s[j]);
        }
    }
}

/// The levels chosen for the first variables: the classes at the first `d`
/// positions of `order`.
pub open spec fn chosen_levels(cv: Seq<Seq<char>>, order: Seq<usize>, d: int) -> Seq<Seq<char>> {
    Seq::new(d as nat, |j: int| cv[order[j] as int])
}

/// The chosen levels in the order of texts.
fn sort_levels(classes: &Vec<String>, order: &Vec<usize>, d: usize) -> (r: Vec<String>)
    requires
        d <= order@.len(),
        order@.no_duplicates(),
        forall|j: int| 0 <= j < order@.len() ==> #[trigger] order@[j] < classes@.len(),
        str_views(classes@).no_duplicates(),
    ensures
        strictly_sorted(str_views(r@)),
        str_views(r@).to_set() == chosen_levels(str_views(classes@), order@, d as int).to_set(),
        r@.len() == d,
{
    let ghost cv = str_views(classes@);
    let ghost ch = chosen_levels(cv, order@, d as int);
    let mut r: Vec<String> = Vec::new();
    assert(str_views(r@).to_set() =~= ch.take(0).to_set());
    for j in 0..d
        invariant
            d <= order@.len(),
            cv == str_views(classes@),
            ch == chosen_levels(cv, order@, d as int),
            forall|i: int| 0 <= i < order@.len() ==> #[trigger] order@[i] < classes@.len(),
            strictly_sorted(str_views(r@)),
            str_views(r@).to_set() == ch.take(j as int).to_set(),
    {
        let ghost before = str_views(r@);
        insert_class(&mut r, &classes[order[j]]);
        proof {
            assert(ch.take(j + 1) =~= ch.take(j as int).push(ch[j as int]));
            ch.take(j as int).lemma_push_to_set_commute(ch[j as int]);
        }
    }
    proof {
        assert(ch.take(d as int) =~= ch);
        lemma_sorted_no_duplicates(str_views(r@));
        assert forall|a: int, b: int| 0 <= a < ch.len() && 0 <= b < ch.len() && a != b implies ch[a]
            != ch[b] by {
            assert(order@[a] != order@[b]);
        }
        lemma_same_set_same_len(str_views(r@), ch);
    }
    r
}

/// Each chosen level occurs once among the first `m` chosen levels when
/// `m` is all of them, and not at all when `m` is zero; so the counts start
/// out equal.
proof fn lemma_occurrences_chosen(ch: Seq<Seq<char>>, ov: Seq<Seq<char>>, m: int, d: int)
    requires
        ch.len() == d,
        ov.len() == d,
        ch.no_duplicates(),
        ov.to_set() == ch.to_set(),
        m == d || m == 0,
    ensures
        forall|u: int| 0 <= u < d ==> #[trigger] occurrences(ch.take(m), ov[u]) == if m == 0 {
            0nat
        } else {
            1nat
        },
{
    assert forall|u: int| 0 <= u < d implies #[trigger] occurrences(ch.take(m), ov[u]) == if m == 0 {
        0nat
    } else {
        1nat
    } by {
        if m == 0 {
            assert(ch.take(m) =~= Seq::<Seq<char>>::empty());
        } else {
            assert(ch.take(m) =~= ch);
            assert(ov.to_set().contains(ov[u]));
            lemma_occurrences_unique(ch, ov[u]);
        }
    }
}

/// In a sequence without repetitions, a text occurs once if it is there.
proof fn lemma_occurrences_unique(s: Seq<Seq<char>>, x: Seq<char>)
    requires
        s.no_duplicates(),
    ensures
        occurrences(s, x) == if s.contains(x) {
            1nat
        } else {
            0nat
        },
    decreases s.len(),
{
    if s.len() > 0 {
        let init = s.drop_last();
        assert(init.no_duplicates());
        lemma_occurrences_unique(init, x);
        if s.last() == x {
            if init.contains(x) {
                let j = choose|j: int| 0 <= j < init.len() && init[j] == x;
                assert(s[j] == s[s.len() - 1]);
            }
            assert(s[s.len() - 1] == x);
        } else {
            if s.contains(x) {
                let j = choose|j: int| 0 <= j < s.len() && s[j] == x;
                assert(init[j] == x);
            }
            if init.contains(x) {
                let j = choose|j: int| 0 <= j < init.len() && init[j] == x;
                assert(s[j] == x);
            }
        }
    }
}

/// The variables of a classification, in order.
pub open spec fn pair_vars(r: Seq<(String, String)>) -> Seq<Seq<char>> {
    r.map_values(|p: (String, String)| p.0@)
}

/// The levels of a classification, in order.
pub open spec fn pair_levels(r: Seq<(String, String)>) -> Seq<Seq<char>> {
    r.map_values(|p: (String, String)| p.1@)
}

/// Whether `l` is a level that a classification under a lattice naming the
/// classes `e` may assign.
pub open spec fn is_level(e: Set<Seq<char>>, l: Seq<char>) -> bool {
    if has_two(e) {
        e.contains(l)
    } else {
        l == "low"@ || l == "high"@
    }
}

/// How many levels a classification under a lattice naming the classes
/// `e` draws from.
pub open spec fn level_total(e: Set<Seq<char>>) -> int {
    if has_two(e) {
        e.len() as int
    } else {
        2
    }
}

/// Whether `sel` picks different variables among `n`, in usage order.
pub open spec fn usage_selection(lhs: Seq<usize>, guards: Seq<usize>, n: int, sel: Seq<usize>) -> bool {
    &&& sel.no_duplicates()
    &&& forall|t: int| 0 <= t < sel.len() ==> #[trigger] sel[t] < n
    &&& usage_sorted(lhs, guards, sel)
}

/// Assigns security levels to some of a program's variables, as a
/// classification of the program under `lattice` does before any violation
/// is sought. `vars` are the program's variables, each once; `lhs` and
/// `guards` tell how often each is assigned and how often it occurs in a
/// guard.
///
/// Between three and six of the variables (all, when there are fewer) are
/// picked at random and put in usage order: more assignments first, then
/// fewer guard uses. The levels are shuffled; the first variables get as
/// many different levels as there are levels or variables, and each further
/// variable gets, at random, one of those levels that has been given least
/// so far. The pairs come in usage order of their variables.
pub fn assign_levels(
    rng: &mut SmallRng,
    lattice: &SecurityLatticeInput,
    vars: &Vec<String>,
    lhs: &Vec<usize>,
    guards: &Vec<usize>,
) -> (r: Vec<(String, String)>)
    requires
        lhs@.len() == vars@.len(),
        guards@.len() == vars@.len(),
        str_views(vars@).no_duplicates(),
    ensures
        vars@.len() == 0 ==> r@.len() == 0,
        vars@.len() > 0 ==> (if vars@.len() < 3 { vars@.len() as int } else { 3 }) <= r@.len() <= (
        if vars@.len() < 6 {
            vars@.len() as int
        } else {
            6
        }),
        exists|sel: Seq<usize>|
            {
                &&& usage_selection(lhs@, guards@, vars@.len() as int, sel)
                &&& sel.len() == r@.len()
                &&& forall|t: int|
                    0 <= t < sel.len() ==> #[trigger] pair_vars(r@)[t] == vars@[sel[t] as int]@
            },
        forall|t: int|
            0 <= t < r@.len() ==> is_level(
                endpoints(flow_views(lattice.rules@)),
                #[trigger] pair_levels(r@)[t],
            ),
        ({
            let d = if r@.len() < level_total(endpoints(flow_views(lattice.rules@))) {
                r@.len() as int
            } else {
                level_total(endpoints(flow_views(lattice.rules@)))
            };
            let lv = pair_levels(r@);
            &&& forall|i: int, j: int| 0 <= i < j < d ==> lv[i] != lv[j]
            &&& forall|t: int| 0 <= t < lv.len() ==> lv.take(d).contains(#[trigger] lv[t])
            &&& forall|i: int, j: int|
                0 <= i < d && 0 <= j < d ==> occurrences(lv, lv[i]) <= occurrences(lv, lv[j]) + 1
        }),
{
    let ghost e = endpoints(flow_views(lattice.rules@));
    let classes = classification_levels(lattice);
    let ghost cv = str_views(classes@);
    proof {
        if has_two(e) {
            lemma_sorted_no_duplicates(cv);
            cv.unique_seq_to_set();
        } else {
            reveal_strlit("low");
            reveal_strlit("high");
            assert(cv[0][0] != cv[1][0]);
            assert(cv.len() == 2);
        }
        assert(cv.no_duplicates());
        assert(cv.len() == classes@.len());
    }
    let nv = vars.len();
    let draw = 3 + random_below(rng, 4);
    let k = if draw < nv {
        draw
    } else if nv > 0 {
        nv
    } else {
        1
    };
    let mut picked = shuffled_positions(rng, nv);
    picked.truncate(k);
    proof {
        assert(picked@.no_duplicates());
    }
    let sel = sort_by_usage(&picked, lhs, guards);
    proof {
        lemma_same_items_no_duplicates(sel@, picked@);
        assert forall|t: int| 0 <= t < sel@.len() implies #[trigger] sel@[t] < nv by {
            assert(sel@.contains(sel@[t]));
            vstd::seq_lib::to_multiset_contains(sel@, sel@[t]);
            vstd::seq_lib::to_multiset_contains(picked@, sel@[t]);
        }
        vstd::seq_lib::to_multiset_len(sel@);
        vstd::seq_lib::to_multiset_len(picked@);
    }
    let nl = classes.len();
    let order = shuffled_positions(rng, nl);
    let d = if nl < k {
        nl
    } else {
        k
    };
    let ordered = sort_levels(&classes, &order, d);
    let ghost ov = str_views(ordered@);
    let ghost ch = chosen_levels(cv, order@, d as int);
    proof {
        lemma_sorted_no_duplicates(ov);
        assert forall|a: int, b: int| 0 <= a < ch.len() && 0 <= b < ch.len() && a != b implies ch[a]
            != ch[b] by {
            assert(order@[a] != order@[b]);
            assert(order@[a] < nl && order@[b] < nl);
            assert(ch[a] == cv[order@[a] as int]);
            assert(ch[b] == cv[order@[b] as int]);
        }
        assert(ch.no_duplicates());
    }
    let mut counts: Vec<usize> = Vec::new();
    for t in 0..d
        invariant
            counts@.len() == t,
            forall|u: int| 0 <= u < t ==> #[trigger] counts@[u] == 0,
    {
        counts.push(0);
    }
    let m = if d < sel.len() {
        d
    } else {
        sel.len()
    };
    let mut out: Vec<(String, String)> = Vec::new();
    for i in 0..m
        invariant
            m <= d,
            m <= sel@.len(),
            d <= order@.len(),
            order@.len() == nl,
            nl == classes@.len(),
            cv == str_views(classes@),
            ov == str_views(ordered@),
            ov.len() == d,
            ov.no_duplicates(),
            ch == chosen_levels(cv, order@, d as int),
            ov.to_set() == ch.to_set(),
            forall|j: int| 0 <= j < order@.len() ==> #[trigger] order@[j] < nl,
            forall|t: int| 0 <= t < sel@.len() ==> #[trigger] sel@[t] < nv,
            nv == vars@.len(),
            counts@.len() == d,
            forall|u: int| 0 <= u < d ==> #[trigger] counts@[u] == occurrences(pair_levels(out@), ov[u]),
            out@.len() == i,
            pair_levels(out@) == ch.take(i as int),
            forall|t: int| 0 <= t < i ==> #[trigger] pair_vars(out@)[t] == vars@[sel@[t] as int]@,
    {
        let lvl = &classes[order[i]];
        proof {
            assert(ch[i as int] == lvl@);
            assert(ch.to_set().contains(lvl@));
            assert(ov.to_set().contains(lvl@));
        }
        let t = position_of(&ordered, lvl);
        let ghost lv0 = pair_levels(out@);
        let ghost pv0 = pair_vars(out@);
        proof {
            lemma_occurrences_bound(lv0, ov[t as int]);
        }
        let c = counts[t] + 1;
        counts.set(t, c);
        out.push((vars[sel[i]].clone(), lvl.clone()));
        proof {
            assert(pair_vars(out@) =~= pv0.push(vars@[sel@[i as int] as int]@));
            assert(pair_levels(out@).drop_last() =~= lv0);
            assert(pair_levels(out@) =~= ch.take(i + 1));
            assert forall|u: int| 0 <= u < d implies #[trigger] counts@[u] == occurrences(
                pair_levels(out@),
                ov[u],
            ) by {
                if u != t {
                    assert(ov[u] != ov[t as int]);
                }
            }
        }
    }
    proof {
        lemma_occurrences_chosen(ch, ov, m as int, d as int);
        assert forall|t: int| 0 <= t < out@.len() implies ov.contains(
            #[trigger] pair_levels(out@)[t],
        ) by {
            assert(pair_levels(out@)[t] == ch.take(m as int)[t]);
            assert(ch.to_set().contains(ch[t]));
            assert(ov.to_set().contains(ch[t]));
        }
    }
    let n = sel.len();
    for i in m..n
        invariant
            n == sel@.len(),
            m <= d,
            m == d || m == 0,
            d >= 1,
            ov.len() == d,
            ov.no_duplicates(),
            counts@.len() == d,
            forall|u: int| 0 <= u < d ==> #[trigger] counts@[u] == occurrences(pair_levels(out@), ov[u]),
            forall|u: int, w: int| 0 <= u < d && 0 <= w < d ==> #[trigger] counts@[u] <= #[trigger] counts@[w] + 1,
            forall|t: int| 0 <= t < out@.len() ==> ov.contains(#[trigger] pair_levels(out@)[t]),
            ov == str_views(ordered@),
            out@.len() == i,
            pair_levels(out@).take(m as int) == ch.take(m as int),
            forall|t: int| 0 <= t < sel@.len() ==> #[trigger] sel@[t] < nv,
            nv == vars@.len(),
            forall|t: int| 0 <= t < i ==> #[trigger] pair_vars(out@)[t] == vars@[sel@[t] as int]@,
    {
        let mc = min_count(&counts);
        let cands = positions_with(&counts, mc);
        let pick = cands[random_below(rng, cands.len())];
        let ghost lv0 = pair_levels(out@);
        let ghost pv0 = pair_vars(out@);
        let ghost c0 = counts@;
        proof {
            lemma_occurrences_bound(lv0, ov[pick as int]);
        }
        let c = counts[pick] + 1;
        counts.set(pick, c);
        out.push((vars[sel[i]].clone(), ordered[pick].clone()));
        proof {
            assert(pair_vars(out@) =~= pv0.push(vars@[sel@[i as int] as int]@));
            assert(pair_levels(out@) =~= lv0.push(ov[pick as int]));
            assert(pair_levels(out@).drop_last() =~= lv0);
            assert(pair_levels(out@).take(m as int) =~= lv0.take(m as int));
            assert forall|u: int| 0 <= u < d implies #[trigger] counts@[u] == occurrences(
                pair_levels(out@),
                ov[u],
            ) by {
                if u != pick {
                    assert(ov[u] != ov[pick as int]);
                }
            }
            assert forall|u: int, w: int| 0 <= u < d && 0 <= w < d implies #[trigger] counts@[u]
                <= #[trigger] counts@[w] + 1 by {
                assert(c0[u] <= c0[w] + 1);
                assert(mc <= c0[u] && mc <= c0[w]);
            }
            assert forall|t: int| 0 <= t < out@.len() implies ov.contains(
                #[trigger] pair_levels(out@)[t],
            ) by {
                if t < i {
                    assert(pair_levels(out@)[t] == lv0[t]);
                } else {
                    assert(pair_levels(out@)[t] == ov[pick as int]);
                }
            }
        }
    }
    proof {
        let lv = pair_levels(out@);
        if has_two(e) {
            cv.unique_seq_to_set();
            assert(cv.to_set() == e);
        }
        assert(level_total(e) == nl);
        assert(usage_selection(lhs@, guards@, nv as int, sel@));
        assert forall|t: int| 0 <= t < lv.len() implies is_level(e, #[trigger] lv[t]) by {
            assert(ov.contains(lv[t]));
            assert(ov.to_set().contains(lv[t]));
            assert(ch.to_set().contains(lv[t]));
            let j = choose|j: int| 0 <= j < ch.len() && ch[j] == lv[t];
            assert(cv[order@[j] as int] == lv[t]);
            assert(cv.contains(lv[t]));
            if has_two(e) {
                assert(cv.to_set().contains(lv[t]));
            }
        }
        assert(lv.take(m as int) == ch.take(m as int));
        assert forall|i: int, j: int| 0 <= i < j < m implies lv[i] != lv[j] by {
            assert(lv[i] == lv.take(m as int)[i]);
            assert(lv[j] == lv.take(m as int)[j]);
            assert(ch[i] != ch[j]);
        }
        assert forall|t: int| 0 <= t < lv.len() implies lv.take(m as int).contains(#[trigger] lv[t]) by {
            assert(m == d);
            assert(ch.take(d as int) =~= ch);
            assert(ov.contains(lv[t]));
            assert(ov.to_set().contains(lv[t]));
            assert(ch.to_set().contains(lv[t]));
        }
        assert forall|i: int, j: int| 0 <= i < m && 0 <= j < m implies occurrences(lv, lv[i])
            <= occurrences(lv, lv[j]) + 1 by {
            assert(ov.contains(lv[i]));
            assert(ov.contains(lv[j]));
            let u = choose|u: int| 0 <= u < ov.len() && ov[u] == lv[i];
            let w = choose|w: int| 0 <= w < ov.len() && ov[w] == lv[j];
            assert(counts@[u] <= counts@[w] + 1);
        }
    }
    out
}

} // verus!
