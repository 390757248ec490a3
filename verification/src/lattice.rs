use vstd::prelude::*;

use rand::rngs::SmallRng;

use crate::random::random_below;
use crate::security::{flow, flow_views, Flow, FlowView, SecurityLatticeInput};
use crate::text::{chars_of, lemma_text_lt_total, lemma_text_lt_transitive, text_less, text_lt};

verus! {

/// The variable names that generated programs use.
pub const VARS: [&'static str; 6] = ["a", "b", "c", "x", "y", "z"];

/// The number of security lattices that inputs are drawn from.
pub const LATTICE_COUNT: usize = 16;

/// The rules of security lattice `i`: a class may flow into the class
/// after it.
pub open spec fn lattice_def_spec(i: int) -> Seq<(&'static str, &'static str)> {
    if i == 0 {
        seq![("public", "private")]
    } else if i == 1 {
        seq![("public", "internal"), ("internal", "private")]
    } else if i == 2 {
        seq![("public", "confidential"), ("confidential", "private")]
    } else if i == 3 {
        seq![("low", "medium"), ("medium", "high")]
    } else if i == 4 {
        seq![("unclassified", "classified"), ("classified", "secret"), ("secret", "top_secret")]
    } else if i == 5 {
        seq![("public", "financial"), ("financial", "medical"), ("medical", "top_secret")]
    } else if i == 6 {
        seq![("dubious", "trusted")]
    } else if i == 7 {
        seq![("alternative_fact", "conjecture"), ("conjecture", "known_fact")]
    } else if i == 8 {
        seq![("unverified", "verified"), ("verified", "certified")]
    } else if i == 9 {
        seq![("low_trust", "medium_trust"), ("medium_trust", "high_trust")]
    } else if i == 10 {
        seq![("known_facts", "conjecture"), ("conjecture", "alternative_facts")]
    } else if i == 11 {
        seq![("public", "Alice"), ("Alice", "Bob"), ("Bob", "secret")]
    } else if i == 12 {
        seq![("public", "shared"), ("shared", "Alice"), ("shared", "Bob")]
    } else if i == 13 {
        seq![("public", "TeamA"), ("TeamA", "TeamB"), ("TeamB", "shared")]
    } else if i == 14 {
        seq![("public", "Dept1"), ("Dept1", "Dept2"), ("Dept2", "Dept3"), ("Dept3", "shared")]
    } else {
        seq![("clean", "Facebook"), ("clean", "Google"), ("clean", "Microsoft")]
    }
}

/// The rules of security lattice `i` (one of the first `LATTICE_COUNT`).
pub fn lattice_def(i: usize) -> (r: &'static [(&'static str, &'static str)])
    requires
        i < LATTICE_COUNT,
    ensures
        r@ == lattice_def_spec(i as int),
{
    if i == 0 {
        &[("public", "private")]
    } else if i == 1 {
        &[("public", "internal"), ("internal", "private")]
    } else if i == 2 {
        &[("public", "confidential"), ("confidential", "private")]
    } else if i == 3 {
        &[("low", "medium"), ("medium", "high")]
    } else if i == 4 {
        &[("unclassified", "classified"), ("classified", "secret"), ("secret", "top_secret")]
    } else if i == 5 {
        &[("public", "financial"), ("financial", "medical"), ("medical", "top_secret")]
    } else if i == 6 {
        &[("dubious", "trusted")]
    } else if i == 7 {
        &[("alternative_fact", "conjecture"), ("conjecture", "known_fact")]
    } else if i == 8 {
        &[("unverified", "verified"), ("verified", "certified")]
    } else if i == 9 {
        &[("low_trust", "medium_trust"), ("medium_trust", "high_trust")]
    } else if i == 10 {
        &[("known_facts", "conjecture"), ("conjecture", "alternative_facts")]
    } else if i == 11 {
        &[("public", "Alice"), ("Alice", "Bob"), ("Bob", "secret")]
    } else if i == 12 {
        &[("public", "shared"), ("shared", "Alice"), ("shared", "Bob")]
    } else if i == 13 {
        &[("public", "TeamA"), ("TeamA", "TeamB"), ("TeamB", "shared")]
    } else if i == 14 {
        &[("public", "Dept1"), ("Dept1", "Dept2"), ("Dept2", "Dept3"), ("Dept3", "shared")]
    } else {
        &[("clean", "Facebook"), ("clean", "Google"), ("clean", "Microsoft")]
    }
}

/// The rules of lattice `i`, as flows.
pub open spec fn lattice_def_view(i: int) -> Seq<FlowView> {
    lattice_def_spec(i).map_values(|p: (&'static str, &'static str)| (p.0@, p.1@))
}

/// Security lattice `i`, its rules as flows.
pub fn lattice_input(i: usize) -> (r: SecurityLatticeInput)
    requires
        i < LATTICE_COUNT,
    ensures
        flow_views(r.rules@) == lattice_def_view(i as int),
{
    let edges = lattice_def(i);
    let mut rules: Vec<Flow> = Vec::new();
    let n = edges.len();
    for j in 0..n
        invariant
            n == edges@.len(),
            edges@ == lattice_def_spec(i as int),
            flow_views(rules@) == lattice_def_view(i as int).take(j as int),
    {
        let (a, b) = edges[j];
        let ghost before = flow_views(rules@);
        rules.push(flow(a, b));
        assert(lattice_def_view(i as int)[j as int] == (a@, b@));
        assert(flow_views(rules@) =~= before.push((a@, b@)));
        assert(lattice_def_view(i as int).take(j + 1) =~= lattice_def_view(i as int).take(
            j as int,
        ).push((a@, b@)));
    }
    assert(lattice_def_view(i as int).take(n as int) =~= lattice_def_view(i as int));
    SecurityLatticeInput { rules }
}

/// Picks one of the security lattices at random.
pub fn pick_lattice(rng: &mut SmallRng) -> (r: SecurityLatticeInput)
    ensures
        exists|i: int| 0 <= i < 16 && flow_views(r.rules@) == lattice_def_view(i),
{
    let i = random_below(rng, LATTICE_COUNT);
    lattice_input(i)
}

/// Swaps the items of `v` at positions `a` and `b`, moving nothing else.
fn swap_items<T>(v: &mut Vec<T>, a: usize, b: usize)
    requires
        a < old(v)@.len(),
        b < old(v)@.len(),
    ensures
        final(v)@ == old(v)@.update(a as int, old(v)@[b as int]).update(b as int, old(v)@[a as int]),
{
    let ghost s = v@;
    if a == b {
        assert(s.update(a as int, s[b as int]).update(b as int, s[a as int]) =~= s);
        return;
    }
    let (lo, hi) = if a < b {
        (a, b)
    } else {
        (b, a)
    };
    let y = v.remove(hi);
    let x = v.remove(lo);
    v.insert(lo, y);
    v.insert(hi, x);
    assert(v@ =~= s.update(a as int, s[b as int]).update(b as int, s[a as int]));
}

/// Shuffles `s` in place: each position in turn is swapped with itself or a
/// later position drawn at random. The result holds the same items.
pub fn shuffle<T>(rng: &mut SmallRng, s: &mut Vec<T>)
    ensures
        final(s)@.len() == old(s)@.len(),
        final(s)@.to_multiset() == old(s)@.to_multiset(),
{
    broadcast use vstd::multiset::group_multiset_axioms, vstd::multiset::group_multiset_properties;
    let n = s.len();
    for i in 0..n
        invariant
            n == s@.len(),
            s@.to_multiset() == old(s)@.to_multiset(),
    {
        let j = i + random_below(rng, n - i);
        let ghost before = s@;
        swap_items(s, i, j);
        proof {
            let mid = before.update(i as int, before[j as int]);
            vstd::seq_lib::to_multiset_update(before, i as int, before[j as int]);
            vstd::seq_lib::to_multiset_update(mid, j as int, before[i as int]);
            assert(before.contains(before[i as int]));
            vstd::seq_lib::to_multiset_contains(before, before[i as int]);
            assert(s@.to_multiset() =~= before.to_multiset());
        }
    }
}

/// The names of `VARS`.
pub open spec fn vars_view() -> Seq<Seq<char>> {
    VARS@.map_values(|v: &'static str| v@)
}

/// The fewest variables `pick_vars` picks for the bounds `min` and `max`.
pub open spec fn pick_low(min: usize, max: usize) -> int {
    let m = if min < 1 { 1 } else { min as int };
    if m < max { m } else { max as int }
}

/// The most variables `pick_vars` picks for the bound `max`.
pub open spec fn pick_high(max: usize) -> int {
    if max < 6 { max as int } else { 6 }
}

/// The names of `VARS` are all different.
proof fn lemma_vars_distinct()
    ensures
        vars_view().len() == 6,
        forall|a: int, b: int| 0 <= a < b < 6 ==> vars_view()[a] != vars_view()[b],
{
    reveal_strlit("a");
    reveal_strlit("b");
    reveal_strlit("c");
    reveal_strlit("x");
    reveal_strlit("y");
    reveal_strlit("z");
    assert(vars_view() =~= seq!["a"@, "b"@, "c"@, "x"@, "y"@, "z"@]);
    assert forall|a: int, b: int| 0 <= a < b < 6 implies vars_view()[a] != vars_view()[b] by {
        assert(vars_view()[a][0] != vars_view()[b][0]);
    }
}

/// A sequence that holds the same items as one without repetitions has
/// none either.
pub(crate) proof fn lemma_same_items_no_duplicates<A>(p: Seq<A>, q: Seq<A>)
    requires
        q.no_duplicates(),
        p.to_multiset() == q.to_multiset(),
    ensures
        p.no_duplicates(),
{
    q.lemma_multiset_has_no_duplicates();
    p.lemma_multiset_has_no_duplicates_conv();
}

/// The positions `0..n` in a random order.
pub(crate) fn shuffled_positions(rng: &mut SmallRng, n: usize) -> (r: Vec<usize>)
    ensures
        r@.len() == n,
        r@.no_duplicates(),
        forall|i: int| 0 <= i < n ==> #[trigger] r@[i] < n,
{
    broadcast use vstd::seq_lib::to_multiset_contains;
    let mut r: Vec<usize> = Vec::new();
    for i in 0..n
        invariant
            r@.len() == i,
            forall|j: int| 0 <= j < i ==> #[trigger] r@[j] == j,
    {
        r.push(i);
    }
    let ghost start = r@;
    shuffle(rng, &mut r);
    proof {
        assert(start.no_duplicates());
        lemma_same_items_no_duplicates(r@, start);
        assert forall|i: int| 0 <= i < n implies #[trigger] r@[i] < n by {
            assert(r@.contains(r@[i]));
            vstd::seq_lib::to_multiset_contains(r@, r@[i]);
            vstd::seq_lib::to_multiset_contains(start, r@[i]);
        }
    }
    r
}

/// The names of `VARS` at the first `n` positions of `order`, in order.
pub fn vars_in_order(order: &Vec<usize>, n: usize) -> (r: Vec<String>)
    requires
        n <= order@.len(),
        forall|t: int| 0 <= t < order@.len() ==> #[trigger] order@[t] < 6,
    ensures
        r@.len() == n,
        forall|t: int| 0 <= t < n ==> #[trigger] r@[t]@ == vars_view()[order@[t] as int],
{
    let mut out: Vec<String> = Vec::new();
    for k in 0..n
        invariant
            n <= order@.len(),
            forall|t: int| 0 <= t < order@.len() ==> #[trigger] order@[t] < 6,
            out@.len() == k,
            forall|t: int| 0 <= t < k ==> #[trigger] out@[t]@ == vars_view()[order@[t] as int],
    {
        out.push(VARS[order[k]].to_owned());
    }
    out
}

/// Picks between `pick_low(min, max)` and `pick_high(max)` different names
/// of `VARS` at random: how many is drawn first, then the names are shuffled
/// and that many are kept.
pub fn pick_vars(rng: &mut SmallRng, min: usize, max: usize) -> (r: Vec<String>)
    requires
        pick_low(min, max) <= pick_high(max),
    ensures
        pick_low(min, max) <= r@.len() <= pick_high(max),
        forall|i: int| 0 <= i < r@.len() ==> vars_view().contains(#[trigger] r@[i]@),
        forall|i: int, j: int| 0 <= i < j < r@.len() ==> r@[i]@ != r@[j]@,
{
    let m = if min < 1 { 1 } else { min };
    let lo = if m < max { m } else { max };
    let hi = if max < 6 { max } else { 6 };
    let n = lo + random_below(rng, hi - lo + 1);
    let order = shuffled_positions(rng, 6);
    proof {
        lemma_vars_distinct();
    }
    let out = vars_in_order(&order, n);
    proof {
        assert forall|i: int| 0 <= i < out@.len() implies vars_view().contains(#[trigger] out@[i]@) by {
            assert(vars_view()[order@[i] as int] == out@[i]@);
        }
        assert forall|i: int, j: int| 0 <= i < j < out@.len() implies out@[i]@ != out@[j]@ by {
            assert(order@[i] != order@[j]);
            if order@[i] < order@[j] {
                assert(vars_view()[order@[i] as int] != vars_view()[order@[j] as int]);
            } else {
                assert(vars_view()[order@[j] as int] != vars_view()[order@[i] as int]);
            }
        }
    }
    out
}

/// The texts of a sequence of strings.
pub open spec fn str_views(s: Seq<String>) -> Seq<Seq<char>> {
    s.map_values(|t: String| t@)
}

/// Whether each text comes before every later one, so that none repeats.
pub open spec fn strictly_sorted(s: Seq<Seq<char>>) -> bool {
    forall|i: int, j: int| 0 <= i < j < s.len() ==> text_lt(#[trigger] s[i], #[trigger] s[j])
}

/// The classes that the rules `fs` mention, on either side.
pub open spec fn endpoints(fs: Seq<FlowView>) -> Set<Seq<char>>
    decreases fs.len(),
{
    if fs.len() == 0 {
        Set::empty()
    } else {
        endpoints(fs.drop_last()).insert(fs.last().0).insert(fs.last().1)
    }
}

/// Adds `x` to the sorted list `v` at its place, unless it is there.
pub(crate) fn insert_class(v: &mut Vec<String>, x: &String)
    requires
        strictly_sorted(str_views(old(v)@)),
    ensures
        strictly_sorted(str_views(final(v)@)),
        str_views(final(v)@).to_set() == str_views(old(v)@).to_set().insert(x@),
{
    let ghost old_views = str_views(v@);
    let xs = chars_of(x.as_str());
    let mut p: usize = 0;
    while p < v.len() && text_less(chars_of(v[p].as_str()).as_slice(), xs.as_slice())
        invariant
            p <= v@.len(),
            v@ == old(v)@,
            old_views == str_views(v@),
            xs@ == x@,
            forall|k: int| 0 <= k < p ==> text_lt(#[trigger] old_views[k], x@),
        decreases v@.len() - p,
    {
        p = p + 1;
    }
    if p < v.len() && v[p] == *x {
        assert(str_views(v@).to_set() =~= old_views.to_set().insert(x@)) by {
            assert(old_views[p as int] == x@);
        }
        return;
    }
    proof {
        if p < v@.len() {
            lemma_text_lt_total(old_views[p as int], x@);
        }
    }
    v.insert(p, x.clone());
    let ghost nv = str_views(v@);
    proof {
        assert(nv =~= old_views.insert(p as int, x@));
        assert forall|i: int, j: int| 0 <= i < j < nv.len() implies text_lt(#[trigger] nv[i], #[trigger] nv[j]) by {
            if j < p {
            } else if j == p {
            } else if i < p {
                lemma_text_lt_transitive(nv[i], x@, old_views[p as int]);
                if j - 1 > p {
                    lemma_text_lt_transitive(nv[i], old_views[p as int], nv[j]);
                }
            } else if i == p {
                if j - 1 > p {
                    lemma_text_lt_transitive(x@, old_views[p as int], nv[j]);
                }
            } else {
            }
        }
        assert forall|t: Seq<char>| nv.to_set().contains(t) <==> old_views.to_set().insert(x@).contains(t) by {
            if nv.contains(t) {
                let k = choose|k: int| 0 <= k < nv.len() && nv[k] == t;
                if k < p {
                    assert(old_views[k] == t);
                } else if k > p {
                    assert(old_views[k - 1] == t);
                }
            }
            if old_views.contains(t) {
                let k = choose|k: int| 0 <= k < old_views.len() && old_views[k] == t;
                if k < p {
                    assert(nv[k] == t);
                } else {
                    assert(nv[k + 1] == t);
                }
            }
            if t == x@ {
                assert(nv[p as int] == t);
            }
        }
        assert(nv.to_set() =~= old_views.to_set().insert(x@));
    }
}

/// The classes of a lattice: every class its rules mention, once each, in
/// the order of texts.
pub fn lattice_classes(lattice: &SecurityLatticeInput) -> (r: Vec<String>)
    ensures
        strictly_sorted(str_views(r@)),
        str_views(r@).to_set() == endpoints(flow_views(lattice.rules@)),
{
    let ghost fv = flow_views(lattice.rules@);
    let mut out: Vec<String> = Vec::new();
    let n = lattice.rules.len();
    assert(str_views(out@).to_set() =~= Set::<Seq<char>>::empty());
    for i in 0..n
        invariant
            n == lattice.rules@.len(),
            fv == flow_views(lattice.rules@),
            strictly_sorted(str_views(out@)),
            str_views(out@).to_set() == endpoints(fv.take(i as int)),
    {
        assert(fv.take(i + 1).drop_last() =~= fv.take(i as int));
        assert(fv.take(i + 1).last() == lattice.rules@[i as int]@);
        insert_class(&mut out, &lattice.rules[i].from);
        insert_class(&mut out, &lattice.rules[i].into);
    }
    assert(fv.take(n as int) =~= fv);
    out
}

} // verus!
