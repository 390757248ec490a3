use vstd::prelude::*;

use rand::rngs::SmallRng;

use crate::random::random_below;
use crate::text::{chars_of, push_all, string_of};

verus! {

pub const SUBJECTS: [&'static str; 8] = [
    "Rust",
    "The compiler",
    "My program",
    "The developer",
    "Your function",
    "This input",
    "The system",
    "Our code",
];

pub const VERBS: [&'static str; 9] = [
    "optimizes",
    "compiles",
    "tests",
    "parses",
    "transforms",
    "evaluates",
    "breaks",
    "improves",
    "analyzes",
];

pub const OBJECTS: [&'static str; 6] = [
    "the expression",
    "the syntax tree",
    "the input string",
    "the random generator",
    "the output",
    "the module",
];

pub const ADJECTIVES: [&'static str; 8] = [
    "unexpected",
    "beautiful",
    "chaotic",
    "complex",
    "elegant",
    "mysterious",
    "strange",
    "fascinating",
];

pub const ADVERBS: [&'static str; 7] = [
    "quickly",
    "silently",
    "surprisingly",
    "boldly",
    "randomly",
    "gracefully",
    "unexpectedly",
];

pub const CLAUSES: [&'static str; 5] = [
    "because the borrow checker said so",
    "while avoiding undefined behavior",
    "even though nobody asked",
    "as part of a mysterious optimization",
    "to satisfy the type system",
];

/// The sentence of form `k` (0 to 4) with the words picked at `a`, `b`,
/// `c`, `d`, `e` from the lists the form names, in order:
/// 0. subject verb object adverb.
/// 1. subject verb the adjective object.
/// 2. subject adverb verb adjective object.
/// 3. subject verb object clause.
/// 4. subject verb object while subject verb.
pub open spec fn grammar_sentence(k: int, a: int, b: int, c: int, d: int, e: int) -> Seq<char> {
    if k == 0 {
        SUBJECTS@[a]@ + " "@ + VERBS@[b]@ + " "@ + OBJECTS@[c]@ + " "@ + ADVERBS@[d]@ + "."@
    } else if k == 1 {
        SUBJECTS@[a]@ + " "@ + VERBS@[b]@ + " the "@ + ADJECTIVES@[c]@ + " "@ + OBJECTS@[d]@ + "."@
    } else if k == 2 {
        SUBJECTS@[a]@ + " "@ + ADVERBS@[b]@ + " "@ + VERBS@[c]@ + " "@ + ADJECTIVES@[d]@ + " "@
            + OBJECTS@[e]@ + "."@
    } else if k == 3 {
        SUBJECTS@[a]@ + " "@ + VERBS@[b]@ + " "@ + OBJECTS@[c]@ + " "@ + CLAUSES@[d]@ + "."@
    } else {
        SUBJECTS@[a]@ + " "@ + VERBS@[b]@ + " "@ + OBJECTS@[c]@ + " while "@ + SUBJECTS@[d]@
            + " "@ + VERBS@[e]@ + "."@
    }
}

/// Whether the picks are positions in the lists that form `k` takes them from.
pub open spec fn picks_fit(k: int, a: int, b: int, c: int, d: int, e: int) -> bool {
    &&& 0 <= k < 5
    &&& 0 <= a < 8
    &&& if k == 0 {
        0 <= b < 9 && 0 <= c < 6 && 0 <= d < 7 && e == 0
    } else if k == 1 {
        0 <= b < 9 && 0 <= c < 8 && 0 <= d < 6 && e == 0
    } else if k == 2 {
        0 <= b < 7 && 0 <= c < 9 && 0 <= d < 8 && 0 <= e < 6
    } else if k == 3 {
        0 <= b < 9 && 0 <= c < 6 && 0 <= d < 5 && e == 0
    } else {
        0 <= b < 9 && 0 <= c < 6 && 0 <= d < 8 && 0 <= e < 9
    }
}

/// Whether `s` is a sentence of the grammar.
pub open spec fn is_grammar_sentence(s: Seq<char>) -> bool {
    exists|k: int, a: int, b: int, c: int, d: int, e: int|
        picks_fit(k, a, b, c, d, e) && s == grammar_sentence(k, a, b, c, d, e)
}

fn push_str(out: &mut Vec<char>, s: &str)
    ensures
        final(out)@ == old(out)@ + s@,
{
    push_all(out, chars_of(s).as_slice());
}

/// The sentence of form `k` with the words picked at `a` to `e`, as
/// `grammar_sentence` describes it.
pub fn grammar_sentence_of(k: usize, a: usize, b: usize, c: usize, d: usize, e: usize) -> (r: String)
    requires
        picks_fit(k as int, a as int, b as int, c as int, d as int, e as int),
    ensures
        r@ == grammar_sentence(k as int, a as int, b as int, c as int, d as int, e as int),
{
    let mut out: Vec<char> = Vec::new();
    if k == 0 {
        push_str(&mut out, SUBJECTS[a]);
        push_str(&mut out, " ");
        push_str(&mut out, VERBS[b]);
        push_str(&mut out, " ");
        push_str(&mut out, OBJECTS[c]);
        push_str(&mut out, " ");
        push_str(&mut out, ADVERBS[d]);
        push_str(&mut out, ".");
    } else if k == 1 {
        push_str(&mut out, SUBJECTS[a]);
        push_str(&mut out, " ");
        push_str(&mut out, VERBS[b]);
        push_str(&mut out, " the ");
        push_str(&mut out, ADJECTIVES[c]);
        push_str(&mut out, " ");
        push_str(&mut out, OBJECTS[d]);
        push_str(&mut out, ".");
    } else if k == 2 {
        push_str(&mut out, SUBJECTS[a]);
        push_str(&mut out, " ");
        push_str(&mut out, ADVERBS[b]);
        push_str(&mut out, " ");
        push_str(&mut out, VERBS[c]);
        push_str(&mut out, " ");
        push_str(&mut out, ADJECTIVES[d]);
        push_str(&mut out, " ");
        push_str(&mut out, OBJECTS[e]);
        push_str(&mut out, ".");
    } else if k == 3 {
        push_str(&mut out, SUBJECTS[a]);
        push_str(&mut out, " ");
        push_str(&mut out, VERBS[b]);
        push_str(&mut out, " ");
        push_str(&mut out, OBJECTS[c]);
        push_str(&mut out, " ");
        push_str(&mut out, CLAUSES[d]);
        push_str(&mut out, ".");
    } else {
        push_str(&mut out, SUBJECTS[a]);
        push_str(&mut out, " ");
        push_str(&mut out, VERBS[b]);
        push_str(&mut out, " ");
        push_str(&mut out, OBJECTS[c]);
        push_str(&mut out, " while ");
        push_str(&mut out, SUBJECTS[d]);
        push_str(&mut out, " ");
        push_str(&mut out, VERBS[e]);
        push_str(&mut out, ".");
    }
    assert(out@ =~= grammar_sentence(k as int, a as int, b as int, c as int, d as int, e as int));
    string_of(out.as_slice())
}

/// A random sentence of the grammar: a form, then its words in order,
/// drawn from `rng`.
pub fn generate_grammar_sentence(rng: &mut SmallRng) -> (r: String)
    ensures
        is_grammar_sentence(r@),
{
    let k = random_below(rng, 5);
    let (a, b, c, d, e) = if k == 0 {
        let a = random_below(rng, 8);
        let b = random_below(rng, 9);
        let c = random_below(rng, 6);
        let d = random_below(rng, 7);
        (a, b, c, d, 0)
    } else if k == 1 {
        let a = random_below(rng, 8);
        let b = random_below(rng, 9);
        let c = random_below(rng, 8);
        let d = random_below(rng, 6);
        (a, b, c, d, 0)
    } else if k == 2 {
        let a = random_below(rng, 8);
        let b = random_below(rng, 7);
        let c = random_below(rng, 9);
        let d = random_below(rng, 8);
        let e = random_below(rng, 6);
        (a, b, c, d, e)
    } else if k == 3 {
        let a = random_below(rng, 8);
        let b = random_below(rng, 9);
        let c = random_below(rng, 6);
        let d = random_below(rng, 5);
        (a, b, c, d, 0)
    } else {
        let a = random_below(rng, 8);
        let b = random_below(rng, 9);
        let c = random_below(rng, 6);
        let d = random_below(rng, 8);
        let e = random_below(rng, 9);
        (a, b, c, d, e)
    };
    let r = grammar_sentence_of(k, a, b, c, d, e);
    assert(picks_fit(k as int, a as int, b as int, c as int, d as int, e as int));
    r
}

} // verus!
