use vstd::prelude::*;

use rand::rngs::SmallRng;

use crate::random::{random_below, random_ratio};
use crate::sentences::{generate_grammar_sentence, is_grammar_sentence};
use crate::text::{chars_of, join, push_all, split_words, string_of, views, words};

verus! {

/// The result of capitalizing a text.
pub struct Output {
    pub result: String,
    pub error: String,
}

/// The uppercase form of a string, as `str::to_uppercase` computes it.
pub uninterp spec fn uppercase(s: Seq<char>) -> Seq<char>;

/// Calls `str::to_uppercase`. Trusted to return `uppercase` of its
/// argument: the Unicode uppercase mapping, a function of the text alone.
#[verifier::external_body]
fn to_uppercase(s: &str) -> (r: String)
    ensures
        r@ == uppercase(s@),
{
    s.to_uppercase()
}

/// The words with every word at an even position (the first, third, ...)
/// in uppercase and the others as they are.
pub open spec fn alternate_upper(ws: Seq<Seq<char>>) -> Seq<Seq<char>> {
    Seq::new(ws.len(), |i: int| if i % 2 == 0 { uppercase(ws[i]) } else { ws[i] })
}

/// The capitalized form of `s`: its whitespace-separated words, alternately
/// in uppercase and unchanged, joined by single spaces.
pub open spec fn capitalize_spec(s: Seq<char>) -> Seq<char> {
    join(alternate_upper(words(s)), seq![' '])
}

/// Capitalizing takes the whitespace-separated words of the input in order
/// and joins them with single spaces: the word at every even position (the
/// first, third, fifth, ...) in uppercase, the word at every odd position
/// exactly as it was, however many words there are.
pub proof fn law_capitalize_words(input: Seq<char>)
    ensures
        capitalize_spec(input) == join(
            Seq::new(
                words(input).len(),
                |i: int|
                    if i % 2 == 0 {
                        uppercase(words(input)[i])
                    } else {
                        words(input)[i]
                    },
            ),
            seq![' '],
        ),
{
    let ws = words(input);
    assert(alternate_upper(ws) =~= Seq::new(
        ws.len(),
        |i: int|
            if i % 2 == 0 {
                uppercase(ws[i])
            } else {
                ws[i]
            },
    ));
}

/// The texts of a sequence of strings.
pub open spec fn string_views(ws: Seq<String>) -> Seq<Seq<char>> {
    ws.map_values(|w: String| w@)
}

/// The words joined by single spaces.
pub fn join_words(words: &Vec<String>) -> (r: String)
    ensures
        r@ == join(string_views(words@), seq![' ']),
{
    let mut vs: Vec<Vec<char>> = Vec::new();
    let n = words.len();
    for i in 0..n
        invariant
            n == words@.len(),
            vs@.len() == i,
            views(vs@) == string_views(words@).take(i as int),
    {
        let ghost before = vs@;
        let w = chars_of(words[i].as_str());
        assert(w@ == words@[i as int]@);
        vs.push(w);
        assert(vs@ == before.push(w));
        assert forall|j: int| 0 <= j < i + 1 implies #[trigger] views(vs@)[j] == string_views(
            words@,
        ).take(i + 1)[j] by {
            if j < i {
                assert(views(vs@)[j] == views(before)[j]);
            }
        }
        assert(views(vs@) =~= string_views(words@).take(i + 1));
    }
    assert(string_views(words@).take(n as int) =~= string_views(words@));
    let sep = vec![' '];
    assert(sep@ =~= seq![' ']);
    let joined = crate::text::join_chars(&vs, sep.as_slice());
    string_of(joined.as_slice())
}

/// Puts every other word of `input` in uppercase, starting with the first,
/// and joins the words with single spaces.
pub fn capitalize(input: &str) -> (r: String)
    ensures
        r@ == capitalize_spec(input@),
{
    let cs = chars_of(input);
    let ws = split_words(cs.as_slice());
    let ghost wv = views(ws@);
    let mut out: Vec<String> = Vec::new();
    let n = ws.len();
    for i in 0..n
        invariant
            n == ws@.len(),
            wv == views(ws@),
            wv == words(input@),
            out@.len() == i,
            string_views(out@) == alternate_upper(wv).take(i as int),
    {
        let w = string_of(ws[i].as_slice());
        assert(wv[i as int] == w@);
        let ghost before = out@;
        let x = if i % 2 == 0 {
            to_uppercase(w.as_str())
        } else {
            w
        };
        assert(x@ == alternate_upper(wv)[i as int]);
        out.push(x);
        assert forall|j: int| 0 <= j < i + 1 implies #[trigger] string_views(out@)[j]
            == alternate_upper(wv).take(i + 1)[j] by {
            if j < i {
                assert(out@[j] == before[j]);
                assert(string_views(before)[j] == alternate_upper(wv).take(i as int)[j]);
            }
        }
        assert(string_views(out@) =~= alternate_upper(wv).take(i + 1));
    }
    assert(alternate_upper(wv).take(n as int) =~= alternate_upper(wv));
    join_words(&out)
}


/// The uppercase form of a character, as `char::to_uppercase` gives it.
pub uninterp spec fn char_upper(c: char) -> Seq<char>;

/// The lowercase form of a character, as `char::to_lowercase` gives it.
pub uninterp spec fn char_lower(c: char) -> Seq<char>;

/// Calls `char::to_uppercase` and collects it into a `String`. Trusted to
/// give `char_upper` of `c`.
#[verifier::external_body]
fn char_to_uppercase(c: char) -> (r: String)
    ensures
        r@ == char_upper(c),
{
    c.to_uppercase().to_string()
}

/// Calls `char::to_lowercase` and collects it into a `String`. Trusted to
/// give `char_lower` of `c`.
#[verifier::external_body]
fn char_to_lowercase(c: char) -> (r: String)
    ensures
        r@ == char_lower(c),
{
    c.to_lowercase().to_string()
}

/// `s` with each character put in uppercase where `upper` holds `true`
/// for it, and in lowercase elsewhere.
pub open spec fn mixed_case(s: Seq<char>, upper: Seq<bool>) -> Seq<char>
    decreases s.len(),
{
    if s.len() == 0 {
        Seq::empty()
    } else {
        mixed_case(s.drop_last(), upper.drop_last()) + if upper.last() {
            char_upper(s.last())
        } else {
            char_lower(s.last())
        }
    }
}

/// `input` with each character in uppercase where `upper` holds `true` for
/// it, and in lowercase elsewhere.
pub fn mixed_case_of(input: &str, upper: &Vec<bool>) -> (r: String)
    requires
        upper@.len() == input@.len(),
    ensures
        r@ == mixed_case(input@, upper@),
{
    let cs = chars_of(input);
    let mut out: Vec<char> = Vec::new();
    let n = cs.len();
    for i in 0..n
        invariant
            n == cs@.len(),
            cs@ == input@,
            upper@.len() == n,
            out@ == mixed_case(input@.take(i as int), upper@.take(i as int)),
    {
        assert(input@.take(i + 1).drop_last() =~= input@.take(i as int));
        assert(upper@.take(i + 1).drop_last() =~= upper@.take(i as int));
        let piece = if upper[i] {
            char_to_uppercase(cs[i])
        } else {
            char_to_lowercase(cs[i])
        };
        push_all(&mut out, chars_of(piece.as_str()).as_slice());
    }
    assert(input@.take(n as int) =~= input@);
    assert(upper@.take(n as int) =~= upper@);
    string_of(out.as_slice())
}

/// `input` with each character, at random, in uppercase or in lowercase:
/// one choice is drawn per character, in order.
pub fn random_mixed_case(input: &str, rng: &mut SmallRng) -> (r: String)
    ensures
        exists|upper: Seq<bool>| upper.len() == input@.len() && r@ == mixed_case(input@, upper),
{
    let n = chars_of(input).len();
    let mut upper: Vec<bool> = Vec::new();
    for i in 0..n
        invariant
            upper@.len() == i,
    {
        upper.push(random_ratio(rng, 1, 2));
    }
    mixed_case_of(input, &upper)
}

pub const EMOJIS: [&'static str; 7] = ["🌎", "🔥", "✨", "🚀", "💡", "🎉", "😄"];

pub const SYMBOLS: [&'static str; 6] = ["1234", "!@#$", "..", "--", "++", "#tag"];

/// How a sentence is dressed up: an emoji put before (`true`) or after
/// it, a symbol appended, the case of every character mixed, padding with
/// three spaces, a newline on each side, or the text dropped altogether;
/// each in this order.
pub struct Dressing {
    pub emoji: Option<(int, bool)>,
    pub symbol: Option<int>,
    pub upper: Option<Seq<bool>>,
    pub pad: bool,
    pub newlines: bool,
    pub blank: bool,
}

/// The sentence `s` after the dressing `d`.
pub open spec fn dress(s: Seq<char>, d: Dressing) -> Seq<char> {
    let s1 = match d.emoji {
        Some((i, true)) => EMOJIS@[i]@ + " "@ + s,
        Some((i, false)) => s + " "@ + EMOJIS@[i]@,
        None => s,
    };
    let s2 = match d.symbol {
        Some(i) => s1 + SYMBOLS@[i]@,
        None => s1,
    };
    let s3 = match d.upper {
        Some(u) => mixed_case(s2, u),
        None => s2,
    };
    let s4 = if d.pad {
        "   "@ + s3 + "   "@
    } else {
        s3
    };
    let s5 = if d.newlines {
        "\n"@ + s4 + "\n"@
    } else {
        s4
    };
    if d.blank {
        Seq::empty()
    } else {
        s5
    }
}

/// Whether `d` picks from the lists that exist and mixes the case of every
/// character of the text it applies to.
pub open spec fn dressing_fits(s: Seq<char>, d: Dressing) -> bool {
    let s1 = match d.emoji {
        Some((i, true)) => EMOJIS@[i]@ + " "@ + s,
        Some((i, false)) => s + " "@ + EMOJIS@[i]@,
        None => s,
    };
    let s2 = match d.symbol {
        Some(i) => s1 + SYMBOLS@[i]@,
        None => s1,
    };
    &&& (d.emoji matches Some((i, _)) ==> 0 <= i < 7)
    &&& (d.symbol matches Some(i) ==> 0 <= i < 6)
    &&& (d.upper matches Some(u) ==> u.len() == s2.len())
}

fn concat(a: &str, b: &str) -> (r: String)
    ensures
        r@ == a@ + b@,
{
    let mut out = chars_of(a);
    push_all(&mut out, chars_of(b).as_slice());
    string_of(out.as_slice())
}

/// The dressing that the drawn choices describe.
pub open spec fn dressing_of(
    emoji: Option<(usize, bool)>,
    symbol: Option<usize>,
    upper: Option<Vec<bool>>,
    pad: bool,
    newlines: bool,
    blank: bool,
) -> Dressing {
    Dressing {
        emoji: match emoji {
            Some((i, front)) => Some((i as int, front)),
            None => None,
        },
        symbol: match symbol {
            Some(i) => Some(i as int),
            None => None,
        },
        upper: match upper {
            Some(u) => Some(u@),
            None => None,
        },
        pad,
        newlines,
        blank,
    }
}

/// The sentence with its emoji and symbol, before the case is mixed.
fn with_emoji_and_symbol(sentence: &str, emoji: Option<(usize, bool)>, symbol: Option<usize>) -> (r: String)
    requires
        emoji matches Some((i, _)) ==> i < 7,
        symbol matches Some(i) ==> i < 6,
    ensures
        r@ == ({
            let s1 = match emoji {
                Some((i, true)) => EMOJIS@[i as int]@ + " "@ + sentence@,
                Some((i, false)) => sentence@ + " "@ + EMOJIS@[i as int]@,
                None => sentence@,
            };
            match symbol {
                Some(i) => s1 + SYMBOLS@[i as int]@,
                None => s1,
            }
        }),
{
    let s1 = match emoji {
        Some((i, true)) => concat(concat(EMOJIS[i], " ").as_str(), sentence),
        Some((i, false)) => concat(concat(sentence, " ").as_str(), EMOJIS[i]),
        None => sentence.to_owned(),
    };
    match symbol {
        Some(i) => concat(s1.as_str(), SYMBOLS[i]),
        None => s1,
    }
}

/// The sentence after the dressing that the choices describe.
pub fn dress_text(
    sentence: &str,
    emoji: Option<(usize, bool)>,
    symbol: Option<usize>,
    upper: Option<Vec<bool>>,
    pad: bool,
    newlines: bool,
    blank: bool,
) -> (r: String)
    requires
        dressing_fits(sentence@, dressing_of(emoji, symbol, upper, pad, newlines, blank)),
    ensures
        r@ == dress(sentence@, dressing_of(emoji, symbol, upper, pad, newlines, blank)),
{
    let mut text = with_emoji_and_symbol(sentence, emoji, symbol);
    match upper {
        Some(u) => {
            text = mixed_case_of(text.as_str(), &u);
        },
        None => {},
    }
    if pad {
        text = concat(concat("   ", text.as_str()).as_str(), "   ");
    }
    if newlines {
        text = concat(concat("\n", text.as_str()).as_str(), "\n");
    }
    if blank {
        text = String::new();
    }
    text
}

/// A random text to capitalize: a sentence of the grammar, dressed up at
/// random. The choices are drawn in the order the dressing applies them.
pub fn generate_text(rng: &mut SmallRng) -> (r: String)
    ensures
        exists|s: Seq<char>, d: Dressing|
            is_grammar_sentence(s) && dressing_fits(s, d) && r@ == dress(s, d),
{
    let base = generate_grammar_sentence(rng);
    let emoji = if random_ratio(rng, 3, 10) {
        let i = random_below(rng, 7);
        let front = random_ratio(rng, 1, 2);
        Some((i, front))
    } else {
        None
    };
    let symbol = if random_ratio(rng, 2, 10) {
        Some(random_below(rng, 6))
    } else {
        None
    };
    let upper = if random_ratio(rng, 1, 10) {
        let n = chars_of(with_emoji_and_symbol(base.as_str(), emoji, symbol).as_str()).len();
        let mut flags: Vec<bool> = Vec::new();
        for i in 0..n
            invariant
                flags@.len() == i,
        {
            flags.push(random_ratio(rng, 1, 2));
        }
        Some(flags)
    } else {
        None
    };
    let pad = random_ratio(rng, 1, 10);
    let newlines = random_ratio(rng, 1, 100);
    let blank = random_ratio(rng, 1, 100);
    let ghost d = dressing_of(emoji, symbol, upper, pad, newlines, blank);
    assert(dressing_fits(base@, d));
    dress_text(base.as_str(), emoji, symbol, upper, pad, newlines, blank)
}

} // verus!
