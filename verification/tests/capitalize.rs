use ce_envs::capitalize::{capitalize, dress_text, generate_text, join_words, mixed_case_of, random_mixed_case};
use ce_envs::sentences::{generate_grammar_sentence, grammar_sentence_of, ADJECTIVES, ADVERBS, CLAUSES, OBJECTS, SUBJECTS, VERBS};
use rand::rngs::SmallRng;
use rand::SeedableRng;

#[test]
fn capitalize_alternates_words() {
    assert_eq!(capitalize("hello world foo bar"), "HELLO world FOO bar");
}

#[test]
fn capitalize_collapses_whitespace() {
    assert_eq!(capitalize("  one \t two\n\nthree  "), "ONE two THREE");
}

#[test]
fn capitalize_empty_and_blank() {
    assert_eq!(capitalize(""), "");
    assert_eq!(capitalize(" \n\t "), "");
}

#[test]
fn capitalize_single_word() {
    assert_eq!(capitalize("rust"), "RUST");
}

#[test]
fn capitalize_uses_full_unicode_uppercase() {
    assert_eq!(capitalize("straße weiß groß"), "STRASSE weiß GROSS");
}

#[test]
fn capitalize_keeps_odd_words() {
    assert_eq!(capitalize("a MiXeD b"), "A MiXeD B");
}

#[test]
fn join_words_uses_single_spaces() {
    let words = vec!["a".to_string(), "bc".to_string(), "".to_string(), "d".to_string()];
    assert_eq!(join_words(&words), "a bc  d");
    assert_eq!(join_words(&Vec::new()), "");
}

#[test]
fn grammar_sentences_are_well_formed() {
    let mut rng = SmallRng::seed_from_u64(11);
    for _ in 0..200 {
        let s = generate_grammar_sentence(&mut rng);
        assert!(s.ends_with('.'));
        assert!(SUBJECTS.iter().any(|subject| s.starts_with(subject)));
        if s.contains(" the ") && ADJECTIVES.iter().any(|a| s.contains(a)) {
            assert!(s.len() > 10);
        }
    }
}

#[test]
fn mixed_case_changes_only_case() {
    let mut rng = SmallRng::seed_from_u64(3);
    let s = random_mixed_case("Hello World", &mut rng);
    assert_eq!(s.to_lowercase(), "hello world");
}

#[test]
fn generated_texts_hold_a_sentence() {
    let mut rng = SmallRng::seed_from_u64(5);
    for _ in 0..300 {
        let t = generate_text(&mut rng);
        if !t.is_empty() {
            let lower = t.to_lowercase();
            assert!(SUBJECTS.iter().any(|subject| lower.contains(&subject.to_lowercase())));
        }
    }
}

#[test]
fn mixed_case_flips_some_characters() {
    let mut rng = SmallRng::seed_from_u64(8);
    let s = random_mixed_case("abcdefghijklmnopqrstuvwxyz", &mut rng);
    assert_eq!(s.len(), 26);
    assert!(s.chars().any(|c| c.is_ascii_uppercase()));
    assert!(s.chars().any(|c| c.is_ascii_lowercase()));
    for (a, b) in s.chars().zip("abcdefghijklmnopqrstuvwxyz".chars()) {
        assert_eq!(a.to_ascii_lowercase(), b);
    }
    let t = random_mixed_case("ABCDEFGHIJKLMNOPQRSTUVWXYZ", &mut rng);
    assert!(t.chars().any(|c| c.is_ascii_lowercase()));
}

#[test]
fn sentences_follow_the_picks() {
    assert_eq!(grammar_sentence_of(0, 0, 0, 0, 0, 0), format!("{} {} {} {}.", SUBJECTS[0], VERBS[0], OBJECTS[0], ADVERBS[0]));
    assert_eq!(grammar_sentence_of(1, 1, 2, 3, 4, 0), format!("{} {} the {} {}.", SUBJECTS[1], VERBS[2], ADJECTIVES[3], OBJECTS[4]));
    assert_eq!(grammar_sentence_of(2, 7, 6, 8, 7, 5), format!("{} {} {} {} {}.", SUBJECTS[7], ADVERBS[6], VERBS[8], ADJECTIVES[7], OBJECTS[5]));
    assert_eq!(grammar_sentence_of(3, 2, 1, 0, 4, 0), format!("{} {} {} {}.", SUBJECTS[2], VERBS[1], OBJECTS[0], CLAUSES[4]));
    assert_eq!(grammar_sentence_of(4, 3, 4, 5, 6, 7), format!("{} {} {} while {} {}.", SUBJECTS[3], VERBS[4], OBJECTS[5], SUBJECTS[6], VERBS[7]));
}

#[test]
fn mixed_case_follows_the_flags() {
    assert_eq!(mixed_case_of("aBcD", &vec![true, true, false, false]), "ABcd");
    assert_eq!(mixed_case_of("ß", &vec![true]), "SS");
    assert_eq!(mixed_case_of("", &Vec::new()), "");
}

#[test]
fn dressing_follows_the_choices() {
    assert_eq!(dress_text("Hi.", Some((1, true)), Some(5), None, false, false, false), "🔥 Hi.#tag");
    assert_eq!(dress_text("Hi.", Some((0, false)), None, None, true, true, false), "\n   Hi. 🌎   \n");
    assert_eq!(dress_text("ab", None, Some(2), Some(vec![true, false, true, false]), false, false, false), "Ab..");
    assert_eq!(dress_text("ab", None, None, None, true, false, true), "");
}
