use ce_envs::classify::{assign_levels, classification_levels};
use ce_envs::lattice::{lattice_classes, lattice_def, lattice_input, vars_in_order, pick_lattice, pick_vars, shuffle, LATTICE_COUNT, VARS};
use ce_envs::security::{flow, SecurityLatticeInput};
use rand::rngs::SmallRng;
use rand::SeedableRng;

fn lattice(pairs: &[(&str, &str)]) -> SecurityLatticeInput {
    SecurityLatticeInput { rules: pairs.iter().map(|(a, b)| flow(a, b)).collect() }
}

#[test]
fn lattice_classes_are_sorted_and_unique() {
    let l = lattice(&[("public", "shared"), ("shared", "Alice"), ("shared", "Bob")]);
    assert_eq!(lattice_classes(&l), vec!["Alice", "Bob", "public", "shared"]);
    assert!(lattice_classes(&lattice(&[])).is_empty());
    assert_eq!(lattice_classes(&lattice(&[("b", "b"), ("ab", "a")])), vec!["a", "ab", "b"]);
}

#[test]
fn lattice_classes_order_by_code_point() {
    let l = lattice(&[("é", "z"), ("Z", "a")]);
    assert_eq!(lattice_classes(&l), vec!["Z", "a", "z", "é"]);
}

#[test]
fn picked_lattices_are_known_ones() {
    let mut rng = SmallRng::seed_from_u64(9);
    for _ in 0..100 {
        let l = pick_lattice(&mut rng);
        let found = (0..LATTICE_COUNT).any(|i| {
            let def = lattice_def(i);
            def.len() == l.rules.len()
                && def.iter().zip(l.rules.iter()).all(|((a, b), f)| f.from == *a && f.into == *b)
        });
        assert!(found);
    }
    assert_eq!(lattice_def(0), &[("public", "private")]);
    assert_eq!(lattice_def(15).len(), 3);
}

#[test]
fn shuffle_keeps_the_items() {
    let mut rng = SmallRng::seed_from_u64(1);
    let mut v: Vec<u32> = (0..20).collect();
    shuffle(&mut rng, &mut v);
    let mut sorted = v.clone();
    sorted.sort();
    assert_eq!(sorted, (0..20).collect::<Vec<u32>>());
    assert_ne!(v, sorted);
    let mut empty: Vec<u32> = Vec::new();
    shuffle(&mut rng, &mut empty);
    assert!(empty.is_empty());
}

#[test]
fn picked_variables_are_distinct_names() {
    let mut rng = SmallRng::seed_from_u64(4);
    for (min, max) in [(3usize, 5usize), (5, 6), (0, 0), (1, 9), (6, 6)] {
        for _ in 0..50 {
            let vs = pick_vars(&mut rng, min, max);
            let lo = min.max(1).min(max);
            let hi = max.min(VARS.len());
            assert!(lo <= vs.len() && vs.len() <= hi, "{} {} {:?}", min, max, vs);
            for (i, v) in vs.iter().enumerate() {
                assert!(VARS.contains(&v.as_str()));
                assert!(!vs[..i].contains(v));
            }
        }
    }
}

#[test]
fn small_lattices_fall_back_to_low_and_high() {
    assert_eq!(classification_levels(&lattice(&[])), vec!["low", "high"]);
    assert_eq!(classification_levels(&lattice(&[("x", "x")])), vec!["low", "high"]);
    assert_eq!(classification_levels(&lattice(&[("x", "y")])), vec!["x", "y"]);
}

fn names(v: &[&str]) -> Vec<String> {
    v.iter().map(|s| s.to_string()).collect()
}

#[test]
fn levels_are_spread_evenly() {
    let l = lattice(&[("low", "medium"), ("medium", "high")]);
    let vars = names(&["a", "b", "c", "d", "e", "f", "g"]);
    let lhs = vec![3, 1, 0, 2, 2, 5, 1];
    let guards = vec![0, 4, 1, 1, 0, 2, 0];
    for seed in 0..100u64 {
        let mut rng = SmallRng::seed_from_u64(seed);
        let r = assign_levels(&mut rng, &l, &vars, &lhs, &guards);
        assert!(3 <= r.len() && r.len() <= 6);
        let mut seen: Vec<&str> = Vec::new();
        for (v, lvl) in &r {
            assert!(vars.contains(v));
            assert!(!seen.contains(&v.as_str()));
            seen.push(v);
            assert!(["low", "medium", "high"].contains(&lvl.as_str()));
        }
        let key = |v: &String| {
            let i = vars.iter().position(|w| w == v).unwrap();
            (std::cmp::Reverse(lhs[i]), guards[i])
        };
        for w in r.windows(2) {
            assert!(key(&w[0].0) <= key(&w[1].0));
        }
        let d = r.len().min(3);
        for i in 0..d {
            for j in 0..i {
                assert_ne!(r[i].1, r[j].1);
            }
        }
        let count = |lvl: &str| r.iter().filter(|(_, l)| l == lvl).count();
        let counts: Vec<usize> = r[..d].iter().map(|(_, l)| count(l)).collect();
        assert!(counts.iter().max().unwrap() - counts.iter().min().unwrap() <= 1);
        assert_eq!(counts.iter().sum::<usize>(), r.len());
    }
}

#[test]
fn few_variables_are_all_classified() {
    let l = lattice(&[]);
    let vars = names(&["q", "p"]);
    let mut rng = SmallRng::seed_from_u64(2);
    let r = assign_levels(&mut rng, &l, &vars, &vec![0, 0], &vec![0, 0]);
    assert_eq!(r.len(), 2);
    assert_ne!(r[0].1, r[1].1);
    assert!(r.iter().all(|(_, l)| l == "low" || l == "high"));
    let none = assign_levels(&mut rng, &l, &Vec::new(), &Vec::new(), &Vec::new());
    assert!(none.is_empty());
}

#[test]
fn lattice_inputs_hold_their_rules() {
    let l = lattice_input(4);
    let pairs: Vec<(String, String)> = l.rules.iter().map(|f| (f.from.clone(), f.into.clone())).collect();
    assert_eq!(
        pairs,
        vec![
            ("unclassified".to_string(), "classified".to_string()),
            ("classified".to_string(), "secret".to_string()),
            ("secret".to_string(), "top_secret".to_string()),
        ]
    );
}

#[test]
fn variables_follow_the_order() {
    assert_eq!(vars_in_order(&vec![5, 0, 3, 1, 2, 4], 3), vec!["z", "a", "x"]);
    assert!(vars_in_order(&vec![0, 1, 2, 3, 4, 5], 0).is_empty());
}
