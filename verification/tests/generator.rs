use ce_envs::command::{parse_command, Command, ParseError};
use ce_envs::generator::{generate_script, script_of, ScriptEntry, MALFORMED, STUDENT_NAMES, SUBJECT_NAMES};
use ce_envs::grades::is_valid_danish_grade;
use rand::rngs::SmallRng;
use rand::SeedableRng;

#[test]
fn generated_scripts_have_the_documented_shape() {
    for seed in 0..200u64 {
        let mut rng = SmallRng::seed_from_u64(seed);
        let script = generate_script(&mut rng);
        assert!(script.ends_with('\n'));
        let lines: Vec<&str> = script.lines().collect();
        let assigns = lines.iter().take_while(|l| l.starts_with("Grade ") && l.split_whitespace().count() == 6).count();
        assert!((6..=10).contains(&assigns), "seed {}: {} assignments", seed, assigns);
        let mixed = lines.len() - assigns;
        assert!((5..=8).contains(&mixed), "seed {}: {} other lines", seed, mixed);
        let mut assigned: Vec<(i8, String, String)> = Vec::new();
        for l in &lines[..assigns] {
            match parse_command(l).unwrap() {
                Command::Assign { grade, student, subject } => {
                    assert!(is_valid_danish_grade(grade));
                    assert!(STUDENT_NAMES.contains(&student.as_str()));
                    assert!(SUBJECT_NAMES.contains(&subject.as_str()));
                    assigned.push((grade, student, subject));
                }
                other => panic!("seed {}: {:?}", seed, other),
            }
        }
        for l in &lines[assigns..] {
            match parse_command(l) {
                Ok(Command::RemoveGrade { grade, student, subject }) => {
                    assert!(assigned.contains(&(grade, student, subject)), "seed {}: {}", seed, l);
                }
                Ok(Command::ShowStudent(n)) | Ok(Command::AverageStudent(n)) => {
                    assert!(STUDENT_NAMES.contains(&n.as_str()));
                }
                Ok(Command::ShowSubject(n)) | Ok(Command::AverageSubject(n)) => {
                    assert!(SUBJECT_NAMES.contains(&n.as_str()));
                }
                Ok(Command::Assign { .. }) => panic!("seed {}: late assignment {}", seed, l),
                Err(ParseError::InvalidFormat(raw)) | Err(ParseError::UnknownCommand(raw)) => {
                    assert!(MALFORMED.contains(&raw.as_str()), "seed {}: {}", seed, l);
                }
                Err(ParseError::InvalidGrade(g)) => panic!("seed {}: bad grade {}", seed, g),
            }
        }
    }
}

#[test]
fn script_text_follows_the_entries() {
    let entries = vec![
        ScriptEntry::Assign { grade: -3, student: 2, subject: 1 },
        ScriptEntry::ShowStudent(1),
        ScriptEntry::ShowSubject(2),
        ScriptEntry::Remove { grade: 12, student: 0, subject: 0 },
        ScriptEntry::AverageStudent(0),
        ScriptEntry::AverageSubject(1),
        ScriptEntry::Malformed(4),
    ];
    assert_eq!(
        script_of(&entries),
        "Grade -3 to Emma at Science\nShow student Bob\nShow subject English\nRemove grade 12 from Alice at Math\nAverage student Alice\nAverage subject Science\n???\n"
    );
    assert_eq!(script_of(&Vec::new()), "");
}
