use ce_envs::challenge2::{run_script, Reply};
use ce_envs::command::{parse_command, Command, ParseError};
use ce_envs::gradebook::GradeBook;
use ce_envs::grades::{is_valid_danish_grade, DANISH_GRADES};

fn texts(replies: &[Reply]) -> Vec<String> {
    replies
        .iter()
        .map(|r| match r {
            Reply::Text(t) => t.clone(),
            Reply::Average { name, grades } => format!("AVG {} {:?}", name, grades),
        })
        .collect()
}

#[test]
fn danish_grades_are_exactly_the_scale() {
    for g in i8::MIN..=i8::MAX {
        assert_eq!(is_valid_danish_grade(g), DANISH_GRADES.contains(&g));
    }
    assert!(is_valid_danish_grade(-3));
    assert!(!is_valid_danish_grade(1));
}

#[test]
fn parse_ignores_case_and_outer_space() {
    match parse_command("  GRADE 7 to Bob at English  ").unwrap() {
        Command::Assign { grade, student, subject } => {
            assert_eq!(grade, 7);
            assert_eq!(student, "Bob");
            assert_eq!(subject, "English");
        }
        other => panic!("unexpected {:?}", other),
    }
}

#[test]
fn parse_accepts_a_plus_sign() {
    match parse_command("grade +12 to A at M").unwrap() {
        Command::Assign { grade, .. } => assert_eq!(grade, 12),
        other => panic!("unexpected {:?}", other),
    }
}

#[test]
fn parse_reports_a_grade_that_is_no_number() {
    match parse_command("grade x to Alice at Math").unwrap_err() {
        ParseError::InvalidGrade(g) => assert_eq!(g, "x"),
        other => panic!("unexpected {:?}", other),
    }
    match parse_command("grade 300 to Alice at Math").unwrap_err() {
        ParseError::InvalidGrade(g) => assert_eq!(g, "300"),
        other => panic!("unexpected {:?}", other),
    }
}

#[test]
fn parse_reports_short_commands() {
    match parse_command("grade 7 to Alice").unwrap_err() {
        ParseError::InvalidFormat(raw) => assert_eq!(raw, "grade 7 to Alice"),
        other => panic!("unexpected {:?}", other),
    }
    match parse_command("remove grade 4 from Bob").unwrap_err() {
        ParseError::InvalidFormat(raw) => assert_eq!(raw, "remove grade 4 from Bob"),
        other => panic!("unexpected {:?}", other),
    }
    match parse_command("Grade to Alice at Math").unwrap_err() {
        ParseError::InvalidFormat(raw) => assert_eq!(raw, "Grade to Alice at Math"),
        other => panic!("unexpected {:?}", other),
    }
}

#[test]
fn parse_removal_checks_the_grade() {
    match parse_command("remove grade 5 from Bob at Math").unwrap_err() {
        ParseError::InvalidGrade(g) => assert_eq!(g, "5"),
        other => panic!("unexpected {:?}", other),
    }
}

#[test]
fn parse_keyword_without_name_is_unknown() {
    match parse_command("show subject   ").unwrap_err() {
        ParseError::UnknownCommand(raw) => assert_eq!(raw, "show subject"),
        other => panic!("unexpected {:?}", other),
    }
    match parse_command("average").unwrap_err() {
        ParseError::UnknownCommand(raw) => assert_eq!(raw, "average"),
        other => panic!("unexpected {:?}", other),
    }
}

#[test]
fn parse_names_keep_inner_spaces() {
    match parse_command("show subject Math 101").unwrap() {
        Command::ShowSubject(s) => assert_eq!(s, "Math 101"),
        other => panic!("unexpected {:?}", other),
    }
    match parse_command("Average Student  Alice  ").unwrap() {
        Command::AverageStudent(s) => assert_eq!(s, "Alice"),
        other => panic!("unexpected {:?}", other),
    }
    match parse_command("show student Åse").unwrap() {
        Command::ShowStudent(s) => assert_eq!(s, "Åse"),
        other => panic!("unexpected {:?}", other),
    }
}

#[test]
fn show_subject_lists_rows_in_order() {
    let mut gb = GradeBook::new();
    gb.assign(12, "Alice".into(), "Math".into());
    gb.assign(4, "Bob".into(), "Math".into());
    gb.assign(-3, "Alice".into(), "Math".into());
    assert_eq!(
        gb.show_subject("Math"),
        "Grades for subject 'Math':\n  Alice: [12, -3]\n  Bob: [4]\n"
    );
    assert_eq!(gb.show_student("Bob"), "Grades for student 'Bob':\n  Math: [4]\n");
}

#[test]
fn show_unknown_names() {
    let gb = GradeBook::new();
    assert_eq!(gb.show_subject("Art"), "No grades recorded for subject 'Art'.\n");
    assert_eq!(gb.show_student("Zed"), "No grades recorded for student 'Zed'.\n");
}

#[test]
fn removing_the_last_grade_forgets_the_names() {
    let mut gb = GradeBook::new();
    gb.assign(12, "Bob".into(), "Math".into());
    assert!(gb.remove_grade(12, "Bob", "Math"));
    assert_eq!(gb.show_student("Bob"), "No grades recorded for student 'Bob'.\n");
    assert_eq!(gb.show_subject("Math"), "No grades recorded for subject 'Math'.\n");
    assert_eq!(gb.subject_grades("Math"), None);
    assert_eq!(gb.student_grades("Bob"), None);
}

#[test]
fn remove_takes_one_of_equal_grades() {
    let mut gb = GradeBook::new();
    gb.assign(7, "Emma".into(), "Science".into());
    gb.assign(2, "Emma".into(), "Science".into());
    gb.assign(7, "Emma".into(), "Science".into());
    assert!(gb.remove_grade(7, "Emma", "Science"));
    assert_eq!(gb.student_grades("Emma"), Some(vec![2, 7]));
    assert_eq!(gb.subject_grades("Science"), Some(vec![2, 7]));
}

#[test]
fn remove_from_another_name_changes_nothing() {
    let mut gb = GradeBook::new();
    gb.assign(7, "Emma".into(), "Science".into());
    assert!(!gb.remove_grade(7, "Emma", "Math"));
    assert!(!gb.remove_grade(7, "Bob", "Science"));
    assert_eq!(gb.student_grades("Emma"), Some(vec![7]));
}

#[test]
fn grades_over_all_rows() {
    let mut gb = GradeBook::new();
    gb.assign(12, "Alice".into(), "Math".into());
    gb.assign(4, "Bob".into(), "Math".into());
    gb.assign(10, "Alice".into(), "English".into());
    gb.assign(0, "Alice".into(), "Math".into());
    assert_eq!(gb.subject_grades("Math"), Some(vec![12, 0, 4]));
    assert_eq!(gb.student_grades("Alice"), Some(vec![12, 0, 10]));
    assert_eq!(gb.subject_grades("Art"), None);
}

#[test]
fn assign_then_remove_restores_the_book() {
    let mut gb = GradeBook::new();
    gb.assign(4, "Bob".into(), "Math".into());
    let before = (gb.show_subject("Math"), gb.show_student("Bob"));
    gb.assign(10, "Bob".into(), "Math".into());
    assert!(gb.remove_grade(10, "Bob", "Math"));
    assert_eq!((gb.show_subject("Math"), gb.show_student("Bob")), before);
}

#[test]
fn script_replies_line_by_line() {
    let script = "Grade 12 to Alice at Math\n\n   \nshow student Alice\nremove grade 12 from Alice at Math\nremove grade 12 from Alice at Math\naverage student Alice\nfoo\ngrade 3 to A at B\ngrade 7 to A\naverage subject Art\n";
    let replies = run_script(script);
    assert_eq!(
        texts(&replies),
        vec![
            "Grade assigned successfully.\n".to_string(),
            "Grades for student 'Alice':\n  Math: [12]\n".to_string(),
            "Grade removed successfully.\n".to_string(),
            "Grade not found.\n".to_string(),
            "No grades for student 'Alice'\n".to_string(),
            "Unknown command: 'foo'\n".to_string(),
            "Invalid Danish grade '3'. Valid grades: [-3, 0, 2, 4, 7, 10, 12]\n".to_string(),
            "Invalid format: 'grade 7 to A'\n".to_string(),
            "No grades for subject 'Art'\n".to_string(),
        ]
    );
}

#[test]
fn script_averages_hand_back_the_grades() {
    let replies = run_script("grade 12 to A at M\r\ngrade 7 to A at N\ngrade 2 to B at M\naverage student A\naverage subject M");
    assert_eq!(
        texts(&replies)[3..].to_vec(),
        vec!["AVG A [12, 7]".to_string(), "AVG M [12, 2]".to_string()]
    );
}

#[test]
fn empty_script_has_no_replies() {
    assert!(run_script("").is_empty());
    assert!(run_script("\n \n\t\n").is_empty());
}

#[test]
fn both_tables_show_the_same_grades() {
    let mut gb = GradeBook::new();
    gb.assign(12, "Alice".into(), "Math".into());
    gb.assign(0, "Alice".into(), "Math".into());
    gb.assign(7, "Bob".into(), "Math".into());
    assert!(gb.show_subject("Math").contains("  Alice: [12, 0]\n"));
    assert!(gb.show_student("Alice").contains("  Math: [12, 0]\n"));
    assert!(gb.show_student("Bob").contains("  Math: [7]\n"));
}

#[test]
fn only_danish_grades_are_parsed() {
    for g in i8::MIN..=i8::MAX {
        let assign = parse_command(&format!("grade {} to A at B", g));
        let remove = parse_command(&format!("remove grade {} from A at B", g));
        if DANISH_GRADES.contains(&g) {
            assert!(matches!(assign, Ok(Command::Assign { grade, .. }) if grade == g));
            assert!(matches!(remove, Ok(Command::RemoveGrade { grade, .. }) if grade == g));
        } else {
            assert!(matches!(assign, Err(ParseError::InvalidGrade(ref raw)) if *raw == g.to_string()));
            assert!(matches!(remove, Err(ParseError::InvalidGrade(ref raw)) if *raw == g.to_string()));
        }
    }
}

#[test]
fn removing_a_repeated_grade_keeps_the_multiset() {
    let mut gb = GradeBook::new();
    gb.assign(7, "Emma".into(), "Math".into());
    gb.assign(2, "Emma".into(), "Math".into());
    gb.assign(7, "Emma".into(), "Math".into());
    assert!(gb.remove_grade(7, "Emma", "Math"));
    assert_eq!(gb.student_grades("Emma"), Some(vec![2, 7]));
}
