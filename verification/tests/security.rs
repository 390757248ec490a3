use ce_envs::security::{compare_sets, flow, validate_output, Flow, Output, ValidationResult};

fn flows(pairs: &[(&str, &str)]) -> Vec<Flow> {
    pairs.iter().map(|(a, b)| flow(a, b)).collect()
}

#[test]
fn flow_builds_a_flow() {
    let f = flow("a", "b");
    assert_eq!(f.from, "a");
    assert_eq!(f.into, "b");
}

#[test]
fn violations_are_the_flows_not_allowed() {
    let actual = flows(&[("x", "y"), ("y", "z"), ("z", "x")]);
    let allowed = flows(&[("y", "z"), ("x", "x")]);
    let out = Output::from_flows(actual.clone(), allowed.clone());
    assert_eq!(out.actual, actual);
    assert_eq!(out.allowed, allowed);
    assert_eq!(out.violations, flows(&[("x", "y"), ("z", "x")]));
    assert!(!out.is_secure);
}

#[test]
fn all_allowed_is_secure() {
    let actual = flows(&[("x", "y")]);
    let allowed = flows(&[("x", "y"), ("y", "x")]);
    let out = Output::from_flows(actual, allowed);
    assert!(out.violations.is_empty());
    assert!(out.is_secure);
}

#[test]
fn no_flows_is_secure() {
    let out = Output::from_flows(Vec::new(), Vec::new());
    assert!(out.is_secure);
}

#[test]
fn sets_ignore_order_and_repetition() {
    let a = flows(&[("a", "b"), ("c", "d"), ("a", "b")]);
    let b = flows(&[("c", "d"), ("a", "b")]);
    assert!(compare_sets(&a, &b));
    let c = flows(&[("c", "d")]);
    assert!(!compare_sets(&a, &c));
    assert!(!compare_sets(&c, &a));
}

#[test]
fn an_output_validates_against_itself() {
    let out = Output::from_flows(flows(&[("x", "y")]), flows(&[]));
    assert!(matches!(validate_output(&out, &out), ValidationResult::Correct));
}

#[test]
fn validation_reports_the_first_mismatch() {
    let reference = Output::from_flows(flows(&[("x", "y")]), flows(&[("x", "y")]));
    let wrong_actual = Output::from_flows(flows(&[("y", "x")]), flows(&[("x", "y")]));
    match validate_output(&reference, &wrong_actual) {
        ValidationResult::Mismatch { reason } => {
            assert_eq!(reason, "actual flows does not match reference")
        }
        _ => panic!("expected a mismatch"),
    }
    let wrong_allowed = Output::from_flows(flows(&[("x", "y")]), flows(&[]));
    match validate_output(&reference, &wrong_allowed) {
        ValidationResult::Mismatch { reason } => {
            assert_eq!(reason, "allowed flows does not match reference")
        }
        _ => panic!("expected a mismatch"),
    }
    let mut wrong_violations = Output::from_flows(flows(&[("x", "y")]), flows(&[("x", "y")]));
    wrong_violations.violations = flows(&[("x", "y")]);
    match validate_output(&reference, &wrong_violations) {
        ValidationResult::Mismatch { reason } => {
            assert_eq!(reason, "violations does not match reference")
        }
        _ => panic!("expected a mismatch"),
    }
    let mut wrong_secure = Output::from_flows(flows(&[("x", "y")]), flows(&[("x", "y")]));
    wrong_secure.is_secure = false;
    match validate_output(&reference, &wrong_secure) {
        ValidationResult::Mismatch { reason } => {
            assert_eq!(reason, "expected secure, but got insecure")
        }
        _ => panic!("expected a mismatch"),
    }
    let insecure = Output::from_flows(flows(&[("x", "y")]), flows(&[]));
    let mut claims_secure = Output::from_flows(flows(&[("x", "y")]), flows(&[]));
    claims_secure.is_secure = true;
    match validate_output(&insecure, &claims_secure) {
        ValidationResult::Mismatch { reason } => {
            assert_eq!(reason, "expected insecure, but got secure")
        }
        _ => panic!("expected a mismatch"),
    }
}
