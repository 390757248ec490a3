use ce_envs::coverage::{coverage_counts, esc, filter_coverage, render_filtered, CoverageError, FilteredCoverage};
use ce_envs::runner::{in_cargo_build_dir, is_profile_extension, iteration_dir_name, results_dir};

const SAMPLE: &str = r#"<?xml version="1.0" ?>
<coverage line-rate="0.5" branch-rate="0" lines-covered="3" lines-valid="6" branches-covered="0" branches-valid="0" complexity="0" timestamp="1700000000" version="2.0.3">
  <sources>
    <source>/home/u/proj &amp; co</source>
  </sources>
  <packages>
    <package name="x" line-rate="0.5" branch-rate="0" complexity="0">
      <classes>
        <class name="lib.rs" filename="crates\envs\ce-security\src\lib.rs" line-rate="1" branch-rate="0" complexity="0">
          <methods/>
          <lines>
            <line number="1" hits="3"/>
          </lines>
        </class>
        <class name="analysis.rs" filename="crates\envs\ce-security\src\analysis.rs" line-rate="0.4" branch-rate="0.25" complexity="2" branches-valid="4" branches-covered="1">
          <methods>
            <method name="f"><lines><line number="9" hits="1"/></lines></method>
          </methods>
          <lines>
            <line number="10" hits="2" branch="false"/>
            <line number="11" hits="0"/>
            <line number="0" hits="5"/>
            <line number="12" hits="1" branch="true"/>
          </lines>
        </class>
      </classes>
    </package>
  </packages>
</coverage>
"#;

fn filtered() -> FilteredCoverage {
    match filter_coverage(SAMPLE, "crates/envs/ce-security/src/analysis.rs") {
        Ok(f) => f,
        Err(_) => panic!("the sample should read"),
    }
}

#[test]
fn esc_replaces_the_five_characters() {
    assert_eq!(esc("a<b & 'c' \"d\">"), "a&lt;b &amp; &apos;c&apos; &quot;d&quot;&gt;");
    assert_eq!(esc("plain"), "plain");
    assert_eq!(esc(""), "");
}

#[test]
fn filter_keeps_the_target_class() {
    let f = filtered();
    assert_eq!(f.source, "/home/u/proj & co");
    assert_eq!(f.timestamp, "1700000000");
    assert_eq!(f.version, "2.0.3");
    assert_eq!(f.complexity, "0");
    assert_eq!(f.class_name, "analysis.rs");
    assert_eq!(f.class_filename, "crates/envs/ce-security/src/analysis.rs");
    assert_eq!(f.class_complexity, "2");
    assert_eq!(f.class_branch_rate, "0.25");
    assert_eq!(f.branches_valid, 4);
    assert_eq!(f.branches_covered, 1);
    let lines: Vec<(u64, u64, String)> = f.lines.iter().map(|l| (l.number, l.hits, l.branch.clone())).collect();
    assert_eq!(
        lines,
        vec![(10, 2, "false".to_string()), (11, 0, "false".to_string()), (12, 1, "true".to_string())]
    );
    assert_eq!(f.lines_valid, 3);
    assert_eq!(f.lines_covered, 2);
}

#[test]
fn filter_without_target_class_keeps_defaults() {
    let xml = r#"<coverage timestamp="5"><sources><source>s</source></sources><packages><package><classes><class filename="a/b.rs" name="b.rs"><lines><line number="3" hits="1"/></lines></class></classes></package></packages></coverage>"#;
    let f = match filter_coverage(xml, "x/y.rs") {
        Ok(f) => f,
        Err(_) => panic!("should read"),
    };
    assert_eq!(f.timestamp, "5");
    assert_eq!(f.version, "");
    assert_eq!(f.complexity, "0");
    assert_eq!(f.class_name, "analysis.rs");
    assert_eq!(f.class_filename, "crates/envs/ce-security/src/analysis.rs");
    assert!(f.lines.is_empty());
    assert_eq!(f.lines_valid, 0);
}

#[test]
fn filter_reports_broken_xml() {
    assert!(matches!(filter_coverage("<coverage><a></b></coverage>", "analysis.rs"), Err(CoverageError::Xml(_))));
    assert!(matches!(
        filter_coverage(r#"<coverage timestamp="1" timestamp="2"></coverage>"#, "analysis.rs"),
        Err(CoverageError::Attr(_))
    ));
}

#[test]
fn render_writes_the_kept_class() {
    let f = filtered();
    let out = render_filtered(&f, "0.666666666667", "0.250000000000");
    let expected = String::new()
        + "<?xml version=\"1.0\" encoding=\"utf-8\"?>\n"
        + "<coverage line-rate=\"0.666666666667\" branch-rate=\"0.250000000000\" lines-covered=\"2\" lines-valid=\"3\" branches-covered=\"1\" branches-valid=\"4\" complexity=\"0\" timestamp=\"1700000000\" version=\"2.0.3\">\n"
        + "  <sources>\n"
        + "    <source>/home/u/proj &amp; co</source>\n"
        + "  </sources>\n"
        + "  <packages>\n"
        + "    <package name=\"crates.envs.ce-security.src\" line-rate=\"0.666666666667\" branch-rate=\"0.250000000000\" complexity=\"2\">\n"
        + "      <classes>\n"
        + "        <class name=\"analysis.rs\" filename=\"crates\\envs\\ce-security\\src\\analysis.rs\" line-rate=\"0.666666666667\" branch-rate=\"0.250000000000\" complexity=\"2\">\n"
        + "          <methods />\n"
        + "          <lines>\n"
        + "            <line number=\"10\" hits=\"2\" branch=\"false\" />\n"
        + "            <line number=\"11\" hits=\"0\" branch=\"false\" />\n"
        + "            <line number=\"12\" hits=\"1\" branch=\"true\" />\n"
        + "          </lines>\n"
        + "        </class>\n"
        + "      </classes>\n"
        + "    </package>\n"
        + "  </packages>\n"
        + "</coverage>\n";
    assert_eq!(out, expected);
}

#[test]
fn counts_come_from_the_coverage_element() {
    let c = match coverage_counts(SAMPLE) {
        Ok(c) => c,
        Err(_) => panic!("the sample should read"),
    };
    assert_eq!(c.line_rate, "0.5");
    assert_eq!(c.branch_rate, "0");
    assert_eq!(c.lines_valid, 6);
    assert_eq!(c.lines_covered, 3);
    assert_eq!(c.branches_valid, 0);
    assert_eq!(c.branches_covered, 0);
}

#[test]
fn counts_that_are_no_numbers_read_as_zero() {
    let c = match coverage_counts(r#"<coverage lines-valid="many" lines-covered="+7"/>"#) {
        Ok(c) => c,
        Err(_) => panic!("should read"),
    };
    assert_eq!(c.lines_valid, 0);
    assert_eq!(c.lines_covered, 7);
    assert_eq!(c.line_rate, "");
}

#[test]
fn counts_without_coverage_element_are_zero() {
    let c = match coverage_counts("<other a=\"1\"/>") {
        Ok(c) => c,
        Err(_) => panic!("should read"),
    };
    assert_eq!((c.lines_valid, c.lines_covered, c.branches_valid, c.branches_covered), (0, 0, 0, 0));
}

#[test]
fn counts_report_a_malformed_attribute() {
    assert!(matches!(coverage_counts(r#"<coverage a="1" a="2"/>"#), Err(CoverageError::Attr(_))));
}

#[test]
fn iteration_directories_are_zero_padded() {
    assert_eq!(iteration_dir_name(0), "iter_00000");
    assert_eq!(iteration_dir_name(7), "iter_00007");
    assert_eq!(iteration_dir_name(99999), "iter_99999");
    assert_eq!(iteration_dir_name(123456), "iter_123456");
}

#[test]
fn results_dir_joins_like_paths() {
    assert_eq!(results_dir("/work/ce-security"), "/work/ce-security/src/Coverage/results");
    assert_eq!(results_dir("/work/ce-security/"), "/work/ce-security/src/Coverage/results");
    assert_eq!(results_dir(""), "src/Coverage/results");
}

#[test]
fn build_directories_and_profile_files() {
    assert!(in_cargo_build_dir("release", "target"));
    assert!(in_cargo_build_dir("debug", "target"));
    assert!(!in_cargo_build_dir("debug", "build"));
    assert!(!in_cargo_build_dir("bin", "target"));
    assert!(is_profile_extension("profraw"));
    assert!(is_profile_extension("profdata"));
    assert!(!is_profile_extension("xml"));
    assert!(!is_profile_extension("PROFRAW"));
}

#[test]
fn escaped_text_has_no_markup() {
    let e = esc("<a href=\"x\">'&'</a> & more");
    assert!(!e.contains('<') && !e.contains('>') && !e.contains('"') && !e.contains('\''));
    for (i, _) in e.match_indices('&') {
        let rest = &e[i..];
        assert!(["&amp;", "&lt;", "&gt;", "&quot;", "&apos;"].iter().any(|p| rest.starts_with(p)));
    }
}

#[test]
fn iteration_directories_differ() {
    let names: std::collections::HashSet<String> = (0..20000).map(iteration_dir_name).collect();
    assert_eq!(names.len(), 20000);
}

fn unescape(t: &str) -> String {
    let mut out = String::new();
    let mut rest = t;
    while let Some(c) = rest.chars().next() {
        let entities = [("&amp;", '&'), ("&lt;", '<'), ("&gt;", '>'), ("&quot;", '"'), ("&apos;", '\'')];
        match entities.iter().find(|(e, _)| rest.starts_with(e)) {
            Some((e, ch)) => {
                out.push(*ch);
                rest = &rest[e.len()..];
            }
            None => {
                out.push(c);
                rest = &rest[c.len_utf8()..];
            }
        }
    }
    out
}

#[test]
fn escaping_can_be_undone() {
    for s in ["", "plain", "&amp; is already an entity", "<a href='x'>\"q\"</a>", "ünï & ∑ < 3"] {
        assert_eq!(unescape(&esc(s)), s);
    }
    assert_eq!(esc("no specials here: ✓"), "no specials here: ✓");
}

#[test]
fn another_class_changes_nothing() {
    let extra = r#"<class name="x.rs" filename="src/x.rs" line-rate="1" branch-rate="0.5" complexity="9" branches-valid="8" branches-covered="2"><methods><method name="g"><lines><line number="4" hits="1"/></lines></method></methods><lines><line number="77" hits="9"/></lines></class>
        "#;
    let at = SAMPLE.find("<class name=\"analysis.rs\"").unwrap();
    let with_extra = format!("{}{}{}", &SAMPLE[..at], extra, &SAMPLE[at..]);
    let a = filtered();
    let b = match filter_coverage(&with_extra, "crates/envs/ce-security/src/analysis.rs") {
        Ok(f) => f,
        Err(_) => panic!("should read"),
    };
    assert_eq!(render_filtered(&a, "1", "2"), render_filtered(&b, "1", "2"));
    assert_eq!((a.lines_valid, a.lines_covered), (b.lines_valid, b.lines_covered));
}
