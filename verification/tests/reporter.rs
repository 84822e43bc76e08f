use rblint::diagnostic::{Diagnostic, Severity};
use rblint::reporter::{
    severity_label, rule_default_level, rule_name, rule_short_description, OutputFormat, Report, Reporter,
    TextLine,
};

fn diag(file: &str, line: usize, rule: &str, sev: Severity) -> Diagnostic {
    Diagnostic::new(file, line, 4, rule, "msg", sev)
}

#[test]
fn rule_tables() {
    assert_eq!(rule_name("R001"), "LineTooLong");
    assert_eq!(rule_name("R042"), "HighCyclomaticComplexity");
    assert_eq!(rule_name("R999"), "UnknownRule");
    assert_eq!(rule_short_description("R024"), "Use `puts` instead of `p nil`");
    assert_eq!(rule_short_description("X"), "Unknown rule");
    assert_eq!(rule_default_level("R030"), "error");
    assert_eq!(rule_default_level("R031"), "error");
    assert_eq!(rule_default_level("R025"), "note");
    assert_eq!(rule_default_level("R001"), "warning");
}

#[test]
fn github_annotations() {
    let r = Reporter { format: OutputFormat::Github, show_fixes: false };
    let diags = vec![
        Diagnostic::new("a.rb", 12, 3, "R001", "Line too long", Severity::Error),
        Diagnostic::new("b.rb", 1, 0, "R003", "x", Severity::Info),
    ];
    match r.print(&diags) {
        Report::Github(lines) => {
            assert_eq!(lines.len(), 2);
            assert_eq!(lines[0], "::error file=a.rb,line=12,col=3,title=R001::Line too long");
            assert_eq!(lines[1], "::notice file=b.rb,line=1,col=0,title=R003::x");
        }
        _ => panic!("expected annotations"),
    }
}

#[test]
fn text_report_groups_by_file_and_shows_fixes() {
    let r = Reporter { format: OutputFormat::Text, show_fixes: true };
    let diags = vec![
        diag("a.rb", 1, "R001", Severity::Warning).with_fix("short"),
        diag("a.rb", 2, "R002", Severity::Error),
        diag("b.rb", 10, "R003", Severity::Info),
    ];
    match r.print(&diags) {
        Report::Text(lines) => {
            assert_eq!(lines.len(), 6);
            assert!(matches!(&lines[0], TextLine::FileHeader(f) if f == "a.rb"));
            match &lines[1] {
                TextLine::Finding { location, severity, message, rule } => {
                    assert_eq!(location, "1:4");
                    assert_eq!(*severity, Severity::Warning);
                    assert_eq!(message, "msg");
                    assert_eq!(rule, "[R001]");
                }
                _ => panic!("expected a finding"),
            }
            assert!(matches!(&lines[2], TextLine::Fix(t) if t == "short"));
            assert!(matches!(&lines[3], TextLine::Finding { .. }));
            assert!(matches!(&lines[4], TextLine::FileHeader(f) if f == "b.rb"));
            assert!(matches!(&lines[5], TextLine::Finding { .. }));
        }
        _ => panic!("expected text"),
    }
    let quiet = Reporter { format: OutputFormat::Text, show_fixes: false };
    match quiet.print(&diags) {
        Report::Text(lines) => assert_eq!(lines.len(), 5),
        _ => panic!("expected text"),
    }
}

#[test]
fn sarif_rules_sorted_and_unique() {
    let r = Reporter { format: OutputFormat::Sarif, show_fixes: false };
    let diags = vec![
        diag("dir\\a.rb", 1, "R030", Severity::Error),
        diag("b.rb", 2, "R001", Severity::Warning),
        diag("c.rb", 3, "R030", Severity::Info),
    ];
    match r.print(&diags) {
        Report::Sarif(log) => {
            assert_eq!(log.rules.len(), 2);
            assert_eq!(log.sarif_version, "2.1.0");
            assert_eq!(log.tool_name, "rblint");
            assert_eq!(log.information_uri, "https://github.com/your-repo/rblint");
            assert!(log.schema.ends_with("sarif-2.1.0-rtm.5.json"));
            assert_eq!(log.rules[0].id, "R001");
            assert_eq!(log.rules[0].name, "LineTooLong");
            assert_eq!(log.rules[0].level, "warning");
            assert_eq!(log.rules[1].id, "R030");
            assert_eq!(log.rules[1].short_description, "Unbalanced brackets/parentheses/braces");
            assert_eq!(
                log.rules[1].help_uri,
                "https://github.com/your-repo/rblint/blob/main/docs/rules/R030.md"
            );
            assert_eq!(log.rules[1].level, "error");
            assert_eq!(log.results.len(), 3);
            assert_eq!(log.results[0].uri, "dir/a.rb");
            assert_eq!(log.results[0].level, "error");
            assert_eq!(log.results[2].level, "note");
            assert_eq!(log.results[1].start_line, 2);
            assert_eq!(log.results[1].start_column, 4);
        }
        _ => panic!("expected sarif"),
    }
}

#[test]
fn json_format_reports_the_findings_themselves() {
    let r = Reporter { format: OutputFormat::Json, show_fixes: false };
    assert!(matches!(r.print(&[]), Report::Json));
}

#[test]
fn summary_counts_severities() {
    let r = Reporter { format: OutputFormat::Text, show_fixes: false };
    let diags = vec![
        diag("a.rb", 1, "R001", Severity::Warning),
        diag("a.rb", 2, "R002", Severity::Error),
        diag("a.rb", 3, "R002", Severity::Warning),
    ];
    let s = r.summary(&diags, 3).unwrap();
    assert_eq!((s.errors, s.warnings, s.infos), (1, 2, 0));
    assert_eq!(s.errors + s.warnings + s.infos, diags.len());
    assert_eq!((s.error_word, s.warning_word, s.file_word), ("error", "warnings", "files"));
    assert!(!s.all_passed);
    assert_eq!(
        (s.errors_text.as_str(), s.warnings_text.as_str(), s.infos_text.as_str(), s.files_text.as_str()),
        ("1 error", "2 warnings", "0 info", "3")
    );
    let none = r.summary(&[], 1).unwrap();
    assert_eq!((none.error_word, none.warning_word, none.file_word), ("errors", "warnings", "file"));
    assert!(none.all_passed);
    let j = Reporter { format: OutputFormat::Json, show_fixes: false };
    assert!(j.summary(&diags, 3).is_none());
}

#[test]
fn sarif_rule_order_is_by_code_point() {
    let r = Reporter { format: OutputFormat::Sarif, show_fixes: false };
    let diags = vec![
        diag("a.rb", 1, "b", Severity::Info),
        diag("a.rb", 1, "R10", Severity::Info),
        diag("a.rb", 1, "B", Severity::Info),
        diag("a.rb", 1, "R002", Severity::Info),
        diag("a.rb", 1, "b", Severity::Info),
    ];
    match r.print(&diags) {
        Report::Sarif(log) => {
            let ids: Vec<&str> = log.rules.iter().map(|r| r.id.as_str()).collect();
            assert_eq!(ids, vec!["B", "R002", "R10", "b"]);
            assert_eq!(log.rules[0].name, "UnknownRule");
        }
        _ => panic!("expected sarif"),
    }
}

#[test]
fn severity_labels_share_one_width() {
    assert_eq!(severity_label(Severity::Error), "error  ");
    assert_eq!(severity_label(Severity::Warning), "warning");
    assert_eq!(severity_label(Severity::Info), "info   ");
}
