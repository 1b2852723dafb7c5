use linelint::config::Config;
use linelint::line::LineEnding;
use linelint::line_end_lint::LineEndLint;
use linelint::linter::Linter;
use linelint::rule::Rule;
use linelint::trailing_ws_lint::TrailingWhitespaceLint;

fn default_config(line_ending: LineEnding) -> Config {
    let mut config = Config::new(line_ending);
    config.add_rule(Rule::LineEnd(LineEndLint {}));
    config.add_rule(Rule::TrailingWhitespace(TrailingWhitespaceLint {}));
    config
}

#[test]
fn empty_content_is_a_fixed_point() {
    let config = default_config(LineEnding::Auto);
    let linter = Linter::new(&config);
    assert_eq!(linter.format(b""), b"".to_vec());
    assert!(linter.check("f", b"").is_empty());
}

#[test]
fn terminal_newline_runs_collapse() {
    let config = default_config(LineEnding::Auto);
    let linter = Linter::new(&config);
    assert_eq!(linter.format(b"\n\n\n"), b"\n".to_vec());
    let issues = linter.check("f", b"\n\n");
    assert_eq!(issues.len(), 1);
    assert_eq!(issues[0].description, "File has multiple trailing line endings");
    assert!(linter.check("f", b"\n").is_empty());
}

#[test]
fn missing_terminator_is_flagged_and_added() {
    let config = default_config(LineEnding::Unix);
    let linter = Linter::new(&config);
    assert_eq!(linter.format(b"line"), b"line\n".to_vec());
    let issues = linter.check("f", b"line");
    assert_eq!(issues.len(), 1);
    assert_eq!(issues[0].line_number, 1);
}

#[test]
fn trailing_whitespace_is_flagged_and_trimmed() {
    let config = default_config(LineEnding::Auto);
    let linter = Linter::new(&config);
    let issues = linter.check("f", b"a   \nb\n");
    assert_eq!(issues.len(), 1);
    assert_eq!(issues[0].line_number, 1);
    assert_eq!(issues[0].rule, "TrailingWhitespace");
    assert_eq!(linter.format(b"a   \nb\n"), b"a\nb\n".to_vec());
}

#[test]
fn blank_line_mid_file_is_no_violation() {
    let config = default_config(LineEnding::Auto);
    let linter = Linter::new(&config);
    assert!(linter.check("f", b"a\n\nb\n").is_empty());
}

#[test]
fn formatting_is_idempotent_on_messy_content() {
    let config = default_config(LineEnding::Auto);
    let linter = Linter::new(&config);
    let contents: [&[u8]; 6] =
        [b"a  \nb\n\n\n", b"line", b"", b"\n\n\n", b"c\n\nd\t\n", b"x \ny\n"];
    for content in contents {
        let once = linter.format(content);
        let twice = linter.format(&once);
        assert_eq!(twice, once);
    }
}

#[test]
fn formatted_content_checks_clean() {
    let config = default_config(LineEnding::Auto);
    let linter = Linter::new(&config);
    let contents: [&[u8]; 6] =
        [b"a  \nb\n\n\n", b"line", b"", b"\n\n\n", b"c\n\nd\t\n", b"x \ny\n"];
    for content in contents {
        let formatted = linter.format(content);
        assert!(linter.check("f", &formatted).is_empty());
    }
}

#[test]
fn issues_aggregate_rule_by_rule_in_order() {
    let config = default_config(LineEnding::Auto);
    let linter = Linter::new(&config);
    let issues = linter.check("f", b"a \n\n");
    assert_eq!(issues.len(), 2);
    assert_eq!(issues[0].rule, "LineEnd");
    assert_eq!(issues[0].line_number, 2);
    assert_eq!(issues[1].rule, "TrailingWhitespace");
    assert_eq!(issues[1].line_number, 1);
}

#[test]
fn rules_run_in_configured_order_for_format() {
    let config = default_config(LineEnding::Auto);
    let linter = Linter::new(&config);
    assert_eq!(linter.format(b"a \n\n"), b"a\n".to_vec());
}

#[test]
fn linter_with_no_rules_reports_and_changes_nothing() {
    let config = Config::new(LineEnding::Auto);
    let linter = Linter::new(&config);
    assert!(linter.check("f", b"messy   \n\n\n").is_empty());
    assert_eq!(linter.format(b"messy   \n\n\n"), b"messy   \n\n\n".to_vec());
}

#[test]
fn get_line_ending_returns_configured_policy() {
    let config = default_config(LineEnding::Windows);
    let linter = Linter::new(&config);
    assert!(matches!(linter.get_line_ending(), LineEnding::Windows));
}

#[test]
fn whitespace_only_line_before_the_terminator_takes_two_passes() {
    // The trailing-whitespace rule runs after the line-ending rule, so a
    // whitespace-only last line that trims to nothing can leave a doubled
    // terminator behind; a second pass settles it.
    let config = default_config(LineEnding::Auto);
    let linter = Linter::new(&config);
    let once = linter.format(b"a\n\n \n");
    assert_eq!(once, b"a\n\n".to_vec());
    assert_eq!(linter.check("f", &once).len(), 1);
    assert_eq!(linter.format(&once), b"a\n".to_vec());
}

#[test]
fn format_if_changed_reports_only_real_changes() {
    let config = default_config(LineEnding::Auto);
    let linter = Linter::new(&config);
    assert_eq!(linter.format_if_changed(b"a\nb\n"), None);
    assert_eq!(linter.format_if_changed(b"a  \nb"), Some(b"a\nb\n".to_vec()));
    assert_eq!(linter.format_if_changed(b""), None);
}

#[test]
fn issue_new_keeps_all_fields() {
    let issue = linelint::issue::Issue::new("LineEnd", "a.txt", "something", 7);
    assert_eq!(issue.rule, "LineEnd");
    assert_eq!(issue.filename, "a.txt");
    assert_eq!(issue.description, "something");
    assert_eq!(issue.line_number, 7);
}
