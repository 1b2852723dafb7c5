use linelint::config::Config;
use linelint::line::LineEnding;
use linelint::rule::LintRule;
use linelint::trailing_ws_lint::TrailingWhitespaceLint;

#[test]
fn test_trailing_whitespace_lint_check_with_trailing_whitespace() {
    let config = Config::new(LineEnding::Unix);
    let lint = TrailingWhitespaceLint {};
    let content = b"This is a test file.   \nThis line is fine.\n  ";
    let filename = "test_file.rs";

    let issues = lint.check(&config, filename, content);
    assert_eq!(
        issues.len(),
        2,
        "There should be two issues for trailing whitespace"
    );
    assert_eq!(
        issues[0].line_number, 1,
        "The first issue should be on line 1"
    );
    assert_eq!(
        issues[1].line_number, 3,
        "The second issue should be on line 3"
    );
}

#[test]
fn test_trailing_whitespace_lint_check_no_trailing_whitespace() {
    let config = Config::new(LineEnding::Unix);
    let lint = TrailingWhitespaceLint {};
    let content = b"This is a test file.\nThis line is fine.\n";

    let issues = lint.check(&config, "test_file.rs", content);
    assert!(
        issues.is_empty(),
        "There should be no issues when there is no trailing whitespace"
    );
}

#[test]
fn test_trailing_whitespace_lint_format_removes_trailing_whitespace() {
    let config = Config::new(LineEnding::Unix);
    let lint = TrailingWhitespaceLint {};
    let content = b"This is a test file.   \nThis line is fine.\n  ";

    let formatted = lint.format(&config, content);
    let expected = b"This is a test file.\nThis line is fine.\n".to_vec();
    assert_eq!(formatted, expected, "Trailing whitespace should be removed");
}

#[test]
fn test_trailing_whitespace_lint_format_does_nothing_if_no_trailing_whitespace() {
    let config = Config::new(LineEnding::Unix);
    let lint = TrailingWhitespaceLint {};
    let content = b"This is a test file.\nThis line is fine.\n";

    let formatted = lint.format(&config, content);
    assert_eq!(
        formatted,
        content.to_vec(),
        "The content should not be changed if there is no trailing whitespace"
    );
}

#[test]
fn trailing_ws_check_flags_tab_and_reports_rule_name() {
    let config = Config::new(LineEnding::Unix);
    let lint = TrailingWhitespaceLint {};
    let issues = lint.check(&config, "f", b"a\t\nb\n");
    assert_eq!(issues.len(), 1);
    assert_eq!(issues[0].line_number, 1);
    assert_eq!(issues[0].rule, "TrailingWhitespace");
    assert_eq!(issues[0].description, "Line contains trailing whitespace");
}

#[test]
fn trailing_ws_check_ignores_blank_lines() {
    let config = Config::new(LineEnding::Unix);
    let lint = TrailingWhitespaceLint {};
    let issues = lint.check(&config, "f", b"a\n\nb\n");
    assert!(issues.is_empty());
}

#[test]
fn trailing_ws_format_empty_content_stays_empty() {
    let config = Config::new(LineEnding::Unix);
    let lint = TrailingWhitespaceLint {};
    let formatted = lint.format(&config, b"");
    assert_eq!(formatted, b"".to_vec());
}

#[test]
fn trailing_ws_check_flags_a_stray_carriage_return() {
    let config = Config::new(LineEnding::Unix);
    let lint = TrailingWhitespaceLint {};
    let issues = lint.check(&config, "f", b"a \r\r\n");
    assert_eq!(issues.len(), 1);
    assert_eq!(issues[0].line_number, 1);
}

#[test]
fn trailing_ws_format_trims_a_stray_carriage_return() {
    let unix = Config::new(LineEnding::Unix);
    let auto = Config::new(LineEnding::Auto);
    let lint = TrailingWhitespaceLint {};
    assert_eq!(lint.format(&unix, b"a \r\r\n"), b"a\n".to_vec());
    assert_eq!(lint.format(&auto, b"a \r\r\n"), b"a\r\n".to_vec());
}

#[test]
fn trailing_ws_format_resolves_everything_its_check_flags() {
    let lint = TrailingWhitespaceLint {};
    let contents: [&[u8]; 6] =
        [b"a \r\r\n", b"x \r", b"a\t \nb  ", b"a \r\nb \r\n", b"\r", b"one  \n\ntwo\t\n"];
    for policy in [LineEnding::Auto, LineEnding::Unix, LineEnding::Windows] {
        let config = Config::new(policy);
        for content in contents {
            let formatted = lint.format(&config, content);
            assert!(lint.check(&config, "f", &formatted).is_empty());
        }
    }
}

#[test]
fn trailing_ws_format_rejoins_with_windows_ending() {
    let config = Config::new(LineEnding::Windows);
    let lint = TrailingWhitespaceLint {};
    let formatted = lint.format(&config, b"a \r\nb\r\n");
    assert_eq!(formatted, b"a\r\nb\r\n".to_vec());
}
