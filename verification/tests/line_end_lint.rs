use linelint::config::Config;
use linelint::line::LineEnding;
use linelint::line_end_lint::LineEndLint;
use linelint::rule::LintRule;

#[test]
fn test_line_end_lint_check_with_proper_ending() {
    let config = Config::new(LineEnding::Unix);
    let lint = LineEndLint {};
    let content = b"This is a test file.\n";
    let filename = "test_file.rs";

    let issues = lint.check(&config, filename, content);
    assert!(
        issues.is_empty(),
        "There should be no issues when the file ends with the correct line ending"
    );
}

#[test]
fn test_line_end_lint_check_with_incorrect_ending() {
    let config = Config::new(LineEnding::Unix);
    let lint = LineEndLint {};
    let content = b"This is a test file.";
    let filename = "test_file.rs";

    let issues = lint.check(&config, filename, content);
    assert_eq!(
        issues.len(),
        1,
        "There should be one issue for missing line ending"
    );
    assert_eq!(
        issues[0].description,
        "File does not end with the expected line ending"
    );
}

#[test]
fn test_line_end_lint_format_adds_missing_ending() {
    let config = Config::new(LineEnding::Unix);
    let lint = LineEndLint {};
    let content = b"This is a test file.";

    let formatted = lint.format(&config, content);
    assert_eq!(
        formatted,
        b"This is a test file.\n".to_vec(),
        "The formatted content should end with the correct line ending"
    );
}

#[test]
fn test_line_end_lint_format_does_nothing_if_correct_ending() {
    let config = Config::new(LineEnding::Unix);
    let lint = LineEndLint {};
    let content = b"This is a test file.\n";

    let formatted = lint.format(&config, content);
    assert_eq!(
        formatted,
        content.to_vec(),
        "The content should not be changed if the correct line ending is present"
    );
}

#[test]
fn test_line_end_lint_format_empty_file() {
    let config = Config::new(LineEnding::Unix);
    let lint = LineEndLint {};
    let content = b"";

    let formatted = lint.format(&config, content);
    assert_eq!(formatted, b"".to_vec(), "Empty file will not changed");
}

#[test]
fn test_line_end_lint_check_two_empty_line_file() {
    let config = Config::new(LineEnding::Unix);
    let lint = LineEndLint {};
    let content = b"\n\n";
    let filename = "test_file.rs";

    let issues = lint.check(&config, filename, content);
    assert_eq!(
        issues.len(),
        1,
        "There should be one issue for two line endings"
    );
}

#[test]
fn test_line_end_lint_check_three_empty_line_file() {
    let config = Config::new(LineEnding::Unix);
    let lint = LineEndLint {};
    let content = b"\n\n\n";
    let filename = "test_file.rs";

    let issues = lint.check(&config, filename, content);
    assert_eq!(
        issues.len(),
        1,
        "There should be one issue for three line endings"
    );
}

#[test]
fn test_line_end_lint_check_not_change_middle_line_file() {
    let config = Config::new(LineEnding::Unix);
    let lint = LineEndLint {};
    let content = b"c\n\nd\n";
    let filename = "test_file.rs";

    let issues = lint.check(&config, filename, content);
    assert_eq!(issues.len(), 0, "There should be no issue");
}

#[test]
fn test_line_end_lint_format_two_empty_line_file() {
    let config = Config::new(LineEnding::Unix);
    let lint = LineEndLint {};
    let content = b"\n\n";

    let formatted = lint.format(&config, content);
    assert_eq!(formatted, b"\n".to_vec(), "two line will be formatted");
}

#[test]
fn test_line_end_lint_format_three_empty_line_file() {
    let config = Config::new(LineEnding::Unix);
    let lint = LineEndLint {};
    let content = b"\n\n\n";

    let formatted = lint.format(&config, content);
    assert_eq!(formatted, b"\n".to_vec(), "three line will be formatted");
}

#[test]
fn test_line_end_lint_format_not_change_middle_line_file() {
    let config = Config::new(LineEnding::Unix);
    let lint = LineEndLint {};
    let content = b"c\n\nd\n";

    let formatted = lint.format(&config, content);
    assert_eq!(
        formatted,
        b"c\n\nd\n".to_vec(),
        "middle multi line should not changed"
    );
}

#[test]
fn test_line_end_lint_check_only_line_file() {
    let config = Config::new(LineEnding::Unix);
    let lint = LineEndLint {};
    let content = b"\n";
    let filename = "test_file.rs";

    let issues = lint.check(&config, filename, content);
    assert_eq!(issues.len(), 0, "There should be no issue");
}

#[test]
fn test_line_end_lint_format_only_line_file() {
    let config = Config::new(LineEnding::Unix);
    let lint = LineEndLint {};
    let content = b"\n";

    let formatted = lint.format(&config, content);
    assert_eq!(
        formatted,
        b"\n".to_vec(),
        "The formatted content should end with the correct line ending"
    );
}

#[test]
fn test_line_end_lint_format_only_line_file_windows() {
    let config = Config::new(LineEnding::Windows);
    let lint = LineEndLint {};
    let content = b"\r\n";

    let formatted = lint.format(&config, content);
    assert_eq!(
        formatted,
        b"\r\n".to_vec(),
        "The formatted content should end with the correct line ending"
    );
}

#[test]
fn line_end_check_reports_line_count_of_unterminated_file() {
    let config = Config::new(LineEnding::Unix);
    let lint = LineEndLint {};
    let issues = lint.check(&config, "test_file.rs", b"a\nb\nc");
    assert_eq!(issues.len(), 1);
    assert_eq!(issues[0].line_number, 3);
    assert_eq!(issues[0].rule, "LineEnd");
    assert_eq!(issues[0].filename, "test_file.rs");
}

#[test]
fn line_end_check_multiple_endings_description_and_line() {
    let config = Config::new(LineEnding::Unix);
    let lint = LineEndLint {};
    let issues = lint.check(&config, "test_file.rs", b"a\n\n");
    assert_eq!(issues.len(), 1);
    assert_eq!(issues[0].description, "File has multiple trailing line endings");
    assert_eq!(issues[0].line_number, 2);
}

#[test]
fn line_end_format_windows_appends_crlf() {
    let config = Config::new(LineEnding::Windows);
    let lint = LineEndLint {};
    let formatted = lint.format(&config, b"x");
    assert_eq!(formatted, b"x\r\n".to_vec());
}

#[test]
fn line_end_format_resolves_everything_its_check_flags() {
    let lint = LineEndLint {};
    let contents: [&[u8]; 7] =
        [b"a\r", b"a\n\r", b"x", b"\n\n\n", b"a\r\n\r\n", b"x\r\n\n", b""];
    for policy in [LineEnding::Auto, LineEnding::Unix, LineEnding::Windows] {
        let config = Config::new(policy);
        for content in contents {
            let formatted = lint.format(&config, content);
            assert!(lint.check(&config, "f", &formatted).is_empty());
        }
    }
}

#[test]
fn line_end_auto_policy_follows_detected_ending() {
    let config = Config::new(LineEnding::Auto);
    let lint = LineEndLint {};
    let formatted = lint.format(&config, b"a\r\nb");
    assert_eq!(formatted, b"a\r\nb\r\n".to_vec());
    let issues = lint.check(&config, "f", b"a\r\nb\r\n");
    assert!(issues.is_empty());
}
