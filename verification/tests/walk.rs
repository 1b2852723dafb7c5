use linelint::line::{detect_line_ending, LineEnding};
use linelint::walk::should_skip_path;

#[test]
fn paths_under_a_git_directory_are_skipped() {
    assert!(should_skip_path(b".git/config"));
    assert!(should_skip_path(b"repo/.git/hooks/pre-commit"));
    assert!(!should_skip_path(b"repo/gitlog.txt"));
    assert!(!should_skip_path(b"repo/.github/workflow.yml"));
}

#[test]
fn gitmodules_files_are_skipped() {
    assert!(should_skip_path(b".gitmodules"));
    assert!(should_skip_path(b"sub/dir/.gitmodules"));
    assert!(!should_skip_path(b"sub/dir/gitmodules"));
}

#[test]
fn denylisted_extensions_are_skipped() {
    assert!(should_skip_path(b"data/report.xlsx"));
    assert!(should_skip_path(b"old.xlss"));
    assert!(should_skip_path(b"a.b.xlsx"));
    assert!(!should_skip_path(b"report.xlsx.txt"));
    assert!(!should_skip_path(b"notes.md"));
}

#[test]
fn a_bare_dotted_name_has_no_extension() {
    assert!(!should_skip_path(b".xlsx"));
    assert!(!should_skip_path(b"dir/.xlss"));
}

#[test]
fn auto_detection_scans_the_whole_content() {
    assert_eq!(detect_line_ending(b"a\r\nb"), b"\r\n".to_vec());
    assert_eq!(detect_line_ending(b"unix\nonly\n"), b"\n".to_vec());
    assert_eq!(detect_line_ending(b"lone\rcarriage"), b"\n".to_vec());
    assert_eq!(detect_line_ending(b""), b"\n".to_vec());
}

#[test]
fn get_ending_follows_the_policy() {
    assert_eq!(LineEnding::Unix.get_ending(b"a\r\nb"), b"\n".to_vec());
    assert_eq!(LineEnding::Windows.get_ending(b"a\nb"), b"\r\n".to_vec());
    assert_eq!(LineEnding::Auto.get_ending(b"a\r\nb"), b"\r\n".to_vec());
}
