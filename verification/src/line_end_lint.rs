//! The line-ending rule: a file must end with exactly one resolved
//! terminator — no missing terminator, no fully blank trailing lines.

use crate::config::Config;
use crate::issue::{Issue, IssueModel};
use crate::line::{resolved_ending, LineEnding};
use crate::rule::{LintRule, LINE_END_RULE_NAME};
use crate::text::{
    append_bytes, ends_with, ends_with_bytes, lines_of, split_lines, strip_trailing,
    strip_trailing_runs,
};
use vstd::prelude::*;

verus! {

/// The identifier of the line-ending rule.
pub open spec fn line_end_rule_name() -> Seq<char> {
    "LineEnd"@
}

/// The diagnostic for content that does not end with the resolved ending.
pub open spec fn missing_ending_description() -> Seq<char> {
    "File does not end with the expected line ending"@
}

/// The diagnostic for content with blank trailing lines beyond the
/// single required terminator.
pub open spec fn multiple_endings_description() -> Seq<char> {
    "File has multiple trailing line endings"@
}

/// The issues the line-ending rule reports: none for empty content; one
/// missing-terminator issue when the content does not end with the
/// resolved ending; otherwise one multiple-endings issue when it ends
/// with the ending doubled; otherwise none. The two conditions are
/// mutually exclusive, and the line number is the total line count.
pub open spec fn line_end_issues(policy: LineEnding, filename: Seq<char>, s: Seq<u8>) -> Seq<
    IssueModel,
> {
    let e = resolved_ending(policy, s);
    if s.len() == 0 {
        Seq::<IssueModel>::empty()
    } else if !ends_with(s, e) {
        seq![
            IssueModel {
                rule: line_end_rule_name(),
                filename,
                description: missing_ending_description(),
                line_number: lines_of(s).len() as int,
            },
        ]
    } else if ends_with(s, e + e) {
        seq![
            IssueModel {
                rule: line_end_rule_name(),
                filename,
                description: multiple_endings_description(),
                line_number: lines_of(s).len() as int,
            },
        ]
    } else {
        Seq::<IssueModel>::empty()
    }
}

/// `s` rewritten by the line-ending rule: empty content unchanged;
/// otherwise the maximal trailing run of the resolved ending collapsed
/// away and exactly one ending appended.
pub open spec fn line_end_formatted(policy: LineEnding, s: Seq<u8>) -> Seq<u8> {
    if s.len() == 0 {
        s
    } else {
        strip_trailing_runs(s, resolved_ending(policy, s)) + resolved_ending(policy, s)
    }
}

/// Every policy resolves to a non-empty terminator.
pub proof fn lemma_resolved_ending_nonempty(policy: LineEnding, s: Seq<u8>)
    ensures
        1 <= resolved_ending(policy, s).len() <= 2,
{
}

/// Enforces exactly one trailing line terminator at end of file.
pub struct LineEndLint {}

impl LintRule for LineEndLint {
    /// The identifier of this rule.
    open spec fn spec_name(&self) -> Seq<char> {
        line_end_rule_name()
    }

    /// This rule's issues are the line-ending issues.
    open spec fn spec_issues(&self, policy: LineEnding, filename: Seq<char>, s: Seq<u8>) -> Seq<
        IssueModel,
    > {
        line_end_issues(policy, filename, s)
    }

    /// This rule rewrites content to the line-ending normal form.
    open spec fn spec_formatted(&self, policy: LineEnding, s: Seq<u8>) -> Seq<u8> {
        line_end_formatted(policy, s)
    }

    fn name(&self) -> (r: &'static str) {
        LINE_END_RULE_NAME
    }

    /// Reports at most one issue: a missing terminator, or else blank
    /// trailing lines beyond the single required one.
    fn check(&self, config: &Config, filename: &str, content: &[u8]) -> (r: Vec<Issue>) {
        let mut issues: Vec<Issue> = Vec::new();
        if content.len() == 0 {
            proof {
                assert(issues@.map_values(|i: Issue| i@) =~= line_end_issues(
                    config.line_ending,
                    filename@,
                    content@,
                ));
            }
            return issues;
        }
        let e = config.line_ending.get_ending(content);
        let mut double = e.clone();
        append_bytes(&mut double, e.as_slice());
        if !ends_with_bytes(content, e.as_slice()) {
            let lines = split_lines(content);
            let count = lines.len();
            proof {
                assert(count == lines_of(content@).len());
            }
            issues.push(Issue::new(LINE_END_RULE_NAME, filename, "File does not end with the expected line ending", count));
            proof {
                assert(issues@.map_values(|i: Issue| i@) =~= line_end_issues(
                    config.line_ending,
                    filename@,
                    content@,
                ));
            }
        } else if ends_with_bytes(content, double.as_slice()) {
            let lines = split_lines(content);
            let count = lines.len();
            proof {
                assert(count == lines_of(content@).len());
            }
            issues.push(Issue::new(LINE_END_RULE_NAME, filename, "File has multiple trailing line endings", count));
            proof {
                assert(issues@.map_values(|i: Issue| i@) =~= line_end_issues(
                    config.line_ending,
                    filename@,
                    content@,
                ));
            }
        } else {
            proof {
                assert(issues@.map_values(|i: Issue| i@) =~= line_end_issues(
                    config.line_ending,
                    filename@,
                    content@,
                ));
            }
        }
        issues
    }

    /// Rewrites `content` so that it ends with exactly one resolved
    /// terminator, whatever it had before; empty content stays empty.
    fn format(&self, config: &Config, content: &[u8]) -> (r: Vec<u8>) {
        if content.len() == 0 {
            let r: Vec<u8> = Vec::new();
            proof {
                assert(r@ =~= content@);
            }
            return r;
        }
        let e = config.line_ending.get_ending(content);
        proof {
            lemma_resolved_ending_nonempty(config.line_ending, content@);
        }
        let mut r = strip_trailing(content, e.as_slice());
        append_bytes(&mut r, e.as_slice());
        r
    }
}

} // verus!
