//! The trailing-whitespace rule: no logical line may carry trailing
//! whitespace — spaces, tabs, or a stray carriage return — before its
//! terminator.

use crate::config::Config;
use crate::issue::{Issue, IssueModel};
use crate::line::{resolved_ending, LineEnding};
use crate::rule::{LintRule, TRAILING_WHITESPACE_RULE_NAME};
use crate::text::{
    append_bytes, ends_with, ends_with_bytes, is_ws, join, join_with, lines_of, split_lines,
    trim_end, trim_end_bytes,
};
use vstd::prelude::*;

verus! {

/// The identifier of the trailing-whitespace rule.
pub open spec fn trailing_ws_rule_name() -> Seq<char> {
    "TrailingWhitespace"@
}

/// The diagnostic for a line with trailing whitespace.
pub open spec fn trailing_ws_description() -> Seq<char> {
    "Line contains trailing whitespace"@
}

/// Whether a logical line is flagged: non-empty and changed by trimming.
pub open spec fn ws_flagged(l: Seq<u8>) -> bool {
    l.len() > 0 && trim_end(l) != l
}

/// Trimming never lengthens a line.
pub proof fn lemma_trim_end_len(l: Seq<u8>)
    ensures
        trim_end(l).len() <= l.len(),
    decreases l.len(),
{
    if l.len() > 0 && is_ws(l.last()) {
        lemma_trim_end_len(l.drop_last());
    }
}

/// A line is flagged exactly when its last byte is a space or a tab.
pub proof fn lemma_ws_flagged_last(l: Seq<u8>)
    ensures
        ws_flagged(l) <==> (l.len() > 0 && is_ws(l.last())),
{
    if l.len() > 0 && is_ws(l.last()) {
        lemma_trim_end_len(l.drop_last());
    }
}

/// The trailing-whitespace issues among the first `k` lines of `ls`,
/// with 1-based line numbers, in line order.
pub open spec fn trailing_ws_issues_upto(filename: Seq<char>, ls: Seq<Seq<u8>>, k: int) -> Seq<
    IssueModel,
>
    decreases k,
{
    if k <= 0 {
        Seq::<IssueModel>::empty()
    } else {
        trailing_ws_issues_upto(filename, ls, k - 1) + if ws_flagged(ls[k - 1]) {
            seq![
                IssueModel {
                    rule: trailing_ws_rule_name(),
                    filename,
                    description: trailing_ws_description(),
                    line_number: k,
                },
            ]
        } else {
            Seq::<IssueModel>::empty()
        }
    }
}

/// All trailing-whitespace issues for `s`: one per flagged logical line,
/// a final unterminated fragment counting as a line.
pub open spec fn trailing_ws_issues(filename: Seq<char>, s: Seq<u8>) -> Seq<IssueModel> {
    trailing_ws_issues_upto(filename, lines_of(s), lines_of(s).len() as int)
}

/// `s` rewritten by the trailing-whitespace rule: empty content
/// unchanged; otherwise every logical line trimmed of trailing spaces
/// and tabs, the lines rejoined with the resolved ending, and an ending
/// appended if the rejoined result lacks one.
pub open spec fn trailing_ws_formatted(policy: LineEnding, s: Seq<u8>) -> Seq<u8> {
    if s.len() == 0 {
        s
    } else {
        let e = resolved_ending(policy, s);
        let j = join(lines_of(s).map_values(|l: Seq<u8>| trim_end(l)), e);
        if ends_with(j, e) {
            j
        } else {
            j + e
        }
    }
}

/// Enforces that no logical line ends in spaces or tabs.
pub struct TrailingWhitespaceLint {}

impl LintRule for TrailingWhitespaceLint {
    /// The identifier of this rule.
    open spec fn spec_name(&self) -> Seq<char> {
        trailing_ws_rule_name()
    }

    /// This rule's issues are the trailing-whitespace issues; the
    /// line-ending policy plays no part in them.
    open spec fn spec_issues(&self, policy: LineEnding, filename: Seq<char>, s: Seq<u8>) -> Seq<
        IssueModel,
    > {
        trailing_ws_issues(filename, s)
    }

    /// This rule trims every line and rejoins with the resolved ending.
    open spec fn spec_formatted(&self, policy: LineEnding, s: Seq<u8>) -> Seq<u8> {
        trailing_ws_formatted(policy, s)
    }

    fn name(&self) -> (r: &'static str) {
        TRAILING_WHITESPACE_RULE_NAME
    }

    /// Reports one issue per logical line with trailing whitespace, at
    /// that line's 1-based number, in line order.
    fn check(&self, _config: &Config, filename: &str, content: &[u8]) -> (r: Vec<Issue>) {
        let ghost ls = lines_of(content@);
        let lines = split_lines(content);
        let n = lines.len();
        let mut issues: Vec<Issue> = Vec::new();
        let mut i: usize = 0;
        while i < n
            invariant
                n == lines@.len(),
                lines@.map_values(|l: Vec<u8>| l@) == ls,
                i <= n,
                issues@.map_values(|j: Issue| j@) == trailing_ws_issues_upto(
                    filename@,
                    ls,
                    i as int,
                ),
            decreases n - i,
        {
            let line = &lines[i];
            proof {
                assert(line@ == ls[i as int]);
                lemma_ws_flagged_last(line@);
            }
            if line.len() > 0 && (line[line.len() - 1] == 32u8 || line[line.len() - 1] == 9u8
                || line[line.len() - 1] == 13u8) {
                let ghost prev = issues@;
                issues.push(Issue::new(TRAILING_WHITESPACE_RULE_NAME, filename, "Line contains trailing whitespace", i + 1));
                proof {
                    assert(issues@.map_values(|j: Issue| j@) =~= trailing_ws_issues_upto(
                        filename@,
                        ls,
                        i + 1,
                    )) by {
                        assert(issues@.map_values(|j: Issue| j@) =~= prev.map_values(
                            |j: Issue| j@,
                        ).push(issues@.last()@));
                    }
                }
            } else {
                proof {
                    assert(issues@.map_values(|j: Issue| j@) =~= trailing_ws_issues_upto(
                        filename@,
                        ls,
                        i + 1,
                    ));
                }
            }
            i += 1;
        }
        issues
    }

    /// Trims every logical line, rejoins with the resolved ending, and
    /// terminates the result; this rule alone therefore also normalizes
    /// the terminal ending. Empty content stays empty.
    fn format(&self, config: &Config, content: &[u8]) -> (r: Vec<u8>) {
        if content.len() == 0 {
            let r: Vec<u8> = Vec::new();
            proof {
                assert(r@ =~= content@);
            }
            return r;
        }
        let ghost ls = lines_of(content@);
        let e = config.line_ending.get_ending(content);
        let lines = split_lines(content);
        let n = lines.len();
        let mut trimmed: Vec<Vec<u8>> = Vec::new();
        let mut i: usize = 0;
        while i < n
            invariant
                n == lines@.len(),
                lines@.map_values(|l: Vec<u8>| l@) == ls,
                i <= n,
                trimmed@.map_values(|l: Vec<u8>| l@) == ls.map_values(|l: Seq<u8>| trim_end(l)).take(
                    i as int,
                ),
            decreases n - i,
        {
            let ghost prev = trimmed@;
            let t = trim_end_bytes(lines[i].as_slice());
            trimmed.push(t);
            proof {
                assert(trimmed@.map_values(|l: Vec<u8>| l@) =~= prev.map_values(
                    |l: Vec<u8>| l@,
                ).push(trim_end(ls[i as int])));
                assert(trimmed@.map_values(|l: Vec<u8>| l@) =~= ls.map_values(
                    |l: Seq<u8>| trim_end(l),
                ).take(i + 1));
            }
            i += 1;
        }
        proof {
            assert(trimmed@.map_values(|l: Vec<u8>| l@) =~= ls.map_values(|l: Seq<u8>| trim_end(l)));
        }
        let mut r = join_with(&trimmed, e.as_slice());
        if !ends_with_bytes(r.as_slice(), e.as_slice()) {
            append_bytes(&mut r, e.as_slice());
        }
        r
    }
}

} // verus!
