//! The linter proper: applies an ordered rule set to whole-file content,
//! either collecting issues or rewriting the content.

use crate::config::Config;
use crate::issue::{Issue, IssueModel};
use crate::line::LineEnding;
use crate::rule::{rule_formatted, rule_issues, Rule};
use crate::text::{append_bytes, bytes_eq};
use vstd::prelude::*;

verus! {

/// The concatenated issues of the first `k` rules, in rule order.
pub open spec fn check_issues_upto(
    rules: Seq<Rule>,
    policy: LineEnding,
    filename: Seq<char>,
    s: Seq<u8>,
    k: int,
) -> Seq<IssueModel>
    decreases k,
{
    if k <= 0 {
        Seq::<IssueModel>::empty()
    } else {
        check_issues_upto(rules, policy, filename, s, k - 1) + rule_issues(
            rules[k - 1],
            policy,
            filename,
            s,
        )
    }
}

/// All issues the rule set reports for `s`, rule by rule, each rule's
/// issues in that rule's own order.
pub open spec fn check_issues(
    rules: Seq<Rule>,
    policy: LineEnding,
    filename: Seq<char>,
    s: Seq<u8>,
) -> Seq<IssueModel> {
    check_issues_upto(rules, policy, filename, s, rules.len() as int)
}

/// `s` after the first `k` rules have rewritten it, in order.
pub open spec fn formatted_upto(rules: Seq<Rule>, policy: LineEnding, s: Seq<u8>, k: int) -> Seq<
    u8,
>
    decreases k,
{
    if k <= 0 {
        s
    } else {
        rule_formatted(rules[k - 1], policy, formatted_upto(rules, policy, s, k - 1))
    }
}

/// `s` after every rule has rewritten it, in order.
pub open spec fn formatted(rules: Seq<Rule>, policy: LineEnding, s: Seq<u8>) -> Seq<u8> {
    formatted_upto(rules, policy, s, rules.len() as int)
}

/// Applies a configuration's rules to whole-file content.
pub struct Linter<'a> {
    config: &'a Config,
}

impl<'a> Linter<'a> {
    /// The configuration this linter applies.
    pub closed spec fn spec_config(&self) -> Config {
        *self.config
    }

    /// A linter over the given configuration.
    pub fn new(config: &'a Config) -> (r: Linter<'a>)
        ensures
            r.spec_config() == *config,
    {
        Linter { config }
    }

    /// Runs every rule's check in order and concatenates the issues.
    pub fn check(&self, filename: &str, content: &[u8]) -> (r: Vec<Issue>)
        ensures
            r@.map_values(|i: Issue| i@) == check_issues(
                self.spec_config().rules@,
                self.spec_config().line_ending,
                filename@,
                content@,
            ),
    {
        let ghost rules = self.config.rules@;
        let ghost policy = self.config.line_ending;
        let mut all: Vec<Issue> = Vec::new();
        let n = self.config.rules.len();
        let mut i: usize = 0;
        proof {
            assert(all@.map_values(|j: Issue| j@) =~= check_issues_upto(
                rules,
                policy,
                filename@,
                content@,
                0,
            ));
        }
        while i < n
            invariant
                n == rules.len(),
                rules == self.config.rules@,
                policy == self.config.line_ending,
                i <= n,
                all@.map_values(|j: Issue| j@) == check_issues_upto(
                    rules,
                    policy,
                    filename@,
                    content@,
                    i as int,
                ),
            decreases n - i,
        {
            let ghost prev = all@;
            let mut issues = self.config.rules[i].check(self.config, filename, content);
            let ghost got = issues@;
            all.append(&mut issues);
            proof {
                assert(all@.map_values(|j: Issue| j@) =~= prev.map_values(|j: Issue| j@)
                    + got.map_values(|j: Issue| j@));
                assert(all@.map_values(|j: Issue| j@) =~= check_issues_upto(
                    rules,
                    policy,
                    filename@,
                    content@,
                    i + 1,
                ));
            }
            i += 1;
        }
        all
    }

    /// Applies every rule's rewrite in order and returns the result.
    pub fn format(&self, content: &[u8]) -> (r: Vec<u8>)
        ensures
            r@ == formatted(
                self.spec_config().rules@,
                self.spec_config().line_ending,
                content@,
            ),
    {
        let ghost rules = self.config.rules@;
        let ghost policy = self.config.line_ending;
        let mut cur: Vec<u8> = Vec::new();
        append_bytes(&mut cur, content);
        proof {
            assert(cur@ =~= content@);
        }
        let n = self.config.rules.len();
        let mut i: usize = 0;
        while i < n
            invariant
                n == rules.len(),
                rules == self.config.rules@,
                policy == self.config.line_ending,
                i <= n,
                cur@ == formatted_upto(rules, policy, content@, i as int),
            decreases n - i,
        {
            cur = self.config.rules[i].format(self.config, cur.as_slice());
            i += 1;
        }
        cur
    }

    /// Applies every rule's rewrite in order and returns the result
    /// only when it differs byte-for-byte from `content`, so a caller
    /// rewrites a file only when needed.
    pub fn format_if_changed(&self, content: &[u8]) -> (r: Option<Vec<u8>>)
        ensures
            match r {
                Some(v) => v@ == formatted(
                    self.spec_config().rules@,
                    self.spec_config().line_ending,
                    content@,
                ) && v@ != content@,
                None => formatted(
                    self.spec_config().rules@,
                    self.spec_config().line_ending,
                    content@,
                ) == content@,
            },
    {
        let result = self.format(content);
        if bytes_eq(result.as_slice(), content) {
            None
        } else {
            Some(result)
        }
    }

    /// The configured line-ending policy.
    pub fn get_line_ending(&self) -> (r: &LineEnding)
        ensures
            *r == self.spec_config().line_ending,
    {
        &self.config.line_ending
    }
}

} // verus!
