//! The rule abstraction: the closed set of concrete rules, with explicit
//! dispatch for both checking and formatting.

use crate::config::Config;
use crate::issue::{Issue, IssueModel};
use crate::line::LineEnding;
use crate::line_end_lint::{line_end_formatted, line_end_issues, LineEndLint};
use crate::trailing_ws_lint::{trailing_ws_formatted, trailing_ws_issues, TrailingWhitespaceLint};
use vstd::prelude::*;

verus! {

pub const LINE_END_RULE_NAME: &'static str = "LineEnd";

pub const TRAILING_WHITESPACE_RULE_NAME: &'static str = "TrailingWhitespace";

/// The rule capability: a rule names itself, reports issues for
/// whole-file content, and rewrites such content to conform. What each
/// operation returns is pinned by the implementor's spec-level
/// functions.
pub trait LintRule {
    /// This rule's identifier, as a mathematical value.
    spec fn spec_name(&self) -> Seq<char>;

    /// The issues this rule reports, as mathematical values.
    spec fn spec_issues(&self, policy: LineEnding, filename: Seq<char>, s: Seq<u8>) -> Seq<
        IssueModel,
    >;

    /// The rewritten content, as a mathematical value.
    spec fn spec_formatted(&self, policy: LineEnding, s: Seq<u8>) -> Seq<u8>;

    /// This rule's identifier.
    fn name(&self) -> (r: &'static str)
        ensures
            r@ == self.spec_name(),
    ;

    /// Reports this rule's issues for `content` in `filename`.
    fn check(&self, config: &Config, filename: &str, content: &[u8]) -> (r: Vec<Issue>)
        ensures
            r@.map_values(|i: Issue| i@) == self.spec_issues(
                config.line_ending,
                filename@,
                content@,
            ),
    ;

    /// Rewrites `content` to conform to this rule.
    fn format(&self, config: &Config, content: &[u8]) -> (r: Vec<u8>)
        ensures
            r@ == self.spec_formatted(config.line_ending, content@),
    ;
}

/// One of the concrete rules, a closed set with compiler-enforced
/// exhaustive dispatch.
pub enum Rule {
    LineEnd(LineEndLint),
    TrailingWhitespace(TrailingWhitespaceLint),
}

/// The issues `rule` reports for `s` in `filename` under `policy`.
pub open spec fn rule_issues(rule: Rule, policy: LineEnding, filename: Seq<char>, s: Seq<u8>) -> Seq<
    IssueModel,
> {
    match rule {
        Rule::LineEnd(_) => line_end_issues(policy, filename, s),
        Rule::TrailingWhitespace(_) => trailing_ws_issues(filename, s),
    }
}

/// `s` rewritten by `rule` under `policy`.
pub open spec fn rule_formatted(rule: Rule, policy: LineEnding, s: Seq<u8>) -> Seq<u8> {
    match rule {
        Rule::LineEnd(_) => line_end_formatted(policy, s),
        Rule::TrailingWhitespace(_) => trailing_ws_formatted(policy, s),
    }
}

impl Rule {
    /// This rule's identifier.
    pub fn name(&self) -> (r: &'static str)
        ensures
            r@ == match *self {
                Rule::LineEnd(_) => crate::line_end_lint::line_end_rule_name(),
                Rule::TrailingWhitespace(_) => crate::trailing_ws_lint::trailing_ws_rule_name(),
            },
    {
        match self {
            Rule::LineEnd(l) => l.name(),
            Rule::TrailingWhitespace(l) => l.name(),
        }
    }

    /// Runs this rule's check on whole-file content.
    pub fn check(&self, config: &Config, filename: &str, content: &[u8]) -> (r: Vec<Issue>)
        ensures
            r@.map_values(|i: Issue| i@) == rule_issues(
                *self,
                config.line_ending,
                filename@,
                content@,
            ),
    {
        match self {
            Rule::LineEnd(l) => l.check(config, filename, content),
            Rule::TrailingWhitespace(l) => l.check(config, filename, content),
        }
    }

    /// Rewrites whole-file content to conform to this rule.
    pub fn format(&self, config: &Config, content: &[u8]) -> (r: Vec<u8>)
        ensures
            r@ == rule_formatted(*self, config.line_ending, content@),
    {
        match self {
            Rule::LineEnd(l) => l.format(config, content),
            Rule::TrailingWhitespace(l) => l.format(config, content),
        }
    }
}

} // verus!
