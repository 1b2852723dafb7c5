//! The linter's configuration: a line-ending policy plus an ordered
//! rule list, built once and shared read-only across all files of a run.

use crate::line::LineEnding;
use crate::rule::Rule;
use vstd::prelude::*;

verus! {

/// An ordered sequence of rules and the active line-ending policy.
pub struct Config {
    pub line_ending: LineEnding,
    pub rules: Vec<Rule>,
}

impl Config {
    /// A configuration with the given policy and no rules yet.
    pub fn new(line_ending: LineEnding) -> (r: Config)
        ensures
            r.line_ending == line_ending,
            r.rules@ == Seq::<Rule>::empty(),
    {
        let r = Config { line_ending, rules: Vec::new() };
        proof {
            assert(r.rules@ =~= Seq::<Rule>::empty());
        }
        r
    }

    /// Appends a rule to the end of the ordered rule list.
    pub fn add_rule(&mut self, rule: Rule)
        ensures
            final(self).line_ending == old(self).line_ending,
            final(self).rules@ == old(self).rules@.push(rule),
    {
        self.rules.push(rule);
    }
}

} // verus!
