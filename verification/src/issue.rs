//! A single reported rule violation, with enough data to render a
//! human-readable diagnostic line.

use vstd::prelude::*;

verus! {

/// The fields of an [`Issue`] as mathematical values, for use in contracts.
pub struct IssueModel {
    pub rule: Seq<char>,
    pub filename: Seq<char>,
    pub description: Seq<char>,
    pub line_number: int,
}

/// One rule violation: which rule, in which file, what is wrong, and the
/// 1-based line number it concerns.
pub struct Issue {
    pub rule: String,
    pub filename: String,
    pub description: String,
    pub line_number: usize,
}

impl View for Issue {
    type V = IssueModel;

    open spec fn view(&self) -> IssueModel {
        IssueModel {
            rule: self.rule@,
            filename: self.filename@,
            description: self.description@,
            line_number: self.line_number as int,
        }
    }
}

impl Issue {
    /// Builds an issue record from its parts.
    pub fn new(rule: &str, filename: &str, description: &str, line_number: usize) -> (r: Issue)
        ensures
            r@.rule == rule@,
            r@.filename == filename@,
            r@.description == description@,
            r@.line_number == line_number as int,
    {
        Issue {
            rule: rule.to_owned(),
            filename: filename.to_owned(),
            description: description.to_owned(),
            line_number,
        }
    }
}

} // verus!
