//! The options of one format call.

use vstd::prelude::*;

verus! {

/// The options that rendering consults. A value is never changed once made,
/// so one may serve any number of format calls.
#[derive(Clone, Copy, Debug)]
pub struct FormatConfig {
    /// Column budget of the test that keeps a group on one line.
    pub max_width: usize,
    /// A group whose descendant must split must split too.
    pub root_splits: bool,
    /// Brace-delimited groups with at least this many elements always split.
    pub split_brace_threshold: Option<usize>,
    /// Attribute lists always split.
    pub split_attributes: bool,
    /// Where clauses always split.
    pub split_where: bool,
    /// Widest line of a reflowed comment, counted from the comment's own start.
    pub comment_width: Option<usize>,
    /// A comment that finds no place fails the call instead of being reported.
    pub comment_errors_fatal: bool,
    /// The caller wants nothing told on the way. No layout depends on it.
    pub quiet: bool,
}

impl FormatConfig {
    /// The options a caller gets without choosing any.
    pub open spec fn standard() -> FormatConfig {
        FormatConfig {
            max_width: 120,
            root_splits: false,
            split_brace_threshold: Some(1usize),
            split_attributes: true,
            split_where: true,
            comment_width: Some(80usize),
            comment_errors_fatal: false,
            quiet: false,
        }
    }
}

impl Default for FormatConfig {
    fn default() -> (config: FormatConfig)
        ensures
            config == FormatConfig::standard(),
    {
        FormatConfig {
            max_width: 120,
            root_splits: false,
            split_brace_threshold: Some(1usize),
            split_attributes: true,
            split_where: true,
            comment_width: Some(80usize),
            comment_errors_fatal: false,
            quiet: false,
        }
    }
}

} // verus!
