//! Reviewing the uncommitted diff: which `git diff` is run, and when there is nothing to
//! review. Running git and the reviewing worker is left to the caller.
use vstd::prelude::*;
use crate::text;
use crate::json::{self, JsonValue};

verus! {

/// Has a worker review the uncommitted diff.
pub struct DiffReviewTool;

impl DiffReviewTool {
    /// The error when no repo root was set explicitly.
    pub fn root_not_set() -> (r: String)
        ensures
            r@ == "diff_review requires CHUMP_REPO or CHUMP_HOME to be set"@,
    {
        String::from_str("diff_review requires CHUMP_REPO or CHUMP_HOME to be set")
    }

    /// The `git` arguments: `diff --staged` when `staged_only` is true, else `diff HEAD`.
    pub fn git_args(input: &JsonValue) -> (r: Vec<String>)
        ensures
            crate::cli::names(r@) == if json::as_bool(json::get(*input, "staged_only"@)) == Some(true) {
                seq!["diff"@, "--staged"@]
            } else {
                seq!["diff"@, "HEAD"@]
            },
    {
        let staged = match input.bool_field("staged_only") {
            Some(b) => b,
            None => false,
        };
        let mut a: Vec<String> = Vec::new();
        a.push(String::from_str("diff"));
        if staged {
            a.push(String::from_str("--staged"));
            assert(crate::cli::names(a@) =~= seq!["diff"@, "--staged"@]);
        } else {
            a.push(String::from_str("HEAD"));
            assert(crate::cli::names(a@) =~= seq!["diff"@, "HEAD"@]);
        }
        a
    }

    /// The reply when the diff is blank; `None` when there is something to review.
    pub fn nothing_to_review(diff: &str) -> (r: Option<String>)
        ensures
            text::trim(diff@).len() == 0 ==> (r matches Some(m) && m@
                == "No diff to review (working tree clean or nothing staged)."@),
            text::trim(diff@).len() > 0 ==> r is None,
    {
        if text::trim_str(diff).len() == 0 {
            Some(String::from_str("No diff to review (working tree clean or nothing staged)."))
        } else {
            None
        }
    }
}

} // verus!
