use vstd::prelude::*;
use crate::config::GrabError;
use crate::paths::{contains_seq, contains_str, opt_string_view, trim_text, trimmed};

verus! {

/// The query that prints the top directory of the working tree.
pub const TOPLEVEL_QUERY: &'static str = "git rev-parse --show-toplevel";

/// Error text of the query outside any working tree.
pub const NOT_A_REPOSITORY: &'static str = "not a git repository";

/// Error text of the query in a working tree owned by someone else.
pub const DUBIOUS_OWNERSHIP: &'static str = "fatal: detected dubious ownership in repository at";

/// The root that a successful query printed, once trimmed: none when it
/// printed nothing.
pub fn repo_root_from_output(trimmed_stdout: &str) -> (r: Option<String>)
    ensures
        opt_string_view(r) == (if trimmed_stdout@.len() == 0 {
            None
        } else {
            Some(trimmed_stdout@)
        }),
{
    if trimmed_stdout.unicode_len() == 0 {
        None
    } else {
        Some(String::from_str(trimmed_stdout))
    }
}

/// The failed query's error text says there is no usable working tree: not a
/// repository, or one whose ownership is not trusted.
pub open spec fn means_no_repository(stderr: Seq<char>) -> bool {
    contains_seq(stderr, NOT_A_REPOSITORY@) || contains_seq(stderr, DUBIOUS_OWNERSHIP@)
}

/// Interprets a top-level query that ran: the root it printed (to be resolved
/// by the caller), no repository, or a failure of the query.
pub fn interpret_toplevel_query(success: bool, stdout: &str, stderr: &str) -> (r: Result<
    Option<String>,
    GrabError,
>)
    ensures
        success ==> (r matches Ok(o) && opt_string_view(o) == (if trimmed(stdout@).len() == 0 {
            None
        } else {
            Some(trimmed(stdout@))
        })),
        !success && means_no_repository(stderr@) ==> r matches Ok(None),
        !success && !means_no_repository(stderr@) ==> (r matches Err(
            GrabError::GitCommandError { command, stderr: e, stdout: o },
        ) && command@ == TOPLEVEL_QUERY@ && e@ == stderr@ && o@ == stdout@),
{
    if success {
        let t = trim_text(stdout);
        return Ok(repo_root_from_output(t.as_str()));
    }
    if contains_str(stderr, NOT_A_REPOSITORY) || contains_str(stderr, DUBIOUS_OWNERSHIP) {
        Ok(None)
    } else {
        Err(
            GrabError::GitCommandError {
                command: String::from_str(TOPLEVEL_QUERY),
                stderr: String::from_str(stderr),
                stdout: String::from_str(stdout),
            },
        )
    }
}

} // verus!
