//! The decision logic around git invocations: what counts as success,
//! which message is reported, and when a pull is permitted. Running git
//! itself is process I/O and lives with the embedding application, which
//! hands exit codes and captured output in as plain values.

use vstd::prelude::*;
use vstd::string::StringExecFns;
use crate::text;

verus! {

/// A snapshot of a repository's state.
#[derive(Debug, Clone, PartialEq, Eq)]
pub struct GitStatus {
    pub branch: Option<String>,
    pub has_remote: bool,
    pub uncommitted_count: u32,
    pub ahead_count: u32,
    pub behind_count: u32,
}

/// What a pull attempt reported.
#[derive(Debug, Clone, PartialEq, Eq)]
pub struct GitPullResult {
    pub success: bool,
    pub message: String,
    pub status: GitStatus,
}

/// Decides over git's exit code and captured output; stateless.
pub struct GitManager;

impl GitManager {
    /// A manager; it carries no state.
    pub fn new() -> GitManager {
        GitManager
    }

    /// What a checked git invocation yields: the trimmed standard output
    /// on a zero exit; otherwise the trimmed standard error, or a message
    /// naming the exit code when standard error is blank.
    pub fn check_output(code: i32, stdout: &str, stderr: &str) -> (r: Result<String, String>)
        ensures
            code == 0 ==> (r matches Ok(s) && s@ == text::trimmed(stdout@)),
            code != 0 && text::trimmed(stderr@).len() > 0 ==> (r matches Err(m) && m@
                == text::trimmed(stderr@)),
            code != 0 && text::trimmed(stderr@).len() == 0 ==> (r matches Err(m) && m@
                == "git failed with exit code "@ + text::dec_signed(code as int)),
    {
        if code == 0 {
            Ok(String::from_str(text::trim(stdout)))
        } else {
            let err = text::trim(stderr);
            if err.unicode_len() > 0 {
                Err(String::from_str(err))
            } else {
                let mut m = String::from_str("git failed with exit code ");
                let digits = text::i64_decimal(code as i64);
                m.append(digits.as_str());
                Err(m)
            }
        }
    }

    /// A pull is permitted only with no uncommitted changes.
    pub fn pull_allowed(status: &GitStatus) -> (r: bool)
        ensures
            r == (status.uncommitted_count == 0),
    {
        status.uncommitted_count == 0
    }

    /// The outcome record of a pull attempt: success exactly on a zero
    /// exit; the message is a fixed success note, the trimmed standard
    /// error, or a note naming the exit code when standard error is blank.
    pub fn build_pull_result(code: i32, stderr: &str, after: GitStatus) -> (r: GitPullResult)
        ensures
            r.success == (code == 0),
            r.status == after,
            code == 0 ==> r.message@ == "pull succeeded"@,
            code != 0 && text::trimmed(stderr@).len() > 0 ==> r.message@ == text::trimmed(stderr@),
            code != 0 && text::trimmed(stderr@).len() == 0 ==> r.message@
                == "pull failed with exit code "@ + text::dec_signed(code as int),
    {
        let message: String = if code == 0 {
            String::from_str("pull succeeded")
        } else {
            let err = text::trim(stderr);
            if err.unicode_len() > 0 {
                String::from_str(err)
            } else {
                let mut m = String::from_str("pull failed with exit code ");
                let digits = text::i64_decimal(code as i64);
                m.append(digits.as_str());
                m
            }
        };
        GitPullResult { success: code == 0, message, status: after }
    }
}

} // verus!
