//! The jj command runner: where commands run, and what their output means.
//! Starting the process is left to the caller.

use vstd::prelude::*;

use crate::error::XorcistError;
use crate::show::{trim, trim_start};
use crate::state::CommandResult;
use crate::text::{chars_of, is_space_char, string_of, trim_end};

verus! {

/// Declares std's owned path so that the runner can hold its directory.
#[verifier::external_type_specification]
#[verifier::external_body]
pub struct ExPathBuf(std::path::PathBuf);

/// Declares std's borrowed path.
#[verifier::external_type_specification]
#[verifier::external_body]
pub struct ExPath(std::path::Path);

/// Relies on `std::path::Path::to_path_buf`: an owned copy of the path.
#[verifier::external_body]
fn owned_path(dir: &std::path::Path) -> (r: std::path::PathBuf) {
    dir.to_path_buf()
}

/// Runner for jj commands.
#[derive(Debug, Clone)]
pub struct JjRunner {
    /// Working directory for jj commands.
    pub work_dir: Option<std::path::PathBuf>,
}

impl JjRunner {
    /// A runner that uses the current directory.
    pub fn new() -> (r: Self)
        ensures
            r.work_dir is None,
    {
        JjRunner { work_dir: None }
    }

    /// The same runner, working in `dir`.
    pub fn with_work_dir(self, dir: &std::path::Path) -> (r: Self)
        ensures
            r.work_dir is Some,
    {
        JjRunner { work_dir: Some(owned_path(dir)) }
    }
}

impl Default for JjRunner {
    fn default() -> (r: Self)
        ensures
            r.work_dir is None,
    {
        JjRunner::new()
    }
}

/// `s` without leading and trailing white space.
pub fn trimmed(s: &str) -> (r: String)
    ensures
        r@ == trim(s@),
{
    let cs = chars_of(s);
    let k = crate::text::trimmed_end_len(&cs, cs.len());
    assert(cs@.subrange(0, cs@.len() as int) =~= cs@);
    let ghost t = cs@.subrange(0, k as int);
    let mut i: usize = 0;
    while i < k && is_space_char(cs[i])
        invariant
            i <= k <= cs@.len(),
            t == cs@.subrange(0, k as int),
            trim_start(cs@.subrange(i as int, k as int)) == trim_start(t),
        decreases k - i,
    {
        assert(cs@.subrange(i as int, k as int).drop_first() =~= cs@.subrange(i + 1, k as int));
        i += 1;
    }
    assert(trim_start(cs@.subrange(i as int, k as int)) == cs@.subrange(i as int, k as int));
    string_of(&cs, i, k)
}

/// The result of a command that ran: its stdout trimmed when it succeeded,
/// else its stderr trimmed.
pub fn command_result(command: &str, success: bool, stdout: &str, stderr: &str) -> (r: CommandResult)
    ensures
        r.command@ == command@,
        r.success == success,
        r.message@ == if success {
            trim(stdout@)
        } else {
            trim(stderr@)
        },
{
    let message = if success {
        trimmed(stdout)
    } else {
        trimmed(stderr)
    };
    CommandResult { command: String::from_str(command), success, message }
}

/// What a captured command gives: its output when it succeeded (and the
/// output was text), else the error.
pub fn capture_result(success: bool, stdout: Option<String>, stderr: &str) -> (r: Result<String, XorcistError>)
    ensures
        !success ==> (r matches Err(XorcistError::JjError(m)) && m@ == trim(stderr@)),
        success && stdout is None ==> (r matches Err(XorcistError::InvalidUtf8)),
        success ==> (stdout matches Some(out) ==> (r matches Ok(o) && o == out)),
{
    if !success {
        return Err(XorcistError::JjError(trimmed(stderr)));
    }
    match stdout {
        Some(out) => Ok(out),
        None => Err(XorcistError::InvalidUtf8),
    }
}

} // verus!
