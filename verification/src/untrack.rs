//! Decisions and messages of the `file untrack` command, which stops
//! tracking paths in the working copy. Untracked paths must be ignored;
//! otherwise the next snapshot of the working copy adds them back.

use vstd::prelude::*;

use crate::decimal::{decimal, decimal_string};

verus! {

/// An error for the user, with a hint on how to resolve it.
#[derive(Debug)]
pub struct UserError {
    pub message: String,
    pub hint: String,
}

/// The message of the error for paths that could not be untracked because
/// they are not ignored: the first such path, and how many others there are.
pub open spec fn spec_not_ignored_message(first_path: Seq<char>, count: nat) -> Seq<char> {
    if count > 1 {
        "'"@ + first_path + "' and "@ + decimal((count - 1) as nat) + " other files are not ignored."@
    } else {
        "'"@ + first_path + "' is not ignored."@
    }
}

/// The hint of the error for paths that are not ignored.
pub open spec fn spec_not_ignored_hint() -> Seq<char> {
    "Files that are not ignored will be added back by the next command.\nMake sure they're ignored, then try again."@
}

/// The message for paths that could not be untracked because they are not
/// ignored, `count` of them, the first displayed as `first_path`.
pub fn not_ignored_message(first_path: &str, count: usize) -> (m: String)
    requires
        count >= 1,
    ensures
        m@ == spec_not_ignored_message(first_path@, count as nat),
{
    let mut m = String::from_str("'");
    m.append(first_path);
    if count > 1 {
        let others = decimal_string(count - 1);
        m.append("' and ");
        m.append(others.as_str());
        m.append(" other files are not ignored.");
    } else {
        m.append("' is not ignored.");
    }
    m
}

/// The hint for paths that could not be untracked because they are not
/// ignored.
pub fn not_ignored_hint() -> (h: &'static str)
    ensures
        h@ == spec_not_ignored_hint(),
{
    "Files that are not ignored will be added back by the next command.\nMake sure they're ignored, then try again."
}

/// What `file untrack` does after it reset the working copy to the commit
/// without the untracked paths and snapshotted the working copy again.
#[derive(Debug)]
pub enum UntrackOutcome {
    /// The snapshot has the tree of the new commit: nothing more to do.
    Unchanged,
    /// Paths matching the patterns were added back by the snapshot because
    /// they are not ignored: the command fails with this error.
    NotIgnored(UserError),
    /// The snapshot differs from the new tree only by concurrent changes in
    /// the working copy: reset the working copy to the new commit again, so
    /// that they are not mixed in.
    ResetAgain,
}

/// Decides how `file untrack` goes on after the second snapshot.
///
/// `snapshot_matches` tells whether the snapshot has the tree of the new
/// commit; `added_back` holds the displayed paths of the snapshot's entries
/// that match the patterns (looked at only when the trees differ).
pub fn untrack_outcome(snapshot_matches: bool, added_back: &Vec<String>) -> (o: UntrackOutcome)
    ensures
        snapshot_matches ==> o is Unchanged,
        !snapshot_matches && added_back@.len() == 0 ==> o is ResetAgain,
        !snapshot_matches && added_back@.len() > 0 ==> (o matches UntrackOutcome::NotIgnored(e)
            && e.message@ == spec_not_ignored_message(added_back@[0]@, added_back@.len())
            && e.hint@ == spec_not_ignored_hint()),
{
    if snapshot_matches {
        UntrackOutcome::Unchanged
    } else if added_back.len() > 0 {
        let message = not_ignored_message(added_back[0].as_str(), added_back.len());
        let hint = String::from_str(not_ignored_hint());
        UntrackOutcome::NotIgnored(UserError { message, hint })
    } else {
        UntrackOutcome::ResetAgain
    }
}

/// The status line reporting rebased descendants, if any were rebased.
pub fn rebased_status(num_rebased: usize) -> (s: Option<String>)
    ensures
        num_rebased == 0 ==> s is None,
        num_rebased > 0 ==> (s matches Some(line) && line@ == "Rebased "@ + decimal(
            num_rebased as nat,
        ) + " descendant commits"@),
{
    if num_rebased > 0 {
        let mut line = String::from_str("Rebased ");
        let n = decimal_string(num_rebased);
        line.append(n.as_str());
        line.append(" descendant commits");
        Some(line)
    } else {
        None
    }
}

} // verus!
