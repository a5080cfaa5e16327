//! Git worktrees that isolate subagents: the commands that add and remove them.

use crate::text::{self, own_words, trim};
use vstd::prelude::*;
use vstd::string::*;

verus! {

/// The arguments by which a worktree on a new branch is added to a repository.
pub fn add(repo: &str, dest: &str, branch: &str) -> (r: Vec<String>)
    ensures
        text::texts(r@) == seq![
            "-C"@,
            repo@,
            "worktree"@,
            "add"@,
            "-b"@,
            branch@,
            dest@,
        ],
{
    let args = ["-C", repo, "worktree", "add", "-b", branch, dest];
    assert(text::words(args@) =~= seq![
        "-C"@,
        repo@,
        "worktree"@,
        "add"@,
        "-b"@,
        branch@,
        dest@,
    ]);
    own_words(&args)
}

/// The arguments by which a worktree is removed, whatever state it is in.
pub fn remove(repo: &str, dest: &str) -> (r: Vec<String>)
    ensures
        text::texts(r@) == seq!["-C"@, repo@, "worktree"@, "remove"@, "--force"@, dest@],
{
    let args = ["-C", repo, "worktree", "remove", "--force", dest];
    assert(text::words(args@) =~= seq![
        "-C"@,
        repo@,
        "worktree"@,
        "remove"@,
        "--force"@,
        dest@,
    ]);
    own_words(&args)
}

/// What is told of a worktree command that failed.
pub fn failure(label: &str, stderr: &str) -> (r: String)
    ensures
        r@ == label@ + " failed: "@ + text::trimmed(stderr@),
{
    let mut out = label.to_owned();
    out.append(" failed: ");
    out.append(trim(stderr).as_str());
    out
}

} // verus!
