//! Checkpoints in a git repository of their own, beside the worktree: the git commands
//! that make, list, show and restore them, and what their output says.

use crate::jail::{self, join};
use crate::text::{
    self, chars_of, lines_of, own_words, stop_from, string_between, string_with, trim,
};
use vstd::prelude::*;
use vstd::string::*;

verus! {

/// What checkpoints leave out.
pub const EXCLUDED: &'static str = ".git/\nnode_modules/\ntarget/\n.venv/\n";

/// The repository of a session's checkpoints.
#[derive(Debug)]
pub struct Shadow {
    git_dir: String,
    work_tree: String,
}

/// The arguments of a git command on a repository beside its worktree.
pub open spec fn git_arguments(git_dir: Seq<char>, work_tree: Seq<char>, args: Seq<Seq<char>>) ->
    Seq<Seq<char>> {
    seq!["--git-dir"@, git_dir, "--work-tree"@, work_tree] + args
}

/// A commit and its label, as one line of a log tells them: the hash stands before the
/// first tab, the label behind it.
pub open spec fn log_row(line: Seq<char>) -> Option<(Seq<char>, Seq<char>)> {
    let n = text::upto(line, '\t') as int;
    if n < line.len() {
        Some((line.take(n), line.skip(n + 1)))
    } else {
        None
    }
}

/// The commits and labels that the lines of a log tell; other lines are passed over.
pub open spec fn log_rows(lines: Seq<Seq<char>>) -> Seq<(Seq<char>, Seq<char>)>
    decreases lines.len(),
{
    if lines.len() == 0 {
        Seq::empty()
    } else {
        match log_row(lines.last()) {
            Some(row) => log_rows(lines.drop_last()).push(row),
            None => log_rows(lines.drop_last()),
        }
    }
}

/// What rows hold.
pub open spec fn rows(items: Seq<(String, String)>) -> Seq<(Seq<char>, Seq<char>)> {
    Seq::new(items.len(), |i: int| (items[i].0@, items[i].1@))
}

impl Shadow {
    /// Where the repository lies.
    pub closed spec fn git_dir(&self) -> Seq<char> {
        self.git_dir@
    }

    /// The worktree whose checkpoints it holds.
    pub closed spec fn work_tree(&self) -> Seq<char> {
        self.work_tree@
    }

    /// The repository of a session: `shadow.git` in the session's directory.
    pub fn init(state_session_dir: &str, work_tree: &str) -> (r: Shadow)
        ensures
            r.git_dir() == jail::joined(state_session_dir@, "shadow.git"@),
            r.work_tree() == work_tree@,
    {
        Shadow { git_dir: join(state_session_dir, "shadow.git"), work_tree: work_tree.to_owned() }
    }

    /// The arguments of a git command on the repository.
    fn git(&self, args: &[&str]) -> (r: Vec<String>)
        ensures
            text::texts(r@) == git_arguments(self.git_dir(), self.work_tree(), text::words(args@)),
    {
        let start = [
            "--git-dir",
            self.git_dir.as_str(),
            "--work-tree",
            self.work_tree.as_str(),
        ];
        let mut out = own_words(&start);
        let ghost head = text::texts(out@);
        assert(head =~= seq!["--git-dir"@, self.git_dir@, "--work-tree"@, self.work_tree@]);
        let mut i: usize = 0;
        assert(head =~= head + text::words(args@).take(0));
        while i < args.len()
            invariant
                i <= args@.len(),
                text::texts(out@) == head + text::words(args@).take(i as int),
            decreases args@.len() - i,
        {
            let ghost done = text::texts(out@);
            out.push(args[i].to_owned());
            proof {
                assert(text::texts(out@) =~= done.push(args@[i as int]@));
                assert(head + text::words(args@).take(i + 1) =~= done.push(args@[i as int]@));
            }
            i = i + 1;
        }
        assert(text::words(args@).take(i as int) =~= text::words(args@));
        out
    }

    /// Makes the repository where there is none yet.
    pub fn init_args(&self) -> (r: Vec<String>)
        ensures
            text::texts(r@) == git_arguments(
                self.git_dir(),
                self.work_tree(),
                seq!["init"@, "-q"@],
            ),
    {
        let args = ["init", "-q"];
        assert(text::words(args@) =~= seq!["init"@, "-q"@]);
        self.git(&args)
    }

    /// Sets under which name commits are made.
    pub fn name_args(&self) -> (r: Vec<String>)
        ensures
            text::texts(r@) == git_arguments(
                self.git_dir(),
                self.work_tree(),
                seq!["config"@, "user.name"@, "forge-composer"@],
            ),
    {
        let args = ["config", "user.name", "forge-composer"];
        assert(text::words(args@) =~= seq!["config"@, "user.name"@, "forge-composer"@]);
        self.git(&args)
    }

    /// Sets under which address commits are made.
    pub fn email_args(&self) -> (r: Vec<String>)
        ensures
            text::texts(r@) == git_arguments(
                self.git_dir(),
                self.work_tree(),
                seq!["config"@, "user.email"@, "forge-composer@local"@],
            ),
    {
        let args = ["config", "user.email", "forge-composer@local"];
        assert(text::words(args@) =~= seq!["config"@, "user.email"@, "forge-composer@local"@]);
        self.git(&args)
    }

    /// The file that names what checkpoints leave out.
    pub fn exclude_path(&self) -> (r: String)
        ensures
            r@ == jail::joined(jail::joined(self.git_dir(), "info"@), "exclude"@),
    {
        let info = join(self.git_dir.as_str(), "info");
        join(info.as_str(), "exclude")
    }

    /// Takes everything in the worktree in.
    pub fn stage_args(&self) -> (r: Vec<String>)
        ensures
            text::texts(r@) == git_arguments(
                self.git_dir(),
                self.work_tree(),
                seq!["add"@, "-A"@],
            ),
    {
        let args = ["add", "-A"];
        assert(text::words(args@) =~= seq!["add"@, "-A"@]);
        self.git(&args)
    }

    /// Commits what was taken in, even where nothing changed.
    pub fn commit_args(&self, label: &str) -> (r: Vec<String>)
        ensures
            text::texts(r@) == git_arguments(
                self.git_dir(),
                self.work_tree(),
                seq!["commit"@, "-q"@, "--allow-empty"@, "-m"@, label@],
            ),
    {
        let args = ["commit", "-q", "--allow-empty", "-m", label];
        assert(text::words(args@) =~= seq!["commit"@, "-q"@, "--allow-empty"@, "-m"@, label@]);
        self.git(&args)
    }

    /// Tells the hash of the last commit.
    pub fn head_args(&self) -> (r: Vec<String>)
        ensures
            text::texts(r@) == git_arguments(
                self.git_dir(),
                self.work_tree(),
                seq!["rev-parse"@, "HEAD"@],
            ),
    {
        let args = ["rev-parse", "HEAD"];
        assert(text::words(args@) =~= seq!["rev-parse"@, "HEAD"@]);
        self.git(&args)
    }

    /// The hash of a checkpoint, given what `head_args` printed.
    pub fn checkpoint(&self, printed: &str) -> (r: String)
        ensures
            r@ == text::trimmed(printed@),
    {
        trim(printed)
    }

    /// Lists the checkpoints, newest first.
    pub fn list_args(&self) -> (r: Vec<String>)
        ensures
            text::texts(r@) == git_arguments(
                self.git_dir(),
                self.work_tree(),
                seq!["log"@, "--format=%H%x09%s"@],
            ),
    {
        let args = ["log", "--format=%H%x09%s"];
        assert(text::words(args@) =~= seq!["log"@, "--format=%H%x09%s"@]);
        self.git(&args)
    }

    /// The checkpoints, each with its label, given what `list_args` printed; none where
    /// the command failed, as it does on an empty repository.
    pub fn list(&self, printed: Option<&str>) -> (r: Vec<(String, String)>)
        ensures
            rows(r@) == match printed {
                Some(p) => log_rows(text::lines(p@)),
                None => Seq::empty(),
            },
    {
        let mut out: Vec<(String, String)> = Vec::new();
        assert(rows(out@) =~= Seq::<(Seq<char>, Seq<char>)>::empty());
        let printed = match printed {
            Some(p) => p,
            None => {
                return out;
            },
        };
        let lines = lines_of(printed);
        let ghost all = text::texts(lines@);
        let mut i: usize = 0;
        assert(all.take(0) =~= Seq::<Seq<char>>::empty());
        while i < lines.len()
            invariant
                i <= lines@.len(),
                all == text::texts(lines@),
                rows(out@) == log_rows(all.take(i as int)),
            decreases lines@.len() - i,
        {
            let ghost done = rows(out@);
            let ghost line = lines@[i as int]@;
            proof {
                assert(all.take(i + 1).drop_last() =~= all.take(i as int));
                assert(all.take(i + 1).last() == line);
            }
            let chars = chars_of(lines[i].as_str());
            assert(chars@.skip(0) =~= chars@);
            let n = stop_from(chars.as_slice(), '\t', 0);
            if n < chars.len() {
                let hash = string_between(chars.as_slice(), 0, n);
                let label = string_between(chars.as_slice(), n + 1, chars.len());
                proof {
                    assert(hash@ =~= line.take(n as int));
                    assert(label@ =~= line.skip(n + 1));
                }
                let ghost row = (hash@, label@);
                out.push((hash, label));
                assert(rows(out@) =~= done.push(row));
            }
            i = i + 1;
        }
        assert(all.take(i as int) =~= all);
        out
    }

    /// Restores the files of the worktree from a checkpoint.
    pub fn restore(&self, hash: &str) -> (r: Vec<String>)
        ensures
            text::texts(r@) == git_arguments(
                self.git_dir(),
                self.work_tree(),
                seq!["checkout"@, "-q"@, hash@, "--"@, "."@],
            ),
    {
        let args = ["checkout", "-q", hash, "--", "."];
        assert(text::words(args@) =~= seq!["checkout"@, "-q"@, hash@, "--"@, "."@]);
        self.git(&args)
    }

    /// Shows a file as a checkpoint holds it.
    pub fn file_at(&self, hash: &str, rel_path: &str) -> (r: Vec<String>)
        ensures
            text::texts(r@) == git_arguments(
                self.git_dir(),
                self.work_tree(),
                seq!["show"@, hash@ + ":"@ + rel_path@],
            ),
    {
        let mut object = hash.to_owned();
        object.append(":");
        object.append(rel_path);
        let args = ["show", object.as_str()];
        assert(text::words(args@) =~= seq!["show"@, hash@ + ":"@ + rel_path@]);
        self.git(&args)
    }

    /// What is told of a git command on the repository that failed: its own arguments,
    /// and what it wrote to standard error.
    pub fn failure(&self, args: &Vec<String>, stderr: &str) -> (r: String)
        requires
            args@.len() >= 4,
        ensures
            r@ == "git "@ + text::strung_with(text::texts(args@).skip(4), " "@) + " failed: "@
                + stderr@,
    {
        let mut own: Vec<String> = Vec::new();
        let mut i: usize = 4;
        while i < args.len()
            invariant
                4 <= i <= args@.len(),
                own@.len() == i - 4,
                forall|k: int| 0 <= k < i - 4 ==> (#[trigger] own@[k])@ == args@[k + 4]@,
            decreases args@.len() - i,
        {
            own.push(args[i].clone());
            i = i + 1;
        }
        assert(text::texts(own@) =~= text::texts(args@).skip(4));
        let mut out = "git ".to_owned();
        out.append(string_with(own.as_slice(), " ").as_str());
        out.append(" failed: ");
        out.append(stderr);
        out
    }
}

// ---------------------------------------------------------------------------
// Laws
// ---------------------------------------------------------------------------

/// A line that tells a hash and a label gives both back.
pub proof fn log_row_reads_what_was_told(hash: Seq<char>, label: Seq<char>)
    requires
        !hash.contains('\t'),
    ensures
        log_row(hash + seq!['\t'] + label) == Some((hash, label)),
{
    let line = hash + seq!['\t'] + label;
    assert forall|i: int| 0 <= i < hash.len() implies line[i] != '\t' by {
        assert(line[i] == hash[i]);
    }
    text::lemma_upto_is(line, '\t', hash.len() as int);
    assert(line.take(hash.len() as int) =~= hash);
    assert(line.skip(hash.len() as int + 1) =~= label);
}

/// The checkpoints come in the order of the log; lines that tell none are passed over.
pub proof fn checkpoints_come_in_the_order_of_the_log(
    lines: Seq<Seq<char>>,
    hash: Seq<char>,
    label: Seq<char>,
    other: Seq<char>,
)
    requires
        !hash.contains('\t'),
        !other.contains('\t'),
    ensures
        log_rows(Seq::empty()).len() == 0,
        log_rows(lines.push(hash + seq!['\t'] + label)) == log_rows(lines).push((hash, label)),
        log_rows(lines.push(other)) == log_rows(lines),
{
    let line = hash + seq!['\t'] + label;
    assert(lines.push(line).drop_last() =~= lines);
    assert(lines.push(other).drop_last() =~= lines);
    log_row_reads_what_was_told(hash, label);
    assert forall|i: int| 0 <= i < other.len() implies other[i] != '\t' by {
        assert(other.contains(other[i]));
    }
    text::lemma_upto_is(other, '\t', other.len() as int);
}

/// Every git command works on the session's own repository and its worktree, whatever it
/// is.
pub proof fn git_works_on_the_own_repository(
    git_dir: Seq<char>,
    work_tree: Seq<char>,
    args: Seq<Seq<char>>,
)
    ensures
        git_arguments(git_dir, work_tree, args).len() == args.len() + 4,
        git_arguments(git_dir, work_tree, args)[0] == "--git-dir"@,
        git_arguments(git_dir, work_tree, args)[1] == git_dir,
        git_arguments(git_dir, work_tree, args)[2] == "--work-tree"@,
        git_arguments(git_dir, work_tree, args)[3] == work_tree,
        git_arguments(git_dir, work_tree, args).skip(4) == args,
{
    let all = git_arguments(git_dir, work_tree, args);
    let start = seq!["--git-dir"@, git_dir, "--work-tree"@, work_tree];
    assert(start.len() == 4);
    assert(all[0] == start[0] && all[1] == start[1] && all[2] == start[2] && all[3] == start[3]);
    assert(all.skip(4) =~= args);
}

} // verus!
