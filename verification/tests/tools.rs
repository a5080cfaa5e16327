use composer::fs_tools::{edit_file, list_dir, read_file, search, search_args, EditError};
use composer::jail::{join, Jail, JailError};
use composer::shadow::Shadow;
use composer::terminal::{ended, name_is_secret, scrubbed_names, timed_out};
use composer::worktree;

/// A disk with directories and links: what exists, and what it really is.
struct Disk {
    real: Vec<(&'static str, &'static str)>,
}

impl Disk {
    fn canonical(&self, path: &str) -> Option<String> {
        let mut real = String::new();
        for step in path.split('/').filter(|s| !s.is_empty()) {
            if step == ".." {
                let cut = real.rfind('/').unwrap_or(0);
                real.truncate(cut);
                continue;
            }
            let next = format!("{real}/{step}");
            real = self.real.iter().find(|(p, _)| *p == next)?.1.to_string();
        }
        Some(if real.is_empty() { "/".to_string() } else { real })
    }

    fn resolve(&self, jail: &Jail, path: &str) -> Result<String, JailError> {
        let mut missing = 0;
        loop {
            match jail.ancestor(path, missing) {
                None => return jail.resolve(path, missing, None),
                Some(p) => match self.canonical(&p) {
                    Some(c) => return jail.resolve(path, missing, Some(&c)),
                    None => missing += 1,
                },
            }
        }
    }
}

fn disk() -> Disk {
    Disk {
        real: vec![
            ("/etc", "/etc"),
            ("/etc/passwd", "/etc/passwd"),
            ("/w", "/w"),
            ("/w/jail", "/w/jail"),
            ("/w/jail/sub", "/w/jail/sub"),
            ("/w/jail/sneaky", "/w/outside"),
            ("/w/jail/inner", "/w/jail/sub"),
            ("/w/outside", "/w/outside"),
            ("/w/jailed", "/w/jailed"),
        ],
    }
}

#[test]
fn jail_blocks_escape_and_symlinks() {
    let d = disk();
    let jail = Jail::new("/w/jail").unwrap();
    assert!(d.resolve(&jail, "../etc/passwd").is_err());
    assert!(d.resolve(&jail, "/etc/passwd").is_err());
    assert!(d.resolve(&jail, "sneaky/x.txt").is_err());
    assert!(d.resolve(&jail, "ok/new-file.txt").is_ok());
}

#[test]
fn jail_resolves_to_real_paths() {
    let d = disk();
    let jail = Jail::new("/w/jail").unwrap();
    assert_eq!(jail.root(), "/w/jail");
    assert_eq!(d.resolve(&jail, "inner/./x//y"), Ok("/w/jail/sub/x/y".to_string()));
    assert_eq!(d.resolve(&jail, "sub/../new"), Ok("/w/jail/new".to_string()));
    assert_eq!(d.resolve(&jail, "/w/jail/new"), Ok("/w/jail/new".to_string()));
    assert_eq!(d.resolve(&jail, ""), Ok("/w/jail".to_string()));
    assert_eq!(d.resolve(&jail, "/w/jailed/x"), Err(JailError::Escapes));
    assert_eq!(d.resolve(&jail, "nowhere/../x"), Err(JailError::Escapes));
    assert_eq!(jail.resolve("x", 1, None), Err(JailError::Canonicalize));
    assert_eq!(jail.relative("/w/jail/a/b"), Some("a/b".to_string()));
    assert_eq!(jail.relative("/w/jailed"), None);
    assert!(matches!(Jail::new("w/jail"), Err(JailError::Root)));
    assert!(matches!(Jail::new("/w/../x"), Err(JailError::Root)));
}

#[test]
fn paths_are_joined() {
    assert_eq!(join("/a", "b"), "/a/b");
    assert_eq!(join("/a/", "b"), "/a/b");
    assert_eq!(join("", "b"), "b");
    assert_eq!(join("/a", "/b"), "/b");
    assert_eq!(join("/a", ""), "/a/");
}

#[test]
fn edit_file_replace_and_full_write() {
    let jail = Jail::new("/w/jail").unwrap();
    let full = "/w/jail/notes.txt";
    let o = edit_file(&jail, "notes.txt", full, "", "", "alpha\n").unwrap();
    assert_eq!(o.before, "");
    assert_eq!(o.after, "alpha\n");
    let o = edit_file(&jail, "notes.txt", full, &o.after, "alpha", "bravo").unwrap();
    assert_eq!(o.after, "bravo\n");
    assert!(edit_file(&jail, "notes.txt", full, &o.after, "missing", "x").is_err());
    assert_eq!(read_file(o.after.as_bytes(), 1024), "bravo\n");
}

#[test]
fn edits_name_the_file_below_the_root() {
    let jail = Jail::new("/w/jail").unwrap();
    let o = edit_file(&jail, "./a/b", "/w/jail/a/b", "x x", "x", "y").unwrap();
    assert_eq!((o.path.as_str(), o.before.as_str(), o.after.as_str()), ("a/b", "x x", "y x"));
    let o = edit_file(&jail, "elsewhere", "/etc/x", "", "", "z").unwrap();
    assert_eq!(o.path, "elsewhere");
    assert_eq!(edit_file(&jail, "a", "/w/jail/a", "", "x", "y"), Err(EditError::NotFound));
}

#[test]
fn read_caps_and_listing() {
    let s = read_file("x".repeat(100).as_bytes(), 10);
    assert!(s.starts_with("xxxxxxxxxx") && s.contains("[truncated"));
    let l = list_dir(&vec![("sub".to_string(), true), ("big.txt".to_string(), false)]);
    assert!(l.contains("big.txt") && l.contains("sub/"));
    assert_eq!(s, "xxxxxxxxxx\n[truncated]");
    assert_eq!(l, "big.txt\nsub/");
}

#[test]
fn files_that_are_no_text_are_shown_as_far_as_they_are() {
    assert_eq!(read_file(b"a\xffb", 3), "a\u{fffd}b");
    assert_eq!(list_dir(&Vec::new()), "");
}

#[test]
fn searches_are_cut_by_lines() {
    assert_eq!(search(false, b"anything", 5), "no matches");
    assert_eq!(search(true, b"a:1\nb:2\n", 2), "a:1\nb:2\n");
    assert_eq!(search(true, b"a:1\nb:2\nc:3\n", 2), "a:1\nb:2\n[truncated]");
    assert_eq!(search_args("p", None), ["-n", "--no-heading", "-e", "p", "."]);
    assert_eq!(
        search_args("p", Some("*.rs")),
        ["-n", "--no-heading", "-e", "p", "--glob", "*.rs", "."]
    );
}

#[test]
fn secret_names_are_scrubbed() {
    for name in ["FC_TEST_SECRET_VAL", "api_key", "MyToken", "DbPassword", "aws_credentials"] {
        assert!(name_is_secret(name), "{name}");
    }
    assert!(!name_is_secret("PATH"));
    let names: Vec<String> =
        ["PATH", "FC_TEST_SECRET_VAL", "LISTED"].iter().map(|s| s.to_string()).collect();
    assert_eq!(
        scrubbed_names(&names, &["LISTED".to_string()]),
        ["FC_TEST_SECRET_VAL", "LISTED"]
    );
}

#[test]
fn command_output_is_merged_and_capped() {
    let o = ended(Some(0), b"v=", b"scrubbed", 4096);
    assert_eq!((o.exit_code, o.output.as_str()), (0, "v=scrubbed"));
    let o = ended(None, "x\n".repeat(50000).as_bytes(), b"", 1000);
    assert!(o.output.len() < 1100 && o.output.contains("[truncated"));
    assert_eq!(o.exit_code, -1);
    let o = timed_out(120);
    assert_eq!((o.exit_code, o.output.as_str()), (-1, "killed: timeout after 120s"));
}

#[test]
fn shadow_commands_work_beside_the_tree() {
    let sh = Shadow::init("/state/s", "/ws");
    let head = ["--git-dir", "/state/s/shadow.git", "--work-tree", "/ws"];
    let with = |args: &[&str]| -> Vec<String> {
        head.iter().chain(args.iter()).map(|s| s.to_string()).collect()
    };
    assert_eq!(sh.init_args(), with(&["init", "-q"]));
    assert_eq!(sh.name_args(), with(&["config", "user.name", "forge-composer"]));
    assert_eq!(sh.email_args(), with(&["config", "user.email", "forge-composer@local"]));
    assert_eq!(sh.exclude_path(), "/state/s/shadow.git/info/exclude");
    assert_eq!(sh.stage_args(), with(&["add", "-A"]));
    assert_eq!(
        sh.commit_args("turn-1"),
        with(&["commit", "-q", "--allow-empty", "-m", "turn-1"])
    );
    assert_eq!(sh.head_args(), with(&["rev-parse", "HEAD"]));
    assert_eq!(sh.list_args(), with(&["log", "--format=%H%x09%s"]));
    assert_eq!(sh.restore("h1"), with(&["checkout", "-q", "h1", "--", "."]));
    assert_eq!(sh.file_at("h1", "a.txt"), with(&["show", "h1:a.txt"]));
    assert_eq!(sh.checkpoint("abc\n"), "abc");
    assert_eq!(
        sh.failure(&sh.head_args(), "fatal: no\n"),
        "git rev-parse HEAD failed: fatal: no\n"
    );
}

#[test]
fn checkpoints_are_listed_newest_first() {
    let sh = Shadow::init("/state/s", "/ws");
    assert_eq!(
        sh.list(Some("h2\tturn-2\nnoise\nh1\tturn\t1\n")),
        vec![
            ("h2".to_string(), "turn-2".to_string()),
            ("h1".to_string(), "turn\t1".to_string()),
        ]
    );
    assert!(sh.list(None).is_empty());
}

#[test]
fn worktree_commands() {
    assert_eq!(
        worktree::add("/r", "/d", "fc/b"),
        ["-C", "/r", "worktree", "add", "-b", "fc/b", "/d"]
    );
    assert_eq!(
        worktree::remove("/r", "/d"),
        ["-C", "/r", "worktree", "remove", "--force", "/d"]
    );
    let err = worktree::failure("git worktree add", " fatal: not a git repository\n");
    assert_eq!(err, "git worktree add failed: fatal: not a git repository");
}
