//! Deny-by-default command verdicts over parsed arguments.

use crate::text::{self, chars_of, finishes, has_char, holds, same, starts, to_lower};
use vstd::prelude::*;

verus! {

// ---------------------------------------------------------------------------
// Globs
// ---------------------------------------------------------------------------

/// Whether a pattern matches a whole text: `*` matches any run of characters, an empty
/// one too, `?` matches one character, and any other character matches itself.
pub open spec fn matches_glob(pattern: Seq<char>, text: Seq<char>) -> bool
    decreases pattern.len(),
{
    if pattern.len() == 0 {
        text.len() == 0
    } else if pattern[0] == '*' {
        exists|k: int|
            0 <= k <= text.len() && matches_glob(pattern.drop_first(), #[trigger] text.skip(k))
    } else {
        text.len() > 0 && (pattern[0] == '?' || pattern[0] == text[0]) && matches_glob(
            pattern.drop_first(),
            text.drop_first(),
        )
    }
}

/// A star matches nothing, or one character and then as a star again.
proof fn lemma_star(pattern: Seq<char>, text: Seq<char>)
    requires
        pattern.len() > 0,
        pattern[0] == '*',
    ensures
        matches_glob(pattern, text) <==> (matches_glob(pattern.drop_first(), text) || (text.len()
            > 0 && matches_glob(pattern, text.drop_first()))),
{
    let rest = pattern.drop_first();
    assert(text.skip(0) =~= text);
    if matches_glob(pattern, text) {
        let k = choose|k: int| 0 <= k <= text.len() && matches_glob(rest, #[trigger] text.skip(k));
        if k > 0 {
            assert(text.drop_first().skip(k - 1) =~= text.skip(k));
            assert(matches_glob(rest, text.drop_first().skip(k - 1)));
        }
    }
    if matches_glob(rest, text) {
        assert(matches_glob(rest, text.skip(0)));
    }
    if text.len() > 0 && matches_glob(pattern, text.drop_first()) {
        let k = choose|k: int|
            0 <= k <= text.drop_first().len() && matches_glob(
                rest,
                #[trigger] text.drop_first().skip(k),
            );
        assert(text.drop_first().skip(k) =~= text.skip(k + 1));
        assert(matches_glob(rest, text.skip(k + 1)));
    }
}

/// Whether what is left of a pattern matches what is left of a text.
fn glob_rest(pattern: &[char], text: &[char], p: usize, t: usize) -> (r: bool)
    requires
        p <= pattern@.len(),
        t <= text@.len(),
    ensures
        r == matches_glob(pattern@.skip(p as int), text@.skip(t as int)),
    decreases pattern@.len() - p, text@.len() - t,
{
    let ghost ps = pattern@.skip(p as int);
    let ghost ts = text@.skip(t as int);
    if p == pattern.len() {
        return t == text.len();
    }
    proof {
        assert(ps.drop_first() =~= pattern@.skip(p + 1));
        if t < text@.len() {
            assert(ts.drop_first() =~= text@.skip(t + 1));
        }
    }
    if pattern[p] == '*' {
        proof {
            lemma_star(ps, ts);
        }
        glob_rest(pattern, text, p + 1, t) || (t < text.len() && glob_rest(
            pattern,
            text,
            p,
            t + 1,
        ))
    } else {
        t < text.len() && (pattern[p] == '?' || pattern[p] == text[t]) && glob_rest(
            pattern,
            text,
            p + 1,
            t + 1,
        )
    }
}

/// `*` matches any run (including empty), `?` one char.
pub fn glob_match(pattern: &str, text: &str) -> (r: bool)
    ensures
        r == matches_glob(pattern@, text@),
{
    let p = chars_of(pattern);
    let t = chars_of(text);
    assert(p@.skip(0) =~= p@);
    assert(t@.skip(0) =~= t@);
    glob_rest(p.as_slice(), t.as_slice(), 0, 0)
}

/// The globs match the first arguments, one each.
pub open spec fn globs_match(globs: Seq<Seq<char>>, argv: Seq<Seq<char>>) -> bool {
    &&& globs.len() <= argv.len()
    &&& forall|i: int| 0 <= i < globs.len() ==> matches_glob(#[trigger] globs[i], argv[i])
}

/// Whether globs match the first arguments, one each.
fn globs_fit(globs: &[&str], argv: &[String]) -> (r: bool)
    ensures
        r == globs_match(text::words(globs@), text::texts(argv@)),
{
    if argv.len() < globs.len() {
        return false;
    }
    let mut i: usize = 0;
    while i < globs.len()
        invariant
            i <= globs@.len() <= argv@.len(),
            forall|k: int| 0 <= k < i ==> matches_glob((#[trigger] globs@[k])@, argv@[k]@),
        decreases globs@.len() - i,
    {
        if !glob_match(globs[i], argv[i].as_str()) {
            assert(!matches_glob(text::words(globs@)[i as int], text::texts(argv@)[i as int]));
            return false;
        }
        i = i + 1;
    }
    assert forall|k: int| 0 <= k < text::words(globs@).len() implies matches_glob(
        #[trigger] text::words(globs@)[k],
        text::texts(argv@)[k],
    ) by {
        assert(matches_glob(globs@[k]@, argv@[k]@));
    }
    true
}

// ---------------------------------------------------------------------------
// Verdicts and rules
// ---------------------------------------------------------------------------

/// What becomes of a command.
#[derive(Debug, PartialEq)]
pub enum Verdict {
    /// It runs.
    Auto,
    /// It runs once a human approves.
    Ask,
    /// It does not run; the reason says why.
    Deny(String),
}

/// What a verdict says.
pub ghost enum VerdictView {
    Auto,
    Ask,
    Deny(Seq<char>),
}

impl View for Verdict {
    type V = VerdictView;

    open spec fn view(&self) -> VerdictView {
        match self {
            Verdict::Auto => VerdictView::Auto,
            Verdict::Ask => VerdictView::Ask,
            Verdict::Deny(reason) => VerdictView::Deny(reason@),
        }
    }
}

impl Verdict {
    /// A second copy of the verdict.
    pub fn copy(&self) -> (r: Verdict)
        ensures
            r@ == self@,
    {
        match self {
            Verdict::Auto => Verdict::Auto,
            Verdict::Ask => Verdict::Ask,
            Verdict::Deny(reason) => Verdict::Deny(reason.clone()),
        }
    }

    /// A denial for the given reason.
    pub fn deny(reason: &str) -> (r: Verdict)
        ensures
            r@ == VerdictView::Deny(reason@),
    {
        Verdict::Deny(reason.to_owned())
    }
}

/// What a rule of the user does with a command that it matches.
#[derive(Debug, Clone, Copy, PartialEq, Eq, Structural)]
pub enum RuleAction {
    Auto,
    Ask,
    Deny,
}

/// A rule of the user: globs for the first arguments, one each.
#[derive(Debug)]
pub struct Rule {
    pub globs: Vec<String>,
    pub action: RuleAction,
}

/// What a rule says.
pub ghost struct RuleView {
    pub globs: Seq<Seq<char>>,
    pub action: RuleAction,
}

impl View for Rule {
    type V = RuleView;

    open spec fn view(&self) -> RuleView {
        RuleView { globs: text::texts(self.globs@), action: self.action }
    }
}

/// What a sequence of rules says.
pub open spec fn rule_views(rules: Seq<Rule>) -> Seq<RuleView> {
    Seq::new(rules.len(), |i: int| rules[i]@)
}

impl Rule {
    /// A second copy of the rule.
    pub fn copy(&self) -> (r: Rule)
        ensures
            r@ == self@,
    {
        Rule { globs: text::copy_texts(&self.globs), action: self.action }
    }
}

/// Whether a rule's globs match the first arguments.
pub fn rule_matches(rule: &Rule, argv: &[String]) -> (r: bool)
    ensures
        r == globs_match(rule@.globs, text::texts(argv@)),
{
    if argv.len() < rule.globs.len() {
        return false;
    }
    let mut i: usize = 0;
    while i < rule.globs.len()
        invariant
            i <= rule.globs@.len() <= argv@.len(),
            forall|k: int|
                0 <= k < i ==> matches_glob((#[trigger] rule.globs@[k])@, argv@[k]@),
        decreases rule.globs@.len() - i,
    {
        if !glob_match(rule.globs[i].as_str(), argv[i].as_str()) {
            assert(!matches_glob(rule@.globs[i as int], text::texts(argv@)[i as int]));
            return false;
        }
        i = i + 1;
    }
    assert forall|k: int| 0 <= k < rule@.globs.len() implies matches_glob(
        #[trigger] rule@.globs[k],
        text::texts(argv@)[k],
    ) by {
        assert(matches_glob(rule.globs@[k]@, argv@[k]@));
    }
    true
}

/// The action of the first rule that matches.
pub open spec fn ruled(rules: Seq<RuleView>, argv: Seq<Seq<char>>) -> Option<RuleAction>
    decreases rules.len(),
{
    if rules.len() == 0 {
        None
    } else if globs_match(rules[0].globs, argv) {
        Some(rules[0].action)
    } else {
        ruled(rules.drop_first(), argv)
    }
}

// ---------------------------------------------------------------------------
// Hard denials
// ---------------------------------------------------------------------------

/// The command that the arguments run is the given one.
pub open spec fn runs(argv: Seq<Seq<char>>, command: Seq<char>) -> bool {
    argv.len() > 0 && argv[0] == command
}

/// An option of `rm` that asks for both recursion and force.
pub open spec fn recursive_force(arg: Seq<char>) -> bool {
    &&& text::begins(arg, "-"@)
    &&& text::lowercase(arg).contains('r')
    &&& text::lowercase(arg).contains('f')
}

/// Short options behind a single dash.
pub open spec fn is_cluster(arg: Seq<char>) -> bool {
    text::begins(arg, "-"@) && !text::begins(arg, "--"@)
}

/// An option of `rm` that asks for recursion.
pub open spec fn asks_recursion(arg: Seq<char>) -> bool {
    arg == "--recursive"@ || (is_cluster(arg) && (arg.contains('r') || arg.contains('R')))
}

/// An option of `rm` that asks for force.
pub open spec fn asks_force(arg: Seq<char>) -> bool {
    arg == "--force"@ || (is_cluster(arg) && arg.contains('f'))
}

/// The argument at a place can be an option: no `--` stands before it.
pub open spec fn among_options(argv: Seq<Seq<char>>, at: int) -> bool {
    forall|k: int| 0 <= k < at ==> #[trigger] argv[k] != "--"@
}

/// The arguments remove files by recursion and force, whether one option asks for both or
/// each is asked for on its own.
pub open spec fn removes_by_force(argv: Seq<Seq<char>>) -> bool {
    &&& runs(argv, "rm"@)
    &&& {
        ||| exists|i: int| 0 <= i < argv.len() && recursive_force(#[trigger] argv[i])
        ||| {
            &&& exists|i: int|
                0 <= i < argv.len() && asks_recursion(#[trigger] argv[i]) && among_options(argv, i)
            &&& exists|j: int|
                0 <= j < argv.len() && asks_force(#[trigger] argv[j]) && among_options(argv, j)
        }
    }
}

/// The reason for which the arguments are denied whatever the user's rules say.
pub open spec fn denial(argv: Seq<Seq<char>>) -> Option<Seq<char>> {
    if globs_match(seq!["sudo"@], argv) {
        Some("sudo is not allowed"@)
    } else if globs_match(seq!["mkfs*"@], argv) {
        Some("mkfs is not allowed"@)
    } else if globs_match(seq!["git"@, "push"@, "--force*"@], argv) {
        Some("force push is not allowed"@)
    } else if globs_match(seq!["git"@, "push"@, "-f*"@], argv) {
        Some("force push is not allowed"@)
    } else if globs_match(seq!["chmod"@, "-R"@, "777"@], argv) {
        Some("chmod -R 777 is not allowed"@)
    } else if runs(argv, "dd"@) && exists|i: int|
        0 <= i < argv.len() && text::begins(#[trigger] argv[i], "of=/dev/"@) {
        Some("dd to a block device is not allowed"@)
    } else if removes_by_force(argv) {
        Some("rm -rf is not allowed"@)
    } else if exists|i: int|
        0 <= i < argv.len() && text::occurs(#[trigger] argv[i], "forgeloop/harness/mint.sh"@) {
        Some("mint.sh is sealed by the Architect"@)
    } else if !runs(argv, "ls"@) && exists|i: int|
        0 <= i < argv.len() && text::ends(#[trigger] argv[i], ".env"@) {
        Some(".env files are protected"@)
    } else if exists|i: int|
        0 <= i < argv.len() && (text::occurs(#[trigger] argv[i], "/.ssh/"@) || text::ends(
            argv[i],
            "/.ssh"@,
        )) {
        Some(".ssh paths are protected"@)
    } else {
        None
    }
}

fn command_is(argv: &[String], command: &str) -> (r: bool)
    ensures
        r == runs(text::texts(argv@), command@),
{
    argv.len() > 0 && same(argv[0].as_str(), command)
}

fn any_starts(argv: &[String], pattern: &str) -> (r: bool)
    ensures
        r == exists|i: int|
            0 <= i < argv@.len() && text::begins(#[trigger] text::texts(argv@)[i], pattern@),
{
    let ghost all = text::texts(argv@);
    let mut i: usize = 0;
    while i < argv.len()
        invariant
            i <= argv@.len(),
            all == text::texts(argv@),
            forall|k: int| 0 <= k < i ==> !text::begins(#[trigger] all[k], pattern@),
        decreases argv@.len() - i,
    {
        if starts(argv[i].as_str(), pattern) {
            assert(text::begins(all[i as int], pattern@));
            return true;
        }
        i = i + 1;
    }
    false
}

fn any_holds(argv: &[String], pattern: &str) -> (r: bool)
    ensures
        r == exists|i: int|
            0 <= i < argv@.len() && text::occurs(#[trigger] text::texts(argv@)[i], pattern@),
{
    let ghost all = text::texts(argv@);
    let mut i: usize = 0;
    while i < argv.len()
        invariant
            i <= argv@.len(),
            all == text::texts(argv@),
            forall|k: int| 0 <= k < i ==> !text::occurs(#[trigger] all[k], pattern@),
        decreases argv@.len() - i,
    {
        if holds(argv[i].as_str(), pattern) {
            assert(text::occurs(all[i as int], pattern@));
            return true;
        }
        i = i + 1;
    }
    false
}

fn any_finishes(argv: &[String], pattern: &str) -> (r: bool)
    ensures
        r == exists|i: int|
            0 <= i < argv@.len() && text::ends(#[trigger] text::texts(argv@)[i], pattern@),
{
    let ghost all = text::texts(argv@);
    let mut i: usize = 0;
    while i < argv.len()
        invariant
            i <= argv@.len(),
            all == text::texts(argv@),
            forall|k: int| 0 <= k < i ==> !text::ends(#[trigger] all[k], pattern@),
        decreases argv@.len() - i,
    {
        if finishes(argv[i].as_str(), pattern) {
            assert(text::ends(all[i as int], pattern@));
            return true;
        }
        i = i + 1;
    }
    false
}

fn any_recursive_force(argv: &[String]) -> (r: bool)
    ensures
        r == exists|i: int|
            0 <= i < argv@.len() && recursive_force(#[trigger] text::texts(argv@)[i]),
{
    let ghost all = text::texts(argv@);
    let mut i: usize = 0;
    while i < argv.len()
        invariant
            i <= argv@.len(),
            all == text::texts(argv@),
            forall|k: int| 0 <= k < i ==> !recursive_force(#[trigger] all[k]),
        decreases argv@.len() - i,
    {
        if starts(argv[i].as_str(), "-") {
            let low = to_lower(argv[i].as_str());
            if has_char(low.as_str(), 'r') && has_char(low.as_str(), 'f') {
                assert(recursive_force(all[i as int]));
                return true;
            }
        }
        assert(!recursive_force(all[i as int]));
        i = i + 1;
    }
    false
}

/// Whether recursion, and whether force, is asked for before any `--`.
fn options_of(argv: &[String]) -> (r: (bool, bool))
    ensures
        r.0 == exists|i: int|
            0 <= i < argv@.len() && asks_recursion(#[trigger] text::texts(argv@)[i])
                && among_options(text::texts(argv@), i),
        r.1 == exists|i: int|
            0 <= i < argv@.len() && asks_force(#[trigger] text::texts(argv@)[i])
                && among_options(text::texts(argv@), i),
{
    let ghost all = text::texts(argv@);
    let mut recursion = false;
    let mut force = false;
    let mut i: usize = 0;
    while i < argv.len() && !same(argv[i].as_str(), "--")
        invariant
            i <= argv@.len(),
            all == text::texts(argv@),
            among_options(all, i as int),
            recursion == exists|k: int| 0 <= k < i && asks_recursion(#[trigger] all[k]),
            force == exists|k: int| 0 <= k < i && asks_force(#[trigger] all[k]),
        decreases argv@.len() - i,
    {
        let arg = argv[i].as_str();
        let cluster = starts(arg, "-") && !starts(arg, "--");
        let asked_recursion = same(arg, "--recursive") || (cluster && (has_char(arg, 'r')
            || has_char(arg, 'R')));
        let asked_force = same(arg, "--force") || (cluster && has_char(arg, 'f'));
        assert(asked_recursion == asks_recursion(all[i as int]));
        assert(asked_force == asks_force(all[i as int]));
        recursion = recursion || asked_recursion;
        force = force || asked_force;
        i = i + 1;
    }
    proof {
        reveal_strlit("--");
        reveal_strlit("--recursive");
        reveal_strlit("--force");
        assert("--"@.subrange(0, 2) =~= "--"@);
        assert forall|k: int| i <= k < all.len() && among_options(all, k) implies !asks_recursion(
            #[trigger] all[k],
        ) && !asks_force(all[k]) by {
            assert(all[i as int] == "--"@);
            assert(k == i);
            assert("--"@.len() == 2 && "--recursive"@.len() == 11 && "--force"@.len() == 7);
        }
    }
    (recursion, force)
}

/// Built-in denials that no rule of the user overrides. Returns the reason on a match.
pub fn hard_deny(argv: &[String]) -> (r: Option<String>)
    ensures
        r is Some <==> denial(text::texts(argv@)) is Some,
        r is Some ==> denial(text::texts(argv@)) == Some(r->0@),
{
    let sudo: [&str; 1] = ["sudo"];
    let mkfs: [&str; 1] = ["mkfs*"];
    let force: [&str; 3] = ["git", "push", "--force*"];
    let forced: [&str; 3] = ["git", "push", "-f*"];
    let chmod: [&str; 3] = ["chmod", "-R", "777"];
    proof {
        assert(text::words(sudo@) =~= seq!["sudo"@]);
        assert(text::words(mkfs@) =~= seq!["mkfs*"@]);
        assert(text::words(force@) =~= seq!["git"@, "push"@, "--force*"@]);
        assert(text::words(forced@) =~= seq!["git"@, "push"@, "-f*"@]);
        assert(text::words(chmod@) =~= seq!["chmod"@, "-R"@, "777"@]);
    }
    if globs_fit(&sudo, argv) {
        return Some("sudo is not allowed".to_owned());
    }
    if globs_fit(&mkfs, argv) {
        return Some("mkfs is not allowed".to_owned());
    }
    if globs_fit(&force, argv) {
        return Some("force push is not allowed".to_owned());
    }
    if globs_fit(&forced, argv) {
        return Some("force push is not allowed".to_owned());
    }
    if globs_fit(&chmod, argv) {
        return Some("chmod -R 777 is not allowed".to_owned());
    }
    if command_is(argv, "dd") && any_starts(argv, "of=/dev/") {
        return Some("dd to a block device is not allowed".to_owned());
    }
    let asked = options_of(argv);
    if command_is(argv, "rm") && (any_recursive_force(argv) || (asked.0 && asked.1)) {
        return Some("rm -rf is not allowed".to_owned());
    }
    if any_holds(argv, "forgeloop/harness/mint.sh") {
        return Some("mint.sh is sealed by the Architect".to_owned());
    }
    if !command_is(argv, "ls") && any_finishes(argv, ".env") {
        return Some(".env files are protected".to_owned());
    }
    let within = any_holds(argv, "/.ssh/");
    let at_end = any_finishes(argv, "/.ssh");
    proof {
        let all = text::texts(argv@);
        if exists|i: int|
            0 <= i < all.len() && (text::occurs(#[trigger] all[i], "/.ssh/"@) || text::ends(
                all[i],
                "/.ssh"@,
            )) {
            let i = choose|i: int|
                0 <= i < all.len() && (text::occurs(#[trigger] all[i], "/.ssh/"@) || text::ends(
                    all[i],
                    "/.ssh"@,
                ));
            assert(within || at_end);
        }
    }
    if within || at_end {
        return Some(".ssh paths are protected".to_owned());
    }
    None
}

// ---------------------------------------------------------------------------
// Read-only commands
// ---------------------------------------------------------------------------

/// A text is one of the given literals.
pub open spec fn one_of(words: Seq<&str>, word: Seq<char>) -> bool {
    exists|i: int| 0 <= i < words.len() && (#[trigger] words[i])@ == word
}

/// Some argument from position `from` on is one of the given literals.
pub open spec fn some_of(words: Seq<&str>, argv: Seq<Seq<char>>, from: int) -> bool {
    exists|i: int| from <= i < argv.len() && one_of(words, #[trigger] argv[i])
}

/// Options with which `find` changes files.
pub open spec fn find_mutating() -> Seq<&'static str> {
    seq!["-delete", "-exec", "-execdir", "-ok", "-okdir", "-fprint", "-fprintf", "-fls"]
}

/// Options with which `git branch` changes branches.
pub open spec fn branch_mutating() -> Seq<&'static str> {
    seq![
        "-d",
        "-D",
        "-m",
        "-M",
        "-c",
        "-C",
        "--delete",
        "--move",
        "--copy",
        "--force",
        "--edit-description",
        "--set-upstream-to",
        "--unset-upstream",
    ]
}

/// Commands that only read.
pub open spec fn reading() -> Seq<&'static str> {
    seq!["ls", "pwd", "rg", "grep", "find", "wc", "head", "tail", "cat", "file", "stat", "which"]
}

/// Subcommands of `git` that only read.
pub open spec fn git_reading() -> Seq<&'static str> {
    seq!["status", "diff", "log", "show", "branch"]
}

/// The arguments run a command that only reads.
pub open spec fn readonly(argv: Seq<Seq<char>>) -> bool {
    if runs(argv, "find"@) && some_of(find_mutating(), argv, 1) {
        false
    } else if runs(argv, "git"@) && argv.len() > 1 && argv[1] == "branch"@ && some_of(
        branch_mutating(),
        argv,
        2,
    ) {
        false
    } else {
        ||| argv.len() > 0 && one_of(reading(), argv[0])
        ||| runs(argv, "git"@) && argv.len() > 1 && one_of(git_reading(), argv[1])
    }
}

fn among(words: &[&str], word: &str) -> (r: bool)
    ensures
        r == one_of(words@, word@),
{
    let mut i: usize = 0;
    while i < words.len()
        invariant
            i <= words@.len(),
            forall|k: int| 0 <= k < i ==> (#[trigger] words@[k])@ != word@,
        decreases words@.len() - i,
    {
        if same(words[i], word) {
            return true;
        }
        i = i + 1;
    }
    false
}

fn some_among(words: &[&str], argv: &[String], from: usize) -> (r: bool)
    ensures
        r == some_of(words@, text::texts(argv@), from as int),
{
    let ghost all = text::texts(argv@);
    let mut i: usize = from;
    while i < argv.len()
        invariant
            from <= i,
            all == text::texts(argv@),
            forall|k: int| from <= k < i ==> !one_of(words@, #[trigger] all[k]),
        decreases argv@.len() - i,
    {
        if among(words, argv[i].as_str()) {
            assert(one_of(words@, all[i as int]));
            return true;
        }
        i = i + 1;
    }
    false
}

/// Whether the arguments run a command that only reads.
pub fn is_readonly(argv: &[String]) -> (r: bool)
    ensures
        r == readonly(text::texts(argv@)),
{
    let find_words: [&str; 8] = [
        "-delete",
        "-exec",
        "-execdir",
        "-ok",
        "-okdir",
        "-fprint",
        "-fprintf",
        "-fls",
    ];
    let branch_words: [&str; 13] = [
        "-d",
        "-D",
        "-m",
        "-M",
        "-c",
        "-C",
        "--delete",
        "--move",
        "--copy",
        "--force",
        "--edit-description",
        "--set-upstream-to",
        "--unset-upstream",
    ];
    let reading_words: [&str; 12] = [
        "ls",
        "pwd",
        "rg",
        "grep",
        "find",
        "wc",
        "head",
        "tail",
        "cat",
        "file",
        "stat",
        "which",
    ];
    let git_words: [&str; 5] = ["status", "diff", "log", "show", "branch"];
    proof {
        assert(find_words@ =~= find_mutating());
        assert(branch_words@ =~= branch_mutating());
        assert(reading_words@ =~= reading());
        assert(git_words@ =~= git_reading());
    }
    if command_is(argv, "find") && some_among(&find_words, argv, 1) {
        return false;
    }
    let git = command_is(argv, "git") && argv.len() > 1;
    if git && same(argv[1].as_str(), "branch") && some_among(&branch_words, argv, 2) {
        return false;
    }
    if argv.len() > 0 && among(&reading_words, argv[0].as_str()) {
        return true;
    }
    git && among(&git_words, argv[1].as_str())
}

// ---------------------------------------------------------------------------
// Segments of a command line
// ---------------------------------------------------------------------------

/// The length of the control operator that a text begins with; zero where there is
/// none.
pub open spec fn operator_len(text: Seq<char>) -> nat {
    if text.len() >= 2 && text[0] == '&' && text[1] == '&' {
        2
    } else if text.len() >= 2 && text[0] == '|' && text[1] == '|' {
        2
    } else if text.len() >= 1 && (text[0] == ';' || text[0] == '|') {
        1
    } else {
        0
    }
}

/// Cuts a command line at the control operators `&&`, `||`, `;` and `|` that stand
/// outside quotes. `quote` is the quote that is open, `current` what the segment holds
/// already.
pub open spec fn cut(text: Seq<char>, quote: Option<char>, current: Seq<char>) -> Seq<Seq<char>>
    decreases text.len(),
{
    if text.len() == 0 {
        seq![current]
    } else {
        let c = text[0];
        match quote {
            Some(q) => cut(
                text.drop_first(),
                if c == q {
                    None
                } else {
                    quote
                },
                current.push(c),
            ),
            None => if c == '\'' || c == '"' {
                cut(text.drop_first(), Some(c), current.push(c))
            } else if operator_len(text) > 0 {
                seq![current] + cut(text.skip(operator_len(text) as int), None, Seq::empty())
            } else {
                cut(text.drop_first(), None, current.push(c))
            },
        }
    }
}

/// The segments of a command line.
pub open spec fn segments(command: Seq<char>) -> Seq<Seq<char>> {
    cut(command, None, Seq::empty())
}

/// Splits a command line on the control operators `&&`, `||`, `;`, `|`. Operators
/// inside single or double quotes are literal. Each returned text is one segment's
/// worth of shell text.
pub fn split_raw_segments(command: &str) -> (r: Vec<String>)
    ensures
        text::texts(r@) == segments(command@),
{
    let t = chars_of(command);
    let mut out: Vec<String> = Vec::new();
    let mut cur = String::new();
    let mut quote: Option<char> = None;
    let mut i: usize = 0;
    assert(t@.skip(0) =~= t@);
    assert(text::texts(out@) + cut(t@, quote, cur@) =~= segments(command@));
    while i < t.len()
        invariant
            t@ == command@,
            i <= t@.len(),
            text::texts(out@) + cut(t@.skip(i as int), quote, cur@) == segments(command@),
        decreases t@.len() - i,
    {
        let c = t[i];
        let ghost rest = t@.skip(i as int);
        let ghost done = text::texts(out@);
        proof {
            assert(rest.drop_first() =~= t@.skip(i + 1));
            if i + 2 <= t@.len() {
                assert(rest.skip(2) =~= t@.skip(i + 2));
            }
            assert(rest.skip(1) =~= t@.skip(i + 1));
        }
        match quote {
            Some(q) => {
                cur.push(c);
                if c == q {
                    quote = None;
                }
                i = i + 1;
            },
            None => {
                if c == '\'' || c == '"' {
                    quote = Some(c);
                    cur.push(c);
                    i = i + 1;
                } else {
                    let next: Option<char> = if i + 1 < t.len() {
                        Some(t[i + 1])
                    } else {
                        None
                    };
                    let width: usize = if (c == '&' && next == Some('&')) || (c == '|' && next
                        == Some('|')) {
                        2
                    } else if c == ';' || c == '|' {
                        1
                    } else {
                        0
                    };
                    assert(width == operator_len(rest));
                    if width > 0 {
                        let ghost piece = cur@;
                        out.push(cur);
                        cur = String::new();
                        i = i + width;
                        proof {
                            assert(text::texts(out@) =~= done.push(piece));
                            assert(done + cut(rest, quote, piece) =~= text::texts(out@) + cut(
                                t@.skip(i as int),
                                None,
                                Seq::empty(),
                            ));
                            assert(cur@ =~= Seq::<char>::empty());
                        }
                    } else {
                        cur.push(c);
                        i = i + 1;
                    }
                }
            },
        }
    }
    assert(t@.skip(i as int).len() == 0);
    let ghost done = text::texts(out@);
    let ghost piece = cur@;
    out.push(cur);
    assert(text::texts(out@) =~= done + seq![piece]);
    out
}

// ---------------------------------------------------------------------------
// The policy
// ---------------------------------------------------------------------------

/// The words that `shell_words::split` makes of a text, or `None` where it refuses it.
pub uninterp spec fn shell_split(text: Seq<char>) -> Option<Seq<Seq<char>>>;

/// What an outcome of a split holds.
pub open spec fn words_view(words: Option<Vec<String>>) -> Option<Seq<Seq<char>>> {
    match words {
        Some(words) => Some(text::texts(words@)),
        None => None,
    }
}

/// Calls `shell_words::split`. The claim: the words, or the refusal, are a function of
/// the text alone. How quotes, backslashes and comments are read is left to
/// `shell_words`.
#[verifier::external_body]
fn split_words(segment: &str) -> (r: Option<Vec<String>>)
    ensures
        words_view(r) == shell_split(segment@),
{
    shell_words::split(segment).ok()
}

/// The verdict for the arguments of one segment: a hard denial first, then the first
/// rule of the user that matches, then `Auto` for what only reads and `Ask` for the rest.
pub open spec fn segment_verdict(rules: Seq<RuleView>, argv: Seq<Seq<char>>) -> VerdictView {
    match denial(argv) {
        Some(reason) => VerdictView::Deny(reason),
        None => match ruled(rules, argv) {
            Some(RuleAction::Auto) => VerdictView::Auto,
            Some(RuleAction::Ask) => VerdictView::Ask,
            Some(RuleAction::Deny) => VerdictView::Deny("user rule"@),
            None => if readonly(argv) {
                VerdictView::Auto
            } else {
                VerdictView::Ask
            },
        },
    }
}

/// The verdict for one segment, given what splitting it into words came to.
pub open spec fn split_verdict(
    rules: Seq<RuleView>,
    words: Option<Seq<Seq<char>>>,
) -> VerdictView {
    match words {
        None => VerdictView::Deny("unparseable command"@),
        Some(argv) => if argv.len() == 0 {
            VerdictView::Deny("empty command segment"@)
        } else {
            segment_verdict(rules, argv)
        },
    }
}

/// The strictest of several verdicts: the first denial where there is one, else `Ask`
/// where there is one, else `Auto`.
pub open spec fn strictest(verdicts: Seq<VerdictView>) -> VerdictView
    decreases verdicts.len(),
{
    if verdicts.len() == 0 {
        VerdictView::Auto
    } else if verdicts[0] is Deny {
        verdicts[0]
    } else {
        match strictest(verdicts.drop_first()) {
            VerdictView::Auto => verdicts[0],
            later => later,
        }
    }
}

/// The verdicts for several segments, given what splitting each into words came to.
pub open spec fn split_verdicts(
    rules: Seq<RuleView>,
    split: Seq<Option<Seq<Seq<char>>>>,
) -> Seq<VerdictView> {
    Seq::new(split.len(), |i: int| split_verdict(rules, split[i]))
}

/// A command line asks the shell to put a command's output in its place.
pub open spec fn substitutes(command: Seq<char>) -> bool {
    command.contains('`') || text::occurs(command, "$("@)
}

/// What splitting each segment of a command line into words comes to.
pub open spec fn split_segments(command: Seq<char>) -> Seq<Option<Seq<Seq<char>>>> {
    Seq::new(segments(command).len(), |i: int| shell_split(segments(command)[i]))
}

/// The verdict for a command line.
pub open spec fn command_verdict(rules: Seq<RuleView>, command: Seq<char>) -> VerdictView {
    if substitutes(command) {
        VerdictView::Deny("command substitution"@)
    } else {
        strictest(split_verdicts(rules, split_segments(command)))
    }
}

/// The stricter of two verdicts, the first where they are as strict as each other.
pub open spec fn stricter_of(a: VerdictView, b: VerdictView) -> VerdictView {
    match (a, b) {
        (VerdictView::Auto, _) => b,
        (VerdictView::Ask, VerdictView::Deny(_)) => b,
        _ => a,
    }
}

/// The stricter of two verdicts, the first where they are as strict as each other.
pub fn stricter(a: &Verdict, b: &Verdict) -> (r: Verdict)
    ensures
        r@ == stricter_of(a@, b@),
{
    match (a, b) {
        (Verdict::Auto, _) => b.copy(),
        (Verdict::Ask, Verdict::Deny(_)) => b.copy(),
        _ => a.copy(),
    }
}

/// What splitting several segments into words came to.
pub open spec fn splits(split: Seq<Option<Vec<String>>>) -> Seq<Option<Seq<Seq<char>>>> {
    Seq::new(split.len(), |i: int| words_view(split[i]))
}

/// The rules of the user.
#[derive(Debug)]
pub struct Policy {
    user_rules: Vec<Rule>,
}

impl View for Policy {
    type V = Seq<RuleView>;

    closed spec fn view(&self) -> Seq<RuleView> {
        rule_views(self.user_rules@)
    }
}

impl Default for Policy {
    fn default() -> (r: Policy)
        ensures
            r@ == Seq::<RuleView>::empty(),
    {
        let r = Policy { user_rules: Vec::new() };
        assert(r@ =~= Seq::<RuleView>::empty());
        r
    }
}

impl Policy {
    /// A policy with the given rules, the first of them asked first.
    pub fn new(user_rules: Vec<Rule>) -> (r: Policy)
        ensures
            r@ == rule_views(user_rules@),
            r@.len() == user_rules@.len(),
            forall|i: int|
                #![trigger user_rules@[i]]
                0 <= i < user_rules@.len() ==> r@[i].action == user_rules@[i].action
                    && r@[i].globs.len() == user_rules@[i].globs@.len(),
            forall|i: int, k: int|
                #![trigger user_rules@[i].globs@[k]]
                0 <= i < user_rules@.len() && 0 <= k < user_rules@[i].globs@.len()
                    ==> r@[i].globs[k] == user_rules@[i].globs@[k]@,
    {
        Policy { user_rules }
    }

    /// The verdict for the arguments of one segment.
    pub fn check_segment(&self, argv: &[String]) -> (r: Verdict)
        ensures
            r@ == segment_verdict(self@, text::texts(argv@)),
    {
        if let Some(reason) = hard_deny(argv) {
            return Verdict::Deny(reason);
        }
        let ghost all = self@;
        let mut i: usize = 0;
        assert(all.skip(0) =~= all);
        while i < self.user_rules.len()
            invariant
                i <= self.user_rules@.len(),
                all == rule_views(self.user_rules@),
                all == self@,
                denial(text::texts(argv@)) is None,
                ruled(all, text::texts(argv@)) == ruled(all.skip(i as int), text::texts(argv@)),
            decreases self.user_rules@.len() - i,
        {
            assert(all.skip(i as int).drop_first() =~= all.skip(i + 1));
            assert(all.skip(i as int)[0] == self.user_rules@[i as int]@);
            if rule_matches(&self.user_rules[i], argv) {
                return match self.user_rules[i].action {
                    RuleAction::Auto => Verdict::Auto,
                    RuleAction::Ask => Verdict::Ask,
                    RuleAction::Deny => Verdict::deny("user rule"),
                };
            }
            i = i + 1;
        }
        assert(all.skip(i as int).len() == 0);
        if is_readonly(argv) {
            return Verdict::Auto;
        }
        Verdict::Ask
    }

    /// The verdict for several segments, given what splitting each into words came to:
    /// the strictest one wins (Deny > Ask > Auto).
    pub fn check_split(&self, split: &Vec<Option<Vec<String>>>) -> (r: Verdict)
        ensures
            r@ == strictest(split_verdicts(self@, splits(split@))),
    {
        let ghost all = split_verdicts(self@, splits(split@));
        let mut strictest_so_far = Verdict::Auto;
        let mut i: usize = 0;
        assert(all.skip(0) =~= all);
        while i < split.len()
            invariant
                i <= split@.len(),
                all == split_verdicts(self@, splits(split@)),
                !(strictest_so_far@ is Deny),
                strictest(all) == stricter_of(strictest_so_far@, strictest(all.skip(i as int))),
            decreases split@.len() - i,
        {
            assert(all.skip(i as int).drop_first() =~= all.skip(i + 1));
            assert(all.skip(i as int)[0] == split_verdict(self@, words_view(split@[i as int])));
            let v = match &split[i] {
                None => Verdict::deny("unparseable command"),
                Some(argv) => {
                    if argv.len() == 0 {
                        Verdict::deny("empty command segment")
                    } else {
                        self.check_segment(argv.as_slice())
                    }
                },
            };
            if let Verdict::Deny(_) = v {
                return v;
            }
            strictest_so_far = stricter(&strictest_so_far, &v);
            i = i + 1;
        }
        assert(all.skip(i as int).len() == 0);
        strictest_so_far
    }

    /// Verdict for a raw shell command string. Splits on `&&`, `||`, `;`, `|` into
    /// segments; the strictest segment verdict wins (Deny > Ask > Auto).
    pub fn check(&self, command: &str) -> (r: Verdict)
        ensures
            r@ == command_verdict(self@, command@),
    {
        if has_char(command, '`') || holds(command, "$(") {
            return Verdict::deny("command substitution");
        }
        let raw = split_raw_segments(command);
        let mut split: Vec<Option<Vec<String>>> = Vec::new();
        let mut i: usize = 0;
        while i < raw.len()
            invariant
                i <= raw@.len(),
                split@.len() == i,
                forall|k: int|
                    0 <= k < i ==> words_view(#[trigger] split@[k]) == shell_split(raw@[k]@),
            decreases raw@.len() - i,
        {
            split.push(split_words(raw[i].as_str()));
            i = i + 1;
        }
        assert forall|k: int| 0 <= k < raw@.len() implies raw@[k]@ == #[trigger] segments(
            command@,
        )[k] by {
            assert(text::texts(raw@)[k] == raw@[k]@);
        }
        assert(splits(split@) =~= split_segments(command@));
        self.check_split(&split)
    }
}

// ---------------------------------------------------------------------------
// Laws
// ---------------------------------------------------------------------------

/// A pattern without `*` and `?` matches itself and nothing else.
pub proof fn literal_glob_matches_itself_only(pattern: Seq<char>, text: Seq<char>)
    requires
        !pattern.contains('*'),
        !pattern.contains('?'),
    ensures
        matches_glob(pattern, text) <==> pattern == text,
    decreases pattern.len(),
{
    if pattern.len() == 0 {
        assert(text.len() == 0 ==> pattern =~= text);
    } else {
        assert(pattern[0] != '*' && pattern[0] != '?') by {
            assert(pattern.contains(pattern[0]));
        }
        let rest = pattern.drop_first();
        assert forall|c: char| rest.contains(c) implies pattern.contains(c) by {
            let k = choose|k: int| 0 <= k < rest.len() && rest[k] == c;
            assert(pattern[k + 1] == c);
        }
        if text.len() > 0 {
            literal_glob_matches_itself_only(rest, text.drop_first());
            if pattern[0] == text[0] && rest == text.drop_first() {
                assert(pattern =~= text) by {
                    assert forall|k: int| 0 <= k < pattern.len() implies pattern[k] == text[k] by {
                        if k > 0 {
                            assert(rest[k - 1] == text.drop_first()[k - 1]);
                        }
                    }
                }
            }
        }
    }
}

/// A literal beginning followed by a star matches every text that begins so.
pub proof fn starred_glob_matches_every_beginning(start: Seq<char>, text: Seq<char>)
    requires
        !start.contains('*'),
        !start.contains('?'),
    ensures
        matches_glob(start.push('*'), text) <==> text::begins(text, start),
    decreases start.len(),
{
    let pattern = start.push('*');
    if start.len() == 0 {
        assert(pattern.drop_first() =~= Seq::<char>::empty());
        assert(text.skip(text.len() as int).len() == 0);
        assert(matches_glob(pattern.drop_first(), text.skip(text.len() as int)));
        assert(text.subrange(0, 0) =~= start);
    } else {
        assert(start.contains(start[0]));
        let rest = start.drop_first();
        assert(pattern.drop_first() =~= rest.push('*'));
        assert forall|c: char| rest.contains(c) implies start.contains(c) by {
            let k = choose|k: int| 0 <= k < rest.len() && rest[k] == c;
            assert(start[k + 1] == c);
        }
        if text.len() > 0 {
            let tail = text.drop_first();
            starred_glob_matches_every_beginning(rest, tail);
            if text[0] == start[0] && text::begins(tail, rest) {
                assert(text.subrange(0, start.len() as int) =~= start) by {
                    assert forall|k: int| 0 <= k < start.len() implies text[k] == start[k] by {
                        if k > 0 {
                            assert(tail.subrange(0, rest.len() as int)[k - 1] == rest[k - 1]);
                        }
                    }
                }
            }
            if text::begins(text, start) {
                assert(text.subrange(0, start.len() as int)[0] == start[0]);
                assert(tail.subrange(0, rest.len() as int) =~= rest) by {
                    assert forall|k: int| 0 <= k < rest.len() implies tail[k] == rest[k] by {
                        assert(text.subrange(0, start.len() as int)[k + 1] == start[k + 1]);
                    }
                }
            }
        }
    }
}

/// A hard denial holds whatever the user's rules say.
pub proof fn hard_denials_are_not_overridable(rules: Seq<RuleView>, argv: Seq<Seq<char>>)
    requires
        denial(argv) is Some,
    ensures
        segment_verdict(rules, argv) == VerdictView::Deny(denial(argv)->0),
{
}

/// No rule of the user opens the way to minting: a segment that names the minting script
/// in any argument is denied.
pub proof fn minting_is_always_denied(rules: Seq<RuleView>, argv: Seq<Seq<char>>, i: int)
    requires
        0 <= i < argv.len(),
        text::occurs(argv[i], "forgeloop/harness/mint.sh"@),
    ensures
        segment_verdict(rules, argv) is Deny,
{
}

/// No rule of the user opens the way to superuser rights.
pub proof fn superuser_is_always_denied(rules: Seq<RuleView>, argv: Seq<Seq<char>>)
    requires
        argv.len() > 0,
        argv[0] == "sudo"@,
    ensures
        segment_verdict(rules, argv) is Deny,
{
    reveal_strlit("sudo");
    assert forall|i: int| 0 <= i < "sudo"@.len() implies "sudo"@[i] != '*' && "sudo"@[i]
        != '?' by {}
    literal_glob_matches_itself_only("sudo"@, "sudo"@);
    assert forall|i: int| 0 <= i < seq!["sudo"@].len() implies matches_glob(
        #[trigger] seq!["sudo"@][i],
        argv[i],
    ) by {}
    assert(globs_match(seq!["sudo"@], argv));
}

/// No rule of the user lets `rm` remove by recursion and force, however the options are
/// spread over the arguments.
pub proof fn forced_removal_is_always_denied(rules: Seq<RuleView>, argv: Seq<Seq<char>>)
    requires
        removes_by_force(argv),
    ensures
        segment_verdict(rules, argv) is Deny,
{
}

/// The first rule that matches decides, whatever rules follow it.
pub proof fn first_matching_rule_decides(
    before: Seq<RuleView>,
    rule: RuleView,
    after: Seq<RuleView>,
    argv: Seq<Seq<char>>,
)
    requires
        forall|i: int| 0 <= i < before.len() ==> !globs_match((#[trigger] before[i]).globs, argv),
        globs_match(rule.globs, argv),
    ensures
        ruled(before.push(rule) + after, argv) == Some(rule.action),
    decreases before.len(),
{
    let all = before.push(rule) + after;
    if before.len() > 0 {
        assert(all[0] == before[0]);
        let rest = before.drop_first();
        assert forall|i: int| 0 <= i < rest.len() implies !globs_match(
            (#[trigger] rest[i]).globs,
            argv,
        ) by {
            assert(rest[i] == before[i + 1]);
        }
        first_matching_rule_decides(rest, rule, after, argv);
        assert(all.drop_first() =~= rest.push(rule) + after);
    }
}

/// Deny > Ask > Auto: among several verdicts the first denial wins; without one, an
/// `Ask` wins; `Auto` is left where all are `Auto`.
pub proof fn strictest_verdict_wins(verdicts: Seq<VerdictView>)
    ensures
        strictest(verdicts) is Auto <==> forall|i: int|
            0 <= i < verdicts.len() ==> #[trigger] verdicts[i] is Auto,
        strictest(verdicts) is Deny <==> exists|i: int|
            0 <= i < verdicts.len() && #[trigger] verdicts[i] is Deny,
        forall|i: int|
            0 <= i < verdicts.len() && #[trigger] verdicts[i] is Deny && (forall|j: int|
                0 <= j < i ==> !(#[trigger] verdicts[j] is Deny)) ==> strictest(verdicts)
                == verdicts[i],
    decreases verdicts.len(),
{
    if verdicts.len() > 0 {
        let rest = verdicts.drop_first();
        strictest_verdict_wins(rest);
        assert forall|i: int| 1 <= i < verdicts.len() implies #[trigger] verdicts[i] == rest[
            i - 1] by {}
        assert forall|i: int| 0 <= i < rest.len() implies #[trigger] rest[i] == verdicts[
            i + 1] by {}
        if strictest(rest) is Deny {
            let i = choose|i: int| 0 <= i < rest.len() && #[trigger] rest[i] is Deny;
            assert(verdicts[i + 1] is Deny);
        }
        if exists|i: int| 0 <= i < verdicts.len() && #[trigger] verdicts[i] is Deny {
            let i = choose|i: int| 0 <= i < verdicts.len() && #[trigger] verdicts[i] is Deny;
            if i > 0 {
                assert(rest[i - 1] is Deny);
            }
        }
        if strictest(rest) is Auto && verdicts[0] is Auto {
            assert forall|i: int| 0 <= i < verdicts.len() implies #[trigger] verdicts[i] is Auto by {
                if i > 0 {
                    assert(rest[i - 1] is Auto);
                }
            }
        }
        if forall|i: int| 0 <= i < verdicts.len() ==> #[trigger] verdicts[i] is Auto {
            assert(verdicts[0] is Auto);
            assert forall|i: int| 0 <= i < rest.len() implies #[trigger] rest[i] is Auto by {
                assert(verdicts[i + 1] is Auto);
            }
        }
        assert forall|i: int|
            0 <= i < verdicts.len() && #[trigger] verdicts[i] is Deny && (forall|j: int|
                0 <= j < i ==> !(#[trigger] verdicts[j] is Deny)) implies strictest(verdicts)
            == verdicts[i] by {
            if i > 0 {
                assert(!(verdicts[0] is Deny));
                assert(rest[i - 1] is Deny);
                assert forall|j: int| 0 <= j < i - 1 implies !(#[trigger] rest[j] is Deny) by {
                    assert(!(verdicts[j + 1] is Deny));
                }
                assert(strictest(rest) == rest[i - 1]);
            }
        }
    }
}

/// A segment that is denied denies the whole command line.
pub proof fn denied_segment_denies_the_command(rules: Seq<RuleView>, command: Seq<char>, i: int)
    requires
        0 <= i < segments(command).len(),
        split_verdict(rules, shell_split(segments(command)[i])) is Deny,
    ensures
        command_verdict(rules, command) is Deny,
{
    let verdicts = split_verdicts(rules, split_segments(command));
    strictest_verdict_wins(verdicts);
    assert(verdicts[i] is Deny);
}

/// A command line runs unasked only where it substitutes nothing and each of its
/// segments runs unasked.
pub proof fn command_runs_unasked_only_where_each_segment_does(
    rules: Seq<RuleView>,
    command: Seq<char>,
)
    ensures
        command_verdict(rules, command) is Auto <==> !substitutes(command) && forall|i: int|
            0 <= i < segments(command).len() ==> split_verdict(
                rules,
                shell_split(#[trigger] segments(command)[i]),
            ) is Auto,
{
    let verdicts = split_verdicts(rules, split_segments(command));
    strictest_verdict_wins(verdicts);
    assert forall|i: int| 0 <= i < segments(command).len() implies #[trigger] verdicts[i]
        == split_verdict(rules, shell_split(segments(command)[i])) by {}
    if forall|i: int|
        0 <= i < segments(command).len() ==> split_verdict(
            rules,
            shell_split(#[trigger] segments(command)[i]),
        ) is Auto {
        assert forall|i: int| 0 <= i < verdicts.len() implies #[trigger] verdicts[i] is Auto by {
            assert(split_verdict(rules, shell_split(segments(command)[i])) is Auto);
        }
    }
    if !substitutes(command) && command_verdict(rules, command) is Auto {
        assert forall|i: int| 0 <= i < segments(command).len() implies split_verdict(
            rules,
            shell_split(#[trigger] segments(command)[i]),
        ) is Auto by {
            assert(verdicts[i] is Auto);
        }
    }
}

/// A command substitution is denied whatever the user's rules say.
pub proof fn substitution_is_denied(rules: Seq<RuleView>, command: Seq<char>)
    requires
        substitutes(command),
    ensures
        command_verdict(rules, command) is Deny,
{
}

/// Without rules of the user the arguments of a segment run unasked exactly where they
/// only read, and are asked for where they do more, hard denials aside.
pub proof fn default_is_ask(argv: Seq<Seq<char>>)
    requires
        denial(argv) is None,
    ensures
        segment_verdict(Seq::empty(), argv) == (if readonly(argv) {
            VerdictView::Auto
        } else {
            VerdictView::Ask
        }),
{
}

/// The control operators at which `cut` cuts.
pub open spec fn operators(text: Seq<char>, quote: Option<char>) -> Seq<Seq<char>>
    decreases text.len(),
{
    if text.len() == 0 {
        Seq::empty()
    } else {
        let c = text[0];
        match quote {
            Some(q) => operators(
                text.drop_first(),
                if c == q {
                    None
                } else {
                    quote
                },
            ),
            None => if c == '\'' || c == '"' {
                operators(text.drop_first(), Some(c))
            } else if operator_len(text) > 0 {
                seq![text.take(operator_len(text) as int)] + operators(
                    text.skip(operator_len(text) as int),
                    None,
                )
            } else {
                operators(text.drop_first(), None)
            },
        }
    }
}

/// Segments with operators between them.
pub open spec fn woven(parts: Seq<Seq<char>>, between: Seq<Seq<char>>) -> Seq<char>
    decreases parts.len(),
{
    if parts.len() == 0 {
        Seq::empty()
    } else if parts.len() == 1 || between.len() == 0 {
        parts[0]
    } else {
        parts[0] + between[0] + woven(parts.drop_first(), between.drop_first())
    }
}

proof fn lemma_cut_weaves(text: Seq<char>, quote: Option<char>, current: Seq<char>)
    ensures
        cut(text, quote, current).len() == operators(text, quote).len() + 1,
        woven(cut(text, quote, current), operators(text, quote)) == current + text,
    decreases text.len(),
{
    if text.len() == 0 {
        assert(current + text =~= current);
    } else {
        let c = text[0];
        let rest = text.drop_first();
        assert(current.push(c) + rest =~= current + text);
        match quote {
            Some(q) => {
                lemma_cut_weaves(
                    rest,
                    if c == q {
                        None
                    } else {
                        quote
                    },
                    current.push(c),
                );
            },
            None => {
                if c == '\'' || c == '"' {
                    lemma_cut_weaves(rest, Some(c), current.push(c));
                } else if operator_len(text) > 0 {
                    let n = operator_len(text) as int;
                    let tail = text.skip(n);
                    lemma_cut_weaves(tail, None, Seq::empty());
                    let parts = cut(text, quote, current);
                    let between = operators(text, quote);
                    assert(parts.drop_first() =~= cut(tail, None, Seq::empty()));
                    assert(between.drop_first() =~= operators(tail, None));
                    assert(Seq::<char>::empty() + tail =~= tail);
                    assert(current + text.take(n) + tail =~= current + text);
                } else {
                    lemma_cut_weaves(rest, None, current.push(c));
                }
            },
        }
    }
}

/// Nothing of a command line is lost: its segments with the operators between them are
/// the command line.
pub proof fn segments_weave_back(command: Seq<char>)
    ensures
        segments(command).len() == operators(command, None).len() + 1,
        woven(segments(command), operators(command, None)) == command,
{
    lemma_cut_weaves(command, None, Seq::empty());
    assert(Seq::<char>::empty() + command =~= command);
}

/// What stands between quotes goes into the segment as it is, operators and all.
pub proof fn quoted_operators_are_literal(
    body: Seq<char>,
    quote: char,
    tail: Seq<char>,
    current: Seq<char>,
)
    requires
        !body.contains(quote),
    ensures
        cut(body.push(quote) + tail, Some(quote), current) == cut(
            tail,
            None,
            current + body.push(quote),
        ),
    decreases body.len(),
{
    let text = body.push(quote) + tail;
    if body.len() == 0 {
        assert(text.drop_first() =~= tail);
        assert(current.push(quote) =~= current + body.push(quote));
    } else {
        assert(body.contains(body[0]));
        let rest = body.drop_first();
        assert forall|c: char| rest.contains(c) implies body.contains(c) by {
            let k = choose|k: int| 0 <= k < rest.len() && rest[k] == c;
            assert(body[k + 1] == c);
        }
        assert(text.drop_first() =~= rest.push(quote) + tail);
        quoted_operators_are_literal(rest, quote, tail, current.push(body[0]));
        assert(current.push(body[0]) + rest.push(quote) =~= current + body.push(quote));
    }
}

/// A pattern made of two parts matches a text where the text can be cut so that each part
/// matches its side.
pub proof fn parts_of_a_glob_match_parts_of_a_text(
    start: Seq<char>,
    end: Seq<char>,
    text: Seq<char>,
)
    ensures
        matches_glob(start + end, text) <==> exists|k: int|
            0 <= k <= text.len() && matches_glob(start, #[trigger] text.take(k)) && matches_glob(
                end,
                text.skip(k),
            ),
    decreases start.len(),
{
    let whole = start + end;
    if start.len() == 0 {
        assert(whole =~= end);
        assert(text.take(0).len() == 0);
        assert(text.skip(0) =~= text);
        if matches_glob(whole, text) {
            assert(matches_glob(start, text.take(0)) && matches_glob(end, text.skip(0)));
        }
    } else {
        let rest = start.drop_first();
        assert(whole.drop_first() =~= rest + end);
        assert(whole[0] == start[0]);
        if start[0] == '*' {
            if matches_glob(whole, text) {
                let j = choose|j: int|
                    0 <= j <= text.len() && matches_glob(rest + end, #[trigger] text.skip(j));
                parts_of_a_glob_match_parts_of_a_text(rest, end, text.skip(j));
                let tail = text.skip(j);
                let k = choose|k: int|
                    0 <= k <= tail.len() && matches_glob(rest, #[trigger] tail.take(k))
                        && matches_glob(end, tail.skip(k));
                assert(text.take(j + k).skip(j) =~= tail.take(k));
                assert(text.skip(j + k) =~= tail.skip(k));
                assert(matches_glob(start, text.take(j + k)));
            }
            if exists|k: int|
                0 <= k <= text.len() && matches_glob(start, #[trigger] text.take(k))
                    && matches_glob(end, text.skip(k)) {
                let k = choose|k: int|
                    0 <= k <= text.len() && matches_glob(start, #[trigger] text.take(k))
                        && matches_glob(end, text.skip(k));
                let j = choose|j: int|
                    0 <= j <= text.take(k).len() && matches_glob(
                        rest,
                        #[trigger] text.take(k).skip(j),
                    );
                let tail = text.skip(j);
                assert(tail.take(k - j) =~= text.take(k).skip(j));
                assert(tail.skip(k - j) =~= text.skip(k));
                parts_of_a_glob_match_parts_of_a_text(rest, end, tail);
                assert(matches_glob(rest + end, text.skip(j)));
            }
        } else if text.len() > 0 {
            let tail = text.drop_first();
            parts_of_a_glob_match_parts_of_a_text(rest, end, tail);
            if matches_glob(whole, text) {
                let k = choose|k: int|
                    0 <= k <= tail.len() && matches_glob(rest, #[trigger] tail.take(k))
                        && matches_glob(end, tail.skip(k));
                assert(text.take(k + 1).drop_first() =~= tail.take(k));
                assert(text.skip(k + 1) =~= tail.skip(k));
                assert(matches_glob(start, text.take(k + 1)));
            }
            if exists|k: int|
                0 <= k <= text.len() && matches_glob(start, #[trigger] text.take(k))
                    && matches_glob(end, text.skip(k)) {
                let k = choose|k: int|
                    0 <= k <= text.len() && matches_glob(start, #[trigger] text.take(k))
                        && matches_glob(end, text.skip(k));
                assert(text.take(k).len() > 0);
                assert(text.take(k).drop_first() =~= tail.take(k - 1));
                assert(text.skip(k) =~= tail.skip(k - 1));
                assert(matches_glob(rest, tail.take(k - 1)));
            }
        } else {
            assert forall|k: int| 0 <= k <= text.len() implies !matches_glob(
                start,
                #[trigger] text.take(k),
            ) by {}
        }
    }
}

/// A star alone matches every text, a question mark alone every text of one character.
pub proof fn wildcards_match_what_they_stand_for(text: Seq<char>)
    ensures
        matches_glob(seq!['*'], text),
        matches_glob(seq!['?'], text) <==> text.len() == 1,
{
    assert(seq!['*'].drop_first() =~= Seq::<char>::empty());
    assert(seq!['?'].drop_first() =~= Seq::<char>::empty());
    assert(text.skip(text.len() as int).len() == 0);
    assert(matches_glob(seq!['*'].drop_first(), text.skip(text.len() as int)));
    if text.len() > 0 {
        assert(matches_glob(seq!['?'].drop_first(), text.drop_first()) == (text.drop_first().len()
            == 0));
    }
}

/// Globs match arguments one for one, from the first on; further arguments do not matter.
pub proof fn further_arguments_do_not_matter(
    globs: Seq<Seq<char>>,
    argv: Seq<Seq<char>>,
    more: Seq<Seq<char>>,
)
    requires
        globs.len() == argv.len(),
    ensures
        globs_match(globs, argv + more) == globs_match(globs, argv),
        argv.len() > 0 ==> !globs_match(globs, argv.drop_last()),
        globs_match(globs, argv) ==> forall|i: int|
            0 <= i < argv.len() ==> matches_glob(globs[i], #[trigger] argv[i]),
{
    let all = argv + more;
    if globs_match(globs, all) {
        assert forall|i: int| 0 <= i < globs.len() implies matches_glob(
            #[trigger] globs[i],
            argv[i],
        ) by {
            assert(all[i] == argv[i]);
        }
    }
    if globs_match(globs, argv) {
        assert forall|i: int| 0 <= i < globs.len() implies matches_glob(
            #[trigger] globs[i],
            all[i],
        ) by {
            assert(all[i] == argv[i]);
        }
        assert forall|i: int| 0 <= i < argv.len() implies matches_glob(
            globs[i],
            #[trigger] argv[i],
        ) by {
            assert(matches_glob(globs[i], argv[i]));
        }
    }
}

/// Hard denials aside, a segment gets what the first rule that matches says: it runs, is
/// asked about or is denied.
pub proof fn matching_rule_gives_the_verdict(
    before: Seq<RuleView>,
    rule: RuleView,
    after: Seq<RuleView>,
    argv: Seq<Seq<char>>,
)
    requires
        !(segment_verdict(Seq::empty(), argv) is Deny),
        forall|i: int| 0 <= i < before.len() ==> !globs_match((#[trigger] before[i]).globs, argv),
        globs_match(rule.globs, argv),
    ensures
        rule.action == RuleAction::Auto ==> segment_verdict(before.push(rule) + after, argv)
            == VerdictView::Auto,
        rule.action == RuleAction::Ask ==> segment_verdict(before.push(rule) + after, argv)
            == VerdictView::Ask,
        rule.action == RuleAction::Deny ==> segment_verdict(before.push(rule) + after, argv)
            == VerdictView::Deny("user rule"@),
{
    first_matching_rule_decides(before, rule, after, argv);
}

/// Rules that do not match change nothing.
pub proof fn other_rules_change_nothing(rules: Seq<RuleView>, argv: Seq<Seq<char>>)
    requires
        forall|i: int| 0 <= i < rules.len() ==> !globs_match((#[trigger] rules[i]).globs, argv),
    ensures
        segment_verdict(rules, argv) == segment_verdict(Seq::empty(), argv),
{
    lemma_no_rule(rules, argv);
}

proof fn lemma_no_rule(rules: Seq<RuleView>, argv: Seq<Seq<char>>)
    requires
        forall|i: int| 0 <= i < rules.len() ==> !globs_match((#[trigger] rules[i]).globs, argv),
    ensures
        ruled(rules, argv) is None,
    decreases rules.len(),
{
    if rules.len() > 0 {
        let rest = rules.drop_first();
        assert(!globs_match(rules[0].globs, argv));
        assert forall|i: int| 0 <= i < rest.len() implies !globs_match(
            (#[trigger] rest[i]).globs,
            argv,
        ) by {
            assert(rest[i] == rules[i + 1]);
        }
        lemma_no_rule(rest, argv);
    }
}

proof fn lemma_reading_words(word: Seq<char>)
    ensures
        one_of(reading(), word) <==> (word == "ls"@
            || word == "pwd"@
            || word == "rg"@
            || word == "grep"@
            || word == "find"@
            || word == "wc"@
            || word == "head"@
            || word == "tail"@
            || word == "cat"@
            || word == "file"@
            || word == "stat"@
            || word == "which"@),
{
    let all = reading();
    assert(all[0]@ == "ls"@);
    assert(all[1]@ == "pwd"@);
    assert(all[2]@ == "rg"@);
    assert(all[3]@ == "grep"@);
    assert(all[4]@ == "find"@);
    assert(all[5]@ == "wc"@);
    assert(all[6]@ == "head"@);
    assert(all[7]@ == "tail"@);
    assert(all[8]@ == "cat"@);
    assert(all[9]@ == "file"@);
    assert(all[10]@ == "stat"@);
    assert(all[11]@ == "which"@);
    if one_of(all, word) {
        let i = choose|i: int| 0 <= i < all.len() && (#[trigger] all[i])@ == word;
        assert(i == 0 || i == 1 || i == 2 || i == 3 || i == 4 || i == 5 || i == 6 || i == 7 || i == 8 || i == 9 || i == 10 || i == 11);
    }
}

proof fn lemma_git_words(word: Seq<char>)
    ensures
        one_of(git_reading(), word) <==> (word == "status"@
            || word == "diff"@
            || word == "log"@
            || word == "show"@
            || word == "branch"@),
{
    let all = git_reading();
    assert(all[0]@ == "status"@);
    assert(all[1]@ == "diff"@);
    assert(all[2]@ == "log"@);
    assert(all[3]@ == "show"@);
    assert(all[4]@ == "branch"@);
    if one_of(all, word) {
        let i = choose|i: int| 0 <= i < all.len() && (#[trigger] all[i])@ == word;
        assert(i == 0 || i == 1 || i == 2 || i == 3 || i == 4);
    }
}

proof fn lemma_find_words(word: Seq<char>)
    ensures
        one_of(find_mutating(), word) <==> (word == "-delete"@
            || word == "-exec"@
            || word == "-execdir"@
            || word == "-ok"@
            || word == "-okdir"@
            || word == "-fprint"@
            || word == "-fprintf"@
            || word == "-fls"@),
{
    let all = find_mutating();
    assert(all[0]@ == "-delete"@);
    assert(all[1]@ == "-exec"@);
    assert(all[2]@ == "-execdir"@);
    assert(all[3]@ == "-ok"@);
    assert(all[4]@ == "-okdir"@);
    assert(all[5]@ == "-fprint"@);
    assert(all[6]@ == "-fprintf"@);
    assert(all[7]@ == "-fls"@);
    if one_of(all, word) {
        let i = choose|i: int| 0 <= i < all.len() && (#[trigger] all[i])@ == word;
        assert(i == 0 || i == 1 || i == 2 || i == 3 || i == 4 || i == 5 || i == 6 || i == 7);
    }
}

proof fn lemma_branch_words(word: Seq<char>)
    ensures
        one_of(branch_mutating(), word) <==> (word == "-d"@
            || word == "-D"@
            || word == "-m"@
            || word == "-M"@
            || word == "-c"@
            || word == "-C"@
            || word == "--delete"@
            || word == "--move"@
            || word == "--copy"@
            || word == "--force"@
            || word == "--edit-description"@
            || word == "--set-upstream-to"@
            || word == "--unset-upstream"@),
{
    let all = branch_mutating();
    assert(all[0]@ == "-d"@);
    assert(all[1]@ == "-D"@);
    assert(all[2]@ == "-m"@);
    assert(all[3]@ == "-M"@);
    assert(all[4]@ == "-c"@);
    assert(all[5]@ == "-C"@);
    assert(all[6]@ == "--delete"@);
    assert(all[7]@ == "--move"@);
    assert(all[8]@ == "--copy"@);
    assert(all[9]@ == "--force"@);
    assert(all[10]@ == "--edit-description"@);
    assert(all[11]@ == "--set-upstream-to"@);
    assert(all[12]@ == "--unset-upstream"@);
    if one_of(all, word) {
        let i = choose|i: int| 0 <= i < all.len() && (#[trigger] all[i])@ == word;
        assert(i == 0 || i == 1 || i == 2 || i == 3 || i == 4 || i == 5 || i == 6 || i == 7 || i == 8 || i == 9 || i == 10 || i == 11 || i == 12);
    }
}

/// Unless a rule of the user matches, a segment runs unasked only where it is one of a
/// dozen commands that read, or `git` with one of five subcommands that do.
pub proof fn only_reading_runs_unasked(rules: Seq<RuleView>, argv: Seq<Seq<char>>)
    requires
        forall|i: int| 0 <= i < rules.len() ==> !globs_match((#[trigger] rules[i]).globs, argv),
        segment_verdict(rules, argv) is Auto,
    ensures
        argv.len() > 0,
        argv[0] != "git"@ ==> (argv[0] == "ls"@
            || argv[0] == "pwd"@
            || argv[0] == "rg"@
            || argv[0] == "grep"@
            || argv[0] == "find"@
            || argv[0] == "wc"@
            || argv[0] == "head"@
            || argv[0] == "tail"@
            || argv[0] == "cat"@
            || argv[0] == "file"@
            || argv[0] == "stat"@
            || argv[0] == "which"@),
        argv[0] == "git"@ ==> argv.len() > 1 && (argv[1] == "status"@
            || argv[1] == "diff"@
            || argv[1] == "log"@
            || argv[1] == "show"@
            || argv[1] == "branch"@),
{
    lemma_no_rule(rules, argv);
    if argv.len() > 0 {
        lemma_reading_words(argv[0]);
        lemma_git_is_no_reader();
    }
    if argv.len() > 1 {
        lemma_git_words(argv[1]);
    }
}

proof fn lemma_git_is_no_reader()
    ensures
        !one_of(reading(), "git"@),
        "git"@ != "find"@,
{
    lemma_reading_words("git"@);
    reveal_strlit("git");
    reveal_strlit("ls");
    reveal_strlit("pwd");
    reveal_strlit("rg");
    reveal_strlit("grep");
    reveal_strlit("find");
    reveal_strlit("wc");
    reveal_strlit("head");
    reveal_strlit("tail");
    reveal_strlit("cat");
    reveal_strlit("file");
    reveal_strlit("stat");
    reveal_strlit("which");
    assert("git"@.len() == 3 && "git"@[0] == 'g');
    assert("ls"@.len() == 2 && "rg"@.len() == 2 && "wc"@.len() == 2);
    assert("grep"@.len() == 4 && "find"@.len() == 4 && "head"@.len() == 4 && "tail"@.len() == 4);
    assert("file"@.len() == 4 && "stat"@.len() == 4 && "which"@.len() == 5);
    assert("pwd"@[0] == 'p' && "cat"@[0] == 'c');
}

/// Unless a rule of the user matches, `find` does not run unasked where an option changes
/// files, and `git branch` does not where an option changes branches.
pub proof fn changing_options_do_not_run_unasked(
    rules: Seq<RuleView>,
    argv: Seq<Seq<char>>,
    i: int,
)
    requires
        forall|i: int| 0 <= i < rules.len() ==> !globs_match((#[trigger] rules[i]).globs, argv),
        0 < i < argv.len(),
        (argv[0] == "find"@ && (argv[i] == "-delete"@
            || argv[i] == "-exec"@
            || argv[i] == "-execdir"@
            || argv[i] == "-ok"@
            || argv[i] == "-okdir"@
            || argv[i] == "-fprint"@
            || argv[i] == "-fprintf"@
            || argv[i] == "-fls"@)) || (i > 1 && argv[0] == "git"@ && argv[1] == "branch"@ && (argv[i] == "-d"@
            || argv[i] == "-D"@
            || argv[i] == "-m"@
            || argv[i] == "-M"@
            || argv[i] == "-c"@
            || argv[i] == "-C"@
            || argv[i] == "--delete"@
            || argv[i] == "--move"@
            || argv[i] == "--copy"@
            || argv[i] == "--force"@
            || argv[i] == "--edit-description"@
            || argv[i] == "--set-upstream-to"@
            || argv[i] == "--unset-upstream"@)),
    ensures
        !(segment_verdict(rules, argv) is Auto),
{
    lemma_no_rule(rules, argv);
    lemma_git_is_no_reader();
    lemma_find_words(argv[i]);
    lemma_branch_words(argv[i]);
}

/// A command that only reads runs unasked, unless it is denied outright or a rule of the
/// user matches.
pub proof fn reading_runs_unasked(rules: Seq<RuleView>, argv: Seq<Seq<char>>)
    requires
        forall|i: int| 0 <= i < rules.len() ==> !globs_match((#[trigger] rules[i]).globs, argv),
        !(segment_verdict(rules, argv) is Deny),
        argv.len() > 0,
        (argv[0] == "ls"@
            || argv[0] == "pwd"@
            || argv[0] == "rg"@
            || argv[0] == "grep"@
            || argv[0] == "find"@
            || argv[0] == "wc"@
            || argv[0] == "head"@
            || argv[0] == "tail"@
            || argv[0] == "cat"@
            || argv[0] == "file"@
            || argv[0] == "stat"@
            || argv[0] == "which"@) || (argv[0] == "git"@ && argv.len() > 1 && (argv[1] == "status"@
            || argv[1] == "diff"@
            || argv[1] == "log"@
            || argv[1] == "show"@
            || argv[1] == "branch"@)),
        argv[0] == "find"@ ==> forall|i: int|
            #![trigger argv[i]]
            0 < i < argv.len() ==> !(argv[i] == "-delete"@
                || argv[i] == "-exec"@
                || argv[i] == "-execdir"@
                || argv[i] == "-ok"@
                || argv[i] == "-okdir"@
                || argv[i] == "-fprint"@
                || argv[i] == "-fprintf"@
                || argv[i] == "-fls"@),
        argv[0] == "git"@ && argv[1] == "branch"@ ==> forall|i: int|
            #![trigger argv[i]]
            1 < i < argv.len() ==> !(argv[i] == "-d"@
                || argv[i] == "-D"@
                || argv[i] == "-m"@
                || argv[i] == "-M"@
                || argv[i] == "-c"@
                || argv[i] == "-C"@
                || argv[i] == "--delete"@
                || argv[i] == "--move"@
                || argv[i] == "--copy"@
                || argv[i] == "--force"@
                || argv[i] == "--edit-description"@
                || argv[i] == "--set-upstream-to"@
                || argv[i] == "--unset-upstream"@),
    ensures
        segment_verdict(rules, argv) is Auto,
{
    lemma_no_rule(rules, argv);
    assert forall|i: int| 0 < i < argv.len() && argv[0] == "find"@ implies !one_of(
        find_mutating(),
        #[trigger] argv[i],
    ) by {
        lemma_find_words(argv[i]);
    }
    assert forall|i: int|
        1 < i < argv.len() && argv[0] == "git"@ && argv[1] == "branch"@ implies !one_of(
        branch_mutating(),
        #[trigger] argv[i],
    ) by {
        lemma_branch_words(argv[i]);
    }
    lemma_git_is_no_reader();
    lemma_reading_words(argv[0]);
    if argv.len() > 1 {
        lemma_git_words(argv[1]);
    }
}

proof fn lemma_one_glob(glob: Seq<char>, argv: Seq<Seq<char>>)
    ensures
        globs_match(seq![glob], argv) <==> argv.len() >= 1 && matches_glob(glob, argv[0]),
{
    assert(seq![glob][0] == glob);
}

proof fn lemma_three_globs(
    a: Seq<char>,
    b: Seq<char>,
    c: Seq<char>,
    argv: Seq<Seq<char>>,
)
    ensures
        globs_match(seq![a, b, c], argv) <==> argv.len() >= 3 && matches_glob(a, argv[0])
            && matches_glob(b, argv[1]) && matches_glob(c, argv[2]),
{
    let globs = seq![a, b, c];
    assert(globs[0] == a && globs[1] == b && globs[2] == c);
    if argv.len() >= 3 && matches_glob(a, argv[0]) && matches_glob(b, argv[1]) && matches_glob(
        c,
        argv[2],
    ) {
        assert forall|i: int| 0 <= i < globs.len() implies matches_glob(
            #[trigger] globs[i],
            argv[i],
        ) by {
            assert(i == 0 || i == 1 || i == 2);
        }
    }
}

/// What the globs of the hard denials match.
proof fn lemma_denial_globs(argv: Seq<Seq<char>>)
    ensures
        globs_match(seq!["sudo"@], argv) <==> argv.len() > 0 && argv[0] == "sudo"@,
        globs_match(seq!["mkfs*"@], argv) <==> argv.len() > 0 && text::begins(argv[0], "mkfs"@),
        globs_match(seq!["git"@, "push"@, "--force*"@], argv) <==> argv.len() > 2 && argv[0]
            == "git"@ && argv[1] == "push"@ && text::begins(argv[2], "--force"@),
        globs_match(seq!["git"@, "push"@, "-f*"@], argv) <==> argv.len() > 2 && argv[0] == "git"@
            && argv[1] == "push"@ && text::begins(argv[2], "-f"@),
        globs_match(seq!["chmod"@, "-R"@, "777"@], argv) <==> argv.len() > 2 && argv[0]
            == "chmod"@ && argv[1] == "-R"@ && argv[2] == "777"@,
{
    reveal_strlit("sudo");
    reveal_strlit("mkfs*");
    reveal_strlit("mkfs");
    reveal_strlit("git");
    reveal_strlit("push");
    reveal_strlit("--force*");
    reveal_strlit("--force");
    reveal_strlit("-f*");
    reveal_strlit("-f");
    reveal_strlit("chmod");
    reveal_strlit("-R");
    reveal_strlit("777");
    assert("mkfs*"@ =~= "mkfs"@.push('*'));
    assert("--force*"@ =~= "--force"@.push('*'));
    assert("-f*"@ =~= "-f"@.push('*'));
    lemma_one_glob("sudo"@, argv);
    lemma_one_glob("mkfs*"@, argv);
    lemma_three_globs("git"@, "push"@, "--force*"@, argv);
    lemma_three_globs("git"@, "push"@, "-f*"@, argv);
    lemma_three_globs("chmod"@, "-R"@, "777"@, argv);
    if argv.len() > 0 {
        literal_glob_matches_itself_only("sudo"@, argv[0]);
        literal_glob_matches_itself_only("git"@, argv[0]);
        literal_glob_matches_itself_only("chmod"@, argv[0]);
        starred_glob_matches_every_beginning("mkfs"@, argv[0]);
    }
    if argv.len() > 2 {
        literal_glob_matches_itself_only("push"@, argv[1]);
        literal_glob_matches_itself_only("-R"@, argv[1]);
        literal_glob_matches_itself_only("777"@, argv[2]);
        starred_glob_matches_every_beginning("--force"@, argv[2]);
        starred_glob_matches_every_beginning("-f"@, argv[2]);
    }
}

proof fn lemma_denied_commands_differ()
    ensures
        "sudo"@ != "git"@,
        "sudo"@ != "chmod"@,
        "sudo"@ != "dd"@,
        "sudo"@ != "rm"@,
        "git"@ != "chmod"@,
        "git"@ != "dd"@,
        "git"@ != "rm"@,
        "chmod"@ != "dd"@,
        "chmod"@ != "rm"@,
        "dd"@ != "rm"@,
        "rm"@ != "ls"@,
        !text::begins("sudo"@, "mkfs"@),
        !text::begins("git"@, "mkfs"@),
        !text::begins("chmod"@, "mkfs"@),
        !text::begins("dd"@, "mkfs"@),
        !text::begins("rm"@, "mkfs"@),
{
    reveal_strlit("sudo");
    reveal_strlit("git");
    reveal_strlit("chmod");
    reveal_strlit("dd");
    reveal_strlit("rm");
    reveal_strlit("ls");
    reveal_strlit("mkfs");
    assert("sudo"@.len() == 4 && "git"@.len() == 3 && "chmod"@.len() == 5);
    assert("dd"@.len() == 2 && "rm"@.len() == 2 && "ls"@.len() == 2 && "mkfs"@.len() == 4);
    assert("dd"@[0] == 'd' && "rm"@[0] == 'r' && "ls"@[0] == 'l');
    assert("sudo"@.subrange(0, 4)[0] == 's' && "mkfs"@[0] == 'm');
    assert("chmod"@.subrange(0, 4)[0] == 'c');
}

/// Making a file system is denied, whatever the rules of the user say.
pub proof fn making_file_systems_is_always_denied(rules: Seq<RuleView>, argv: Seq<Seq<char>>)
    requires
        argv.len() > 0,
        text::begins(argv[0], "mkfs"@),
    ensures
        segment_verdict(rules, argv) == VerdictView::Deny("mkfs is not allowed"@),
{
    lemma_denial_globs(argv);
    lemma_denied_commands_differ();
}

/// Pushing by force is denied, whatever the rules of the user say.
pub proof fn forced_push_is_always_denied(rules: Seq<RuleView>, argv: Seq<Seq<char>>)
    requires
        argv.len() > 2,
        argv[0] == "git"@,
        argv[1] == "push"@,
        text::begins(argv[2], "--force"@) || text::begins(argv[2], "-f"@),
    ensures
        segment_verdict(rules, argv) == VerdictView::Deny("force push is not allowed"@),
{
    lemma_denial_globs(argv);
    lemma_denied_commands_differ();
}

/// Opening a whole tree to everyone is denied, whatever the rules of the user say.
pub proof fn opening_a_tree_is_always_denied(rules: Seq<RuleView>, argv: Seq<Seq<char>>)
    requires
        argv.len() > 2,
        argv[0] == "chmod"@,
        argv[1] == "-R"@,
        argv[2] == "777"@,
    ensures
        segment_verdict(rules, argv) == VerdictView::Deny("chmod -R 777 is not allowed"@),
{
    lemma_denial_globs(argv);
    lemma_denied_commands_differ();
}

/// Writing to a device is denied, whatever the rules of the user say.
pub proof fn writing_to_devices_is_always_denied(
    rules: Seq<RuleView>,
    argv: Seq<Seq<char>>,
    i: int,
)
    requires
        0 <= i < argv.len(),
        argv[0] == "dd"@,
        text::begins(argv[i], "of=/dev/"@),
    ensures
        segment_verdict(rules, argv) == VerdictView::Deny("dd to a block device is not allowed"@),
{
    lemma_denial_globs(argv);
    lemma_denied_commands_differ();
}

/// Removing by one option that holds both letters, or by two options of which the first
/// asks for recursion and the second for force, in either order, is denied, whatever the
/// rules of the user say.
pub proof fn forced_removal_is_denied_by_its_letters(
    rules: Seq<RuleView>,
    argv: Seq<Seq<char>>,
    i: int,
    j: int,
)
    requires
        0 < i < argv.len(),
        0 < j < argv.len(),
        argv[0] == "rm"@,
        (i == j && text::begins(argv[i], "-"@) && text::lowercase(argv[i]).contains('r')
            && text::lowercase(argv[i]).contains('f')) || ({
            &&& forall|k: int| 0 <= k <= i || 0 <= k <= j ==> #[trigger] argv[k] != "--"@
            &&& argv[i] == "--recursive"@ || (text::begins(argv[i], "-"@) && !text::begins(
                argv[i],
                "--"@,
            ) && (argv[i].contains('r') || argv[i].contains('R')))
            &&& argv[j] == "--force"@ || (text::begins(argv[j], "-"@) && !text::begins(
                argv[j],
                "--"@,
            ) && argv[j].contains('f'))
        }),
    ensures
        segment_verdict(rules, argv) == VerdictView::Deny("rm -rf is not allowed"@),
{
    lemma_denial_globs(argv);
    lemma_denied_commands_differ();
    if i == j && text::begins(argv[i], "-"@) && text::lowercase(argv[i]).contains('r')
        && text::lowercase(argv[i]).contains('f') {
        assert(recursive_force(argv[i]));
    } else {
        assert(asks_recursion(argv[i]) && among_options(argv, i));
        assert(asks_force(argv[j]) && among_options(argv, j));
    }
    assert(removes_by_force(argv));
}

/// Files with secrets are out of reach, whatever the rules of the user say: `.env` files
/// for every command but `ls`, and what lies under `.ssh` for every command.
pub proof fn secret_files_are_always_denied(rules: Seq<RuleView>, argv: Seq<Seq<char>>, i: int)
    requires
        0 <= i < argv.len(),
        (argv[0] != "ls"@ && text::ends(argv[i], ".env"@)) || text::occurs(argv[i], "/.ssh/"@)
            || text::ends(argv[i], "/.ssh"@),
    ensures
        segment_verdict(rules, argv) is Deny,
{
}

/// Nothing else is denied outright: without rules of the user, a segment that is denied
/// runs one of six commands in a way that is barred, or names the minting script or a file
/// with secrets.
pub proof fn nothing_else_is_denied(argv: Seq<Seq<char>>)
    requires
        segment_verdict(Seq::empty(), argv) is Deny,
    ensures
        argv.len() > 0,
        ({
            ||| argv[0] == "sudo"@
            ||| text::begins(argv[0], "mkfs"@)
            ||| argv.len() > 2 && argv[0] == "git"@ && argv[1] == "push"@ && (text::begins(
                argv[2],
                "--force"@,
            ) || text::begins(argv[2], "-f"@))
            ||| argv.len() > 2 && argv[0] == "chmod"@ && argv[1] == "-R"@ && argv[2] == "777"@
            ||| argv[0] == "dd"@ && exists|i: int|
                0 <= i < argv.len() && text::begins(#[trigger] argv[i], "of=/dev/"@)
            ||| argv[0] == "rm"@ && exists|i: int|
                #![trigger argv[i]]
                0 <= i < argv.len() && text::begins(argv[i], "-"@) && (argv[i].contains('f')
                    || argv[i] == "--force"@ || text::lowercase(argv[i]).contains('f'))
            ||| exists|i: int|
                0 <= i < argv.len() && text::occurs(
                    #[trigger] argv[i],
                    "forgeloop/harness/mint.sh"@,
                )
            ||| argv[0] != "ls"@ && exists|i: int|
                0 <= i < argv.len() && text::ends(#[trigger] argv[i], ".env"@)
            ||| exists|i: int|
                0 <= i < argv.len() && (text::occurs(#[trigger] argv[i], "/.ssh/"@) || text::ends(
                    argv[i],
                    "/.ssh"@,
                ))
        }),
{
    lemma_denial_globs(argv);
    if argv.len() > 0 && removes_by_force(argv) {
        lemma_force_is_an_option(argv);
    }
}

proof fn lemma_force_is_an_option(argv: Seq<Seq<char>>)
    requires
        removes_by_force(argv),
    ensures
        exists|i: int|
            #![trigger argv[i]]
            0 <= i < argv.len() && text::begins(argv[i], "-"@) && (argv[i].contains('f') || argv[i]
                == "--force"@ || text::lowercase(argv[i]).contains('f')),
{
    reveal_strlit("-");
    reveal_strlit("--force");
    assert("--force"@.subrange(0, 1) =~= "-"@);
    if exists|i: int| 0 <= i < argv.len() && recursive_force(#[trigger] argv[i]) {
        let i = choose|i: int| 0 <= i < argv.len() && recursive_force(#[trigger] argv[i]);
        assert(text::begins(argv[i], "-"@));
    } else {
        let j = choose|j: int|
            0 <= j < argv.len() && asks_force(#[trigger] argv[j]) && among_options(argv, j);
        assert(text::begins(argv[j], "-"@));
    }
}

/// `rm` that asks for no recursion, or for no force, is not denied for what it removes:
/// long options do not count by their letters.
pub proof fn plain_removal_is_not_denied(argv: Seq<Seq<char>>)
    requires
        argv.len() > 0,
        argv[0] == "rm"@,
        forall|i: int|
            #![trigger argv[i]]
            0 <= i < argv.len() ==> !(text::begins(argv[i], "-"@) && text::lowercase(
                argv[i],
            ).contains('r') && text::lowercase(argv[i]).contains('f')),
        (forall|i: int|
            #![trigger argv[i]]
            0 <= i < argv.len() && text::begins(argv[i], "-"@) ==> argv[i] != "--recursive"@ && (
            text::begins(argv[i], "--"@) || (!argv[i].contains('r') && !argv[i].contains('R'))))
            || (forall|i: int|
            #![trigger argv[i]]
            0 <= i < argv.len() && text::begins(argv[i], "-"@) ==> argv[i] != "--force"@ && (
            text::begins(argv[i], "--"@) || !argv[i].contains('f'))),
        forall|i: int|
            #![trigger argv[i]]
            0 <= i < argv.len() ==> !text::occurs(argv[i], "forgeloop/harness/mint.sh"@)
                && !text::ends(argv[i], ".env"@) && !text::occurs(argv[i], "/.ssh/"@)
                && !text::ends(argv[i], "/.ssh"@),
    ensures
        segment_verdict(Seq::empty(), argv) == VerdictView::Ask,
{
    lemma_denial_globs(argv);
    lemma_denied_commands_differ();
    lemma_reading_words("rm"@);
    reveal_strlit("-");
    reveal_strlit("--recursive");
    reveal_strlit("--force");
    assert("--recursive"@.subrange(0, 1) =~= "-"@);
    assert("--force"@.subrange(0, 1) =~= "-"@);
    reveal_strlit("rm");
    reveal_strlit("ls");
    reveal_strlit("pwd");
    reveal_strlit("rg");
    reveal_strlit("grep");
    reveal_strlit("find");
    reveal_strlit("wc");
    reveal_strlit("head");
    reveal_strlit("tail");
    reveal_strlit("cat");
    reveal_strlit("file");
    reveal_strlit("stat");
    reveal_strlit("which");
    assert("rm"@.len() == 2 && "rm"@[1] == 'm' && "ls"@[1] == 's' && "rg"@[1] == 'g');
    assert("wc"@[1] == 'c');
    assert("pwd"@.len() == 3 && "grep"@.len() == 4 && "find"@.len() == 4 && "head"@.len() == 4);
    assert("tail"@.len() == 4 && "cat"@.len() == 3 && "file"@.len() == 4 && "stat"@.len() == 4);
    assert("which"@.len() == 5);
    assert(!removes_by_force(argv));
}

/// A segment that cannot be read as words, or that holds no word, is denied.
pub proof fn unreadable_segments_are_denied(rules: Seq<RuleView>, argv: Seq<Seq<char>>)
    ensures
        split_verdict(rules, None) == VerdictView::Deny("unparseable command"@),
        split_verdict(rules, Some(Seq::empty())) == VerdictView::Deny("empty command segment"@),
        argv.len() > 0 ==> split_verdict(rules, Some(argv)) == segment_verdict(rules, argv),
{
}

/// A back quote anywhere, or `$(` anywhere, denies the command line; where neither stands,
/// a command line is denied only for a segment that is.
pub proof fn substitution_is_told_by_its_signs(rules: Seq<RuleView>, command: Seq<char>)
    ensures
        command.contains('`') || text::occurs(command, "$("@) ==> command_verdict(rules, command)
            == VerdictView::Deny("command substitution"@),
        !command.contains('`') && !text::occurs(command, "$("@) && command_verdict(
            rules,
            command,
        ) is Deny ==> exists|i: int|
            0 <= i < segments(command).len() && split_verdict(
                rules,
                shell_split(#[trigger] segments(command)[i]),
            ) is Deny,
{
    let verdicts = split_verdicts(rules, split_segments(command));
    strictest_verdict_wins(verdicts);
    if !command.contains('`') && !text::occurs(command, "$("@) && command_verdict(
        rules,
        command,
    ) is Deny {
        let i = choose|i: int| 0 <= i < verdicts.len() && #[trigger] verdicts[i] is Deny;
        assert(split_verdict(rules, shell_split(segments(command)[i])) is Deny);
    }
}

/// A command line of one segment gets the verdict of its words.
pub proof fn single_segment_gets_its_own_verdict(rules: Seq<RuleView>, command: Seq<char>)
    requires
        !command.contains('`'),
        !text::occurs(command, "$("@),
        segments(command).len() == 1,
    ensures
        command_verdict(rules, command) == split_verdict(rules, shell_split(segments(command)[0])),
{
    let verdicts = split_verdicts(rules, split_segments(command));
    assert(verdicts.len() == 1);
    assert(strictest(verdicts.drop_first()) is Auto);
    assert(verdicts[0] == split_verdict(rules, shell_split(segments(command)[0])));
    assert(strictest(verdicts) == verdicts[0]);
}

/// The stricter of two verdicts is one of them, is a denial where one is, and runs only
/// where both do.
pub proof fn stricter_is_the_stricter(a: VerdictView, b: VerdictView)
    ensures
        stricter_of(a, b) == a || stricter_of(a, b) == b,
        stricter_of(a, b) is Deny <==> a is Deny || b is Deny,
        stricter_of(a, b) is Auto <==> a is Auto && b is Auto,
        a is Deny ==> stricter_of(a, b) == a,
{
}

/// Characters that are no quote and no part of an operator.
pub open spec fn plain_text(text: Seq<char>) -> bool {
    forall|i: int|
        #![trigger text[i]]
        0 <= i < text.len() ==> text[i] != ';' && text[i] != '|' && text[i] != '&' && text[i]
            != '\'' && text[i] != '"'
}

/// Plain text stays in its segment.
pub proof fn plain_text_is_not_cut(text: Seq<char>, rest: Seq<char>, current: Seq<char>)
    requires
        plain_text(text),
    ensures
        cut(text + rest, None, current) == cut(rest, None, current + text),
    decreases text.len(),
{
    let all = text + rest;
    if text.len() == 0 {
        assert(all =~= rest);
        assert(current + text =~= current);
    } else {
        let more = text.drop_first();
        assert(all[0] == text[0]);
        assert forall|i: int| 0 <= i < more.len() implies more[i] != ';' && more[i] != '|'
            && more[i] != '&' && more[i] != '\'' && more[i] != '"' by {
            assert(more[i] == text[i + 1]);
        }
        assert(all.drop_first() =~= more + rest);
        plain_text_is_not_cut(more, rest, current.push(text[0]));
        assert(current.push(text[0]) + more =~= current + text);
    }
}

/// Each of the operators `&&`, `||`, `;` and `|` ends a segment and starts another; a `|`
/// counts alone where no other follows it.
pub proof fn operators_end_segments(text: Seq<char>, operator: Seq<char>, rest: Seq<char>)
    requires
        plain_text(text),
        operator == seq!['&', '&'] || operator == seq!['|', '|'] || operator == seq![';']
            || operator == seq!['|'],
        operator == seq!['|'] ==> rest.len() == 0 || rest[0] != '|',
    ensures
        segments(text + operator + rest) == seq![text] + segments(rest),
{
    let none = Seq::<char>::empty();
    let tail = operator + rest;
    assert(text + operator + rest =~= text + tail);
    plain_text_is_not_cut(text, tail, none);
    assert(none + text =~= text);
    assert(seq!['&', '&'].len() == 2 && seq!['|', '|'].len() == 2);
    assert(tail[0] == operator[0]);
    if operator.len() == 2 {
        assert(tail[1] == operator[1]);
    } else if rest.len() > 0 {
        assert(tail[1] == rest[0]);
    }
    assert(operator_len(tail) == operator.len());
    assert(tail.skip(operator.len() as int) =~= rest);
}

/// A command line of plain text is one segment.
pub proof fn plain_text_is_one_segment(text: Seq<char>)
    requires
        plain_text(text),
    ensures
        segments(text) == seq![text],
{
    let none = Seq::<char>::empty();
    plain_text_is_not_cut(text, none, none);
    assert(text + none =~= text);
    assert(none + text =~= text);
}

/// A single `&` is no operator: it stays in its segment.
pub proof fn single_ampersand_is_literal(rest: Seq<char>, current: Seq<char>)
    requires
        rest.len() == 0 || rest[0] != '&',
    ensures
        cut(seq!['&'] + rest, None, current) == cut(rest, None, current.push('&')),
{
    let all = seq!['&'] + rest;
    assert(all.drop_first() =~= rest);
    assert(all[0] == '&');
    if rest.len() > 0 {
        assert(all[1] == rest[0]);
    }
}

/// What stands in quotes, single or double, goes into the segment with its quotes.
pub proof fn quoted_text_is_not_cut(
    body: Seq<char>,
    quote: char,
    rest: Seq<char>,
    current: Seq<char>,
)
    requires
        quote == '\'' || quote == '"',
        !body.contains(quote),
    ensures
        cut(seq![quote] + body + seq![quote] + rest, None, current) == cut(
            rest,
            None,
            current + seq![quote] + body + seq![quote],
        ),
{
    let all = seq![quote] + body + seq![quote] + rest;
    assert(all[0] == quote);
    assert(all.drop_first() =~= body.push(quote) + rest);
    quoted_operators_are_literal(body, quote, rest, current.push(quote));
    assert(current.push(quote) + body.push(quote) =~= current + seq![quote] + body + seq![quote]);
}

/// An operator outside quotes ends the segment, whatever it holds already.
pub proof fn operators_end_any_segment(
    operator: Seq<char>,
    rest: Seq<char>,
    current: Seq<char>,
)
    requires
        operator == seq!['&', '&'] || operator == seq!['|', '|'] || operator == seq![';']
            || operator == seq!['|'],
        operator == seq!['|'] ==> rest.len() == 0 || rest[0] != '|',
    ensures
        cut(operator + rest, None, current) == seq![current] + segments(rest),
{
    let tail = operator + rest;
    assert(seq!['&', '&'].len() == 2 && seq!['|', '|'].len() == 2);
    assert(tail[0] == operator[0]);
    if operator.len() == 2 {
        assert(tail[1] == operator[1]);
    } else if rest.len() > 0 {
        assert(tail[1] == rest[0]);
    }
    assert(operator_len(tail) == operator.len());
    assert(tail.skip(operator.len() as int) =~= rest);
}

/// What stands behind a quote that is never closed stays in one segment.
pub proof fn open_quotes_run_to_the_end(body: Seq<char>, quote: char, current: Seq<char>)
    requires
        !body.contains(quote),
    ensures
        cut(body, Some(quote), current) == seq![current + body],
    decreases body.len(),
{
    if body.len() == 0 {
        assert(current + body =~= current);
    } else {
        assert(body.contains(body[0]));
        let rest = body.drop_first();
        assert forall|c: char| rest.contains(c) implies body.contains(c) by {
            let k = choose|k: int| 0 <= k < rest.len() && rest[k] == c;
            assert(body[k + 1] == c);
        }
        open_quotes_run_to_the_end(rest, quote, current.push(body[0]));
        assert(current.push(body[0]) + rest =~= current + body);
    }
}

/// The words of several segments are judged segment by segment, each by its own words.
pub proof fn segments_are_judged_by_their_words(
    rules: Seq<RuleView>,
    split: Seq<Option<Vec<String>>>,
    i: int,
)
    requires
        0 <= i < split.len(),
    ensures
        split_verdicts(rules, splits(split)).len() == split.len(),
        split[i] is None ==> split_verdicts(rules, splits(split))[i] is Deny,
        split[i] is Some && split[i]->0@.len() > 0 ==> split_verdicts(rules, splits(split))[i]
            == segment_verdict(rules, text::texts(split[i]->0@)),
{
}

} // verus!
