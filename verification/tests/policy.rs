use composer::policy::{
    glob_match, hard_deny, is_readonly, split_raw_segments, stricter, Policy, Rule, RuleAction,
    Verdict,
};

fn argv(words: &[&str]) -> Vec<String> {
    words.iter().map(|w| w.to_string()).collect()
}

fn rule(globs: &[&str], action: RuleAction) -> Rule {
    Rule { globs: argv(globs), action }
}

#[test]
fn hard_denies_are_not_overridable() {
    let permissive = Policy::new(vec![rule(&["*"], RuleAction::Auto)]);
    for cmd in [
        "rm -rf /tmp/x",
        "rm -fr .",
        "rm -Rf /",
        "sudo apt install x",
        "mkfs.ext4 /dev/sda1",
        "dd if=/dev/zero of=/dev/sda",
        "git push --force origin main",
        "git push -f",
        "chmod -R 777 .",
        "bash ~/Code/forgeloop/harness/mint.sh --status minted",
        "cat ~/.aws/creds.env",
        "cp secrets.env /tmp/",
        "echo `whoami`",
        "echo $(rm -rf /)",
        "cat ~/.ssh/id_ed25519",
    ] {
        assert!(matches!(permissive.check(cmd), Verdict::Deny(_)), "not denied: {cmd}");
    }
}

#[test]
fn read_only_is_auto_and_default_is_ask() {
    let p = Policy::default();
    assert_eq!(p.check("ls -la"), Verdict::Auto);
    assert_eq!(p.check("rg TODO src"), Verdict::Auto);
    assert_eq!(p.check("git status"), Verdict::Auto);
    assert_eq!(p.check("cargo build"), Verdict::Ask);
    assert_eq!(p.check("echo hello && cargo test"), Verdict::Ask);
    assert!(matches!(p.check("ls; rm -rf /"), Verdict::Deny(_)));
}

#[test]
fn user_rules_apply_in_order_between_layers() {
    let p = Policy::new(vec![
        rule(&["cargo", "build*"], RuleAction::Auto),
        rule(&["npm"], RuleAction::Deny),
    ]);
    assert_eq!(p.check("cargo build --release"), Verdict::Auto);
    assert!(matches!(p.check("npm install"), Verdict::Deny(_)));
    assert_eq!(p.check("cargo publish"), Verdict::Ask);
}

#[test]
fn readonly_commands_with_mutating_args_are_not_auto() {
    let p = Policy::default();
    for cmd in [
        "find . -name canary.txt -delete",
        "find /tmp -exec rm",
        "find . -okdir chmod 600",
        "git branch -D main",
        "git branch -M old new",
        "git branch --delete feature",
    ] {
        assert_eq!(p.check(cmd), Verdict::Ask, "must not auto-run: {cmd}");
    }
    assert_eq!(p.check("find . -name canary.txt"), Verdict::Auto);
    assert_eq!(p.check("git branch --list"), Verdict::Auto);
    assert_eq!(p.check("git branch"), Verdict::Auto);
}

#[test]
fn glob_match_basics() {
    assert!(glob_match("--force*", "--force-with-lease"));
    assert!(glob_match("mkfs*", "mkfs.ext4"));
    assert!(glob_match("*", "anything"));
    assert!(!glob_match("git", "gitx"));
}

#[test]
fn question_mark_is_one_character() {
    assert!(glob_match("a?c", "abc"));
    assert!(glob_match("a?c", "aéc"));
    assert!(!glob_match("a?c", "ac"));
    assert!(!glob_match("?", ""));
    assert!(glob_match("*?", "x"));
    assert!(glob_match("**", ""));
    assert!(glob_match("a*b*c", "axxbyyc"));
    assert!(!glob_match("a*b*c", "axxbyy"));
}

#[test]
fn quoted_operators_do_not_cut() {
    assert_eq!(split_raw_segments("a && b || c; d | e"), argv(&["a ", " b ", " c", " d ", " e"]));
    assert_eq!(split_raw_segments("echo 'a && b' \"c; d\""), argv(&["echo 'a && b' \"c; d\""]));
}

#[test]
fn words_are_split_as_a_shell_splits_them() {
    let p = Policy::new(vec![rule(&["cargo", "build it"], RuleAction::Auto)]);
    assert_eq!(p.check("cargo 'build it'"), Verdict::Auto);
    assert_eq!(p.check("cargo build it"), Verdict::Ask);
    assert_eq!(p.check("echo 'unfinished"), Verdict::Deny("unparseable command".to_string()));
}

#[test]
fn substitution_is_denied_by_name() {
    let p = Policy::default();
    assert_eq!(p.check("echo `whoami`"), Verdict::Deny("command substitution".to_string()));
    assert_eq!(p.check("echo $(whoami)"), Verdict::Deny("command substitution".to_string()));
}

#[test]
fn first_matching_rule_is_the_one() {
    let p = Policy::new(vec![
        rule(&["make"], RuleAction::Ask),
        rule(&["make", "all"], RuleAction::Auto),
    ]);
    assert_eq!(p.check("make all"), Verdict::Ask);
    let q = Policy::new(vec![
        rule(&["make", "all"], RuleAction::Auto),
        rule(&["make"], RuleAction::Deny),
    ]);
    assert_eq!(q.check("make all"), Verdict::Auto);
    assert!(matches!(q.check("make clean"), Verdict::Deny(_)));
}

#[test]
fn strictest_segment_decides() {
    let p = Policy::default();
    assert_eq!(p.check("ls && ls"), Verdict::Auto);
    assert_eq!(p.check("ls && make"), Verdict::Ask);
    assert!(matches!(p.check("ls && make && sudo ls"), Verdict::Deny(_)));
    assert_eq!(stricter(&Verdict::Auto, &Verdict::Ask), Verdict::Ask);
    assert_eq!(stricter(&Verdict::Ask, &Verdict::Auto), Verdict::Ask);
    let deny = Verdict::Deny("x".to_string());
    assert_eq!(stricter(&deny, &Verdict::Ask), Verdict::Deny("x".to_string()));
}

#[test]
fn layers_answer_on_their_own() {
    assert!(hard_deny(&argv(&["rm", "-rf", "x"])).is_some());
    assert!(hard_deny(&argv(&["rm", "x"])).is_none());
    for spread in [
        &["rm", "-r", "-f", "x"][..],
        &["rm", "-f", "x", "-R"],
        &["rm", "--recursive", "--force", "x"],
    ] {
        assert_eq!(hard_deny(&argv(spread)).as_deref(), Some("rm -rf is not allowed"));
    }
    for harmless in [
        &["rm", "-f", "--verbose", "notes.txt"][..],
        &["rm", "-f", "--preserve-root", "x"],
        &["rm", "-r", "--one-file-system", "x"],
        &["rm", "-r", "--", "-f"],
        &["rm", "-", "r", "f"],
        &["ls", "-r", "-f"],
    ] {
        assert!(hard_deny(&argv(harmless)).is_none());
    }
    assert!(hard_deny(&argv(&["rm", "--force", "x"])).is_some());
    assert!(hard_deny(&argv(&["rm", "--", "-rf"])).is_some());
    assert!(hard_deny(&argv(&["rm", "-r", "x"])).is_none());
    assert!(hard_deny(&argv(&["rm", "-f", "x"])).is_none());
    let rules = vec![Rule { globs: vec!["rm".into()], action: RuleAction::Auto }];
    assert!(matches!(Policy::new(rules).check("rm -r -f x"), Verdict::Deny(_)));
    assert!(is_readonly(&argv(&["ls"])));
    assert!(!is_readonly(&argv(&["make"])));
}
