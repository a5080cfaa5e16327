use composer::cli::{parse, program_name, session_usage, usage, Invocation};

fn args(words: &[&str]) -> Vec<String> {
    words.iter().map(|w| w.to_string()).collect()
}

#[test]
fn subcommands_are_told_apart() {
    assert_eq!(parse(&args(&["composerd"])), Invocation::Serve);
    assert_eq!(parse(&args(&[])), Invocation::Serve);
    assert_eq!(parse(&args(&["composerd", "serve"])), Invocation::Serve);
    assert_eq!(parse(&args(&["composerd", "sessions"])), Invocation::Sessions);
    assert_eq!(
        parse(&args(&["composerd", "ledger", "S1"])),
        Invocation::Ledger { id: "S1".into() }
    );
    assert_eq!(
        parse(&args(&["composerd", "checkpoints", "S1"])),
        Invocation::Checkpoints { id: "S1".into() }
    );
    assert_eq!(
        parse(&args(&["composerd", "ledger"])),
        Invocation::NoSession { subcommand: "ledger".into() }
    );
    assert_eq!(
        parse(&args(&["composerd", "fly"])),
        Invocation::Unknown { subcommand: "fly".into() }
    );
}

#[test]
fn usage_names_the_program() {
    assert_eq!(program_name(&args(&["cd"])), "cd");
    assert_eq!(program_name(&args(&[])), "composerd");
    assert_eq!(session_usage("cd", "ledger"), "usage: cd ledger <session-id>");
    assert_eq!(usage("cd"), "usage: cd [serve|sessions|ledger <id>|checkpoints <id>]");
}
