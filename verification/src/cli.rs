//! The command line of the daemon.

use crate::text::{self, same};
use vstd::prelude::*;
use vstd::string::*;

verus! {

/// What the daemon is asked to do.
#[derive(Debug, PartialEq)]
pub enum Invocation {
    Serve,
    Sessions,
    Ledger { id: String },
    Checkpoints { id: String },
    /// The subcommand needs a session, and none is named.
    NoSession { subcommand: String },
    Unknown { subcommand: String },
}

/// What an invocation says.
pub ghost enum InvocationView {
    Serve,
    Sessions,
    Ledger { id: Seq<char> },
    Checkpoints { id: Seq<char> },
    NoSession { subcommand: Seq<char> },
    Unknown { subcommand: Seq<char> },
}

impl View for Invocation {
    type V = InvocationView;

    open spec fn view(&self) -> InvocationView {
        match self {
            Invocation::Serve => InvocationView::Serve,
            Invocation::Sessions => InvocationView::Sessions,
            Invocation::Ledger { id } => InvocationView::Ledger { id: id@ },
            Invocation::Checkpoints { id } => InvocationView::Checkpoints { id: id@ },
            Invocation::NoSession { subcommand } => InvocationView::NoSession {
                subcommand: subcommand@,
            },
            Invocation::Unknown { subcommand } => InvocationView::Unknown {
                subcommand: subcommand@,
            },
        }
    }
}

/// What the arguments ask for, the program's name first. Without a subcommand the daemon
/// serves.
pub open spec fn asked(args: Seq<Seq<char>>) -> InvocationView {
    if args.len() < 2 {
        InvocationView::Serve
    } else {
        let sub = args[1];
        if sub == "sessions"@ {
            InvocationView::Sessions
        } else if sub == "ledger"@ || sub == "checkpoints"@ {
            if args.len() < 3 {
                InvocationView::NoSession { subcommand: sub }
            } else if sub == "ledger"@ {
                InvocationView::Ledger { id: args[2] }
            } else {
                InvocationView::Checkpoints { id: args[2] }
            }
        } else if sub == "serve"@ {
            InvocationView::Serve
        } else {
            InvocationView::Unknown { subcommand: sub }
        }
    }
}

/// What the arguments ask for, the program's name first.
pub fn parse(args: &Vec<String>) -> (r: Invocation)
    ensures
        r@ == asked(text::texts(args@)),
{
    assert(forall|i: int|
        0 <= i < args@.len() ==> (#[trigger] text::texts(args@)[i]) == args@[i]@);
    if args.len() < 2 {
        return Invocation::Serve;
    }
    let sub = args[1].as_str();
    if same(sub, "sessions") {
        Invocation::Sessions
    } else if same(sub, "ledger") || same(sub, "checkpoints") {
        if args.len() < 3 {
            return Invocation::NoSession { subcommand: args[1].clone() };
        }
        if same(sub, "ledger") {
            Invocation::Ledger { id: args[2].clone() }
        } else {
            Invocation::Checkpoints { id: args[2].clone() }
        }
    } else if same(sub, "serve") {
        Invocation::Serve
    } else {
        Invocation::Unknown { subcommand: args[1].clone() }
    }
}

/// The name that the program goes by in what it prints.
pub open spec fn program(args: Seq<Seq<char>>) -> Seq<char> {
    if args.len() > 0 {
        args[0]
    } else {
        "composerd"@
    }
}

/// The name that the program goes by in what it prints.
pub fn program_name(args: &Vec<String>) -> (r: String)
    ensures
        r@ == program(text::texts(args@)),
{
    if args.len() > 0 {
        assert(text::texts(args@)[0] == args@[0]@);
        args[0].clone()
    } else {
        "composerd".to_owned()
    }
}

/// How a subcommand that needs a session is used.
pub fn session_usage(program: &str, subcommand: &str) -> (r: String)
    ensures
        r@ == "usage: "@ + program@ + " "@ + subcommand@ + " <session-id>"@,
{
    let mut out = "usage: ".to_owned();
    out.append(program);
    out.append(" ");
    out.append(subcommand);
    out.append(" <session-id>");
    out
}

/// How the program is used.
pub fn usage(program: &str) -> (r: String)
    ensures
        r@ == "usage: "@ + program@ + " [serve|sessions|ledger <id>|checkpoints <id>]"@,
{
    let mut out = "usage: ".to_owned();
    out.append(program);
    out.append(" [serve|sessions|ledger <id>|checkpoints <id>]");
    out
}

// ---------------------------------------------------------------------------
// Laws
// ---------------------------------------------------------------------------

proof fn lemma_subcommands_differ()
    ensures
        "sessions"@ != "ledger"@,
        "sessions"@ != "checkpoints"@,
        "sessions"@ != "serve"@,
        "ledger"@ != "checkpoints"@,
        "ledger"@ != "serve"@,
        "checkpoints"@ != "serve"@,
{
    reveal_strlit("sessions");
    reveal_strlit("ledger");
    reveal_strlit("checkpoints");
    reveal_strlit("serve");
    assert("sessions"@.len() == 8);
    assert("ledger"@.len() == 6);
    assert("checkpoints"@.len() == 11);
    assert("serve"@.len() == 5);
}

/// Each subcommand does what it is called, on the session that is named behind it.
pub proof fn subcommands_do_what_they_are_called(
    program: Seq<char>,
    id: Seq<char>,
    more: Seq<Seq<char>>,
)
    ensures
        asked(seq![program]) == InvocationView::Serve,
        asked(Seq::empty()) == InvocationView::Serve,
        asked(seq![program, "serve"@] + more) == InvocationView::Serve,
        asked(seq![program, "sessions"@] + more) == InvocationView::Sessions,
        asked(seq![program, "ledger"@, id] + more) == (InvocationView::Ledger { id }),
        asked(seq![program, "checkpoints"@, id] + more) == (InvocationView::Checkpoints { id }),
        asked(seq![program, "ledger"@]) == (InvocationView::NoSession { subcommand: "ledger"@ }),
        asked(seq![program, "checkpoints"@]) == (InvocationView::NoSession {
            subcommand: "checkpoints"@,
        }),
{
    lemma_subcommands_differ();
    assert((seq![program, "serve"@] + more)[1] == "serve"@);
    assert((seq![program, "sessions"@] + more)[1] == "sessions"@);
    let ledger = seq![program, "ledger"@, id] + more;
    let checkpoints = seq![program, "checkpoints"@, id] + more;
    assert(ledger[1] == "ledger"@ && ledger[2] == id);
    assert(checkpoints[1] == "checkpoints"@ && checkpoints[2] == id);
    assert(seq![program, "ledger"@][1] == "ledger"@);
    assert(seq![program, "checkpoints"@][1] == "checkpoints"@);
}

/// Any other subcommand is unknown, and named in what is told of it.
pub proof fn other_subcommands_are_unknown(args: Seq<Seq<char>>)
    requires
        args.len() > 1,
        args[1] != "serve"@,
        args[1] != "sessions"@,
        args[1] != "ledger"@,
        args[1] != "checkpoints"@,
    ensures
        asked(args) == (InvocationView::Unknown { subcommand: args[1] }),
{
}

/// The program goes by the name that it was called by.
pub proof fn program_goes_by_its_name(name: Seq<char>, more: Seq<Seq<char>>)
    ensures
        program(seq![name] + more) == name,
        program(Seq::empty()) == "composerd"@,
{
    assert((seq![name] + more)[0] == name);
}

} // verus!
