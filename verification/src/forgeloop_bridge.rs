//! Journal gates: which target may be run, which journal its output points to, and the
//! verdict that the journal records. A verdict is only ever copied, never made up.

use crate::config;
use crate::fs_tools::TRUNCATED;
use crate::jail::{self, join};
use crate::json::{self, parse_json, Json, Tree};
use crate::terminal::{self, scrubs_name};
use crate::text::{
    self, byte_len, chars_of, cut_bytes, finishes, is_white, lines_of, stands_at, string_between,
    trim,
};
use vstd::prelude::*;
use vstd::string::*;
use vstd::utf8::*;

verus! {

/// A verdict that a journal records.
#[derive(Debug, PartialEq)]
pub struct GateVerdict {
    pub decision: String,
    pub intent: String,
    pub journal_path: String,
}

/// How a gate ended.
#[derive(Debug, PartialEq)]
pub struct GateOutcome {
    /// There only where a gate printed journal evidence and the journal has a line with
    /// a decision.
    pub verdict: Option<GateVerdict>,
    pub exit_code: i32,
    /// Standard output and standard error, cut at the cap.
    pub output: String,
}

/// What a verdict holds.
pub ghost struct GateVerdictView {
    pub decision: Seq<char>,
    pub intent: Seq<char>,
    pub journal_path: Seq<char>,
}

impl View for GateVerdict {
    type V = GateVerdictView;

    open spec fn view(&self) -> GateVerdictView {
        GateVerdictView {
            decision: self.decision@,
            intent: self.intent@,
            journal_path: self.journal_path@,
        }
    }
}

// ---------------------------------------------------------------------------
// Targets
// ---------------------------------------------------------------------------

/// A character of a target.
pub open spec fn target_char(c: char) -> bool {
    'a' <= c <= 'z' || '0' <= c <= '9' || c == '-'
}

/// A target that may be run: small letters, digits and dashes, no dash at the front, and
/// something at all.
pub open spec fn fit_target(target: Seq<char>) -> bool {
    &&& target.len() > 0
    &&& forall|i: int| 0 <= i < target.len() ==> target_char(#[trigger] target[i])
    &&& target[0] != '-'
}

/// Whether a target may be run.
pub fn valid_target(target: &str) -> (r: bool)
    ensures
        r == fit_target(target@),
{
    let chars = chars_of(target);
    if chars.len() == 0 || chars[0] == '-' {
        return false;
    }
    let mut i: usize = 0;
    while i < chars.len()
        invariant
            i <= chars@.len(),
            chars@ == target@,
            forall|k: int| 0 <= k < i ==> target_char(#[trigger] chars@[k]),
        decreases chars@.len() - i,
    {
        let c = chars[i];
        if !(('a' <= c && c <= 'z') || ('0' <= c && c <= '9') || c == '-') {
            assert(!target_char(target@[i as int]));
            return false;
        }
        i = i + 1;
    }
    true
}

/// Where the script of journal gates lies.
pub fn script_path(dir: &str) -> (r: String)
    ensures
        r@ == jail::joined(dir@, "harness/journal-gate.sh"@),
{
    join(dir, "harness/journal-gate.sh")
}

/// The variables that a gate gets to see: those that are not scrubbed.
pub open spec fn kept_env(
    env: Seq<(Seq<char>, Seq<char>)>,
    scrub_names: Seq<Seq<char>>,
) -> Seq<(Seq<char>, Seq<char>)>
    decreases env.len(),
{
    if env.len() == 0 {
        Seq::empty()
    } else if terminal::scrubs(env.last().0, scrub_names) {
        kept_env(env.drop_last(), scrub_names)
    } else {
        kept_env(env.drop_last(), scrub_names).push(env.last())
    }
}

/// The variables that a gate gets to see.
pub fn gate_env(env: &Vec<(String, String)>, scrub_names: &[String]) -> (r: Vec<(String, String)>)
    ensures
        config::env_view(r@) == kept_env(config::env_view(env@), text::texts(scrub_names@)),
{
    let ghost all = config::env_view(env@);
    let ghost scrub = text::texts(scrub_names@);
    let mut out: Vec<(String, String)> = Vec::new();
    let mut i: usize = 0;
    assert(config::env_view(out@) =~= kept_env(all.take(0), scrub));
    while i < env.len()
        invariant
            i <= env@.len(),
            all == config::env_view(env@),
            scrub == text::texts(scrub_names@),
            config::env_view(out@) == kept_env(all.take(i as int), scrub),
        decreases env@.len() - i,
    {
        let ghost done = config::env_view(out@);
        proof {
            assert(all.take(i + 1).drop_last() =~= all.take(i as int));
            assert(all.take(i + 1).last() == all[i as int]);
        }
        if !scrubs_name(env[i].0.as_str(), scrub_names) {
            out.push((env[i].0.clone(), env[i].1.clone()));
            assert(config::env_view(out@) =~= done.push(all[i as int]));
        }
        i = i + 1;
    }
    assert(all.take(i as int) =~= all);
    out
}

// ---------------------------------------------------------------------------
// Evidence
// ---------------------------------------------------------------------------

/// How many characters stand before the first white space; all where there is none.
pub open spec fn word_len(s: Seq<char>) -> nat
    decreases s.len(),
{
    if s.len() == 0 || text::white(s[0]) {
        0
    } else {
        1 + word_len(s.drop_first())
    }
}

/// The word that evidence at a position of a line names.
pub open spec fn token_at(line: Seq<char>, at: int) -> Seq<char> {
    let behind = line.skip(at + 10);
    behind.take(word_len(behind) as int)
}

/// Evidence stands at a position of a line: the mark, and behind it the name of a journal.
pub open spec fn evidence_at(line: Seq<char>, at: int) -> bool {
    text::occurs_at(line, "evidence: "@, at) && text::ends(token_at(line, at), ".jsonl"@)
}

/// The journal that the last evidence before a position of a line names.
pub open spec fn evidence_before(line: Seq<char>, n: int) -> Option<Seq<char>>
    decreases n,
{
    if n <= 0 {
        None
    } else if evidence_at(line, n - 1) {
        Some(token_at(line, n - 1))
    } else {
        evidence_before(line, n - 1)
    }
}

/// The journal that the last evidence among lines names.
pub open spec fn evidence_in(lines: Seq<Seq<char>>) -> Option<Seq<char>>
    decreases lines.len(),
{
    if lines.len() == 0 {
        None
    } else {
        match evidence_before(lines.last(), lines.last().len() as int) {
            Some(token) => Some(token),
            None => evidence_in(lines.drop_last()),
        }
    }
}

/// How many characters from a position on stand before the first white space.
fn word_from(chars: &[char], from: usize) -> (r: usize)
    requires
        from <= chars@.len(),
    ensures
        r == word_len(chars@.skip(from as int)),
        from + r <= chars@.len(),
{
    let mut to: usize = from;
    let ghost all = chars@.skip(from as int);
    while to < chars.len() && !is_white(chars[to])
        invariant
            from <= to <= chars@.len(),
            all == chars@.skip(from as int),
            word_len(all) == (to - from) + word_len(chars@.skip(to as int)),
        decreases chars@.len() - to,
    {
        assert(chars@.skip(to as int).drop_first() =~= chars@.skip(to + 1));
        to = to + 1;
    }
    to - from
}

/// The journal that the last evidence in a line names.
fn find_evidence(line: &str) -> (r: Option<String>)
    ensures
        match evidence_before(line@, line@.len() as int) {
            Some(token) => r is Some && r->0@ == token,
            None => r is None,
        },
{
    let chars = chars_of(line);
    let mark = chars_of("evidence: ");
    proof {
        reveal_strlit("evidence: ");
    }
    let total = chars.len();
    let mut n: usize = total;
    while n > 0
        invariant
            n <= total,
            total == chars@.len(),
            chars@ == line@,
            mark@ == "evidence: "@,
            mark@.len() == 10,
            evidence_before(line@, n as int) == evidence_before(line@, line@.len() as int),
        decreases n,
    {
        if stands_at(chars.as_slice(), mark.as_slice(), n - 1) {
            assert(n - 1 + 10 <= total);
            let from = (n - 1) + 10;
            let len = word_from(chars.as_slice(), from);
            let token = string_between(chars.as_slice(), from, from + len);
            assert(token@ =~= token_at(line@, n - 1));
            if finishes(token.as_str(), ".jsonl") {
                return Some(token);
            }
        }
        n = n - 1;
    }
    None
}

/// Where the journal lies that the last evidence in a gate's output names; a relative path
/// is taken from the forgeloop tree on.
pub fn parse_evidence(dir: &str, stdout: &str) -> (r: Option<String>)
    ensures
        match evidence_in(text::lines(stdout@)) {
            Some(token) => r is Some && r->0@ == jail::joined(dir@, token),
            None => r is None,
        },
{
    let lines = lines_of(stdout);
    let ghost all = text::texts(lines@);
    let mut n: usize = lines.len();
    assert(all.take(n as int) =~= all);
    while n > 0
        invariant
            n <= lines@.len(),
            all == text::texts(lines@),
            evidence_in(all.take(n as int)) == evidence_in(all),
            all == text::lines(stdout@),
        decreases n,
    {
        proof {
            assert(all.take(n as int).drop_last() =~= all.take(n - 1));
            assert(all.take(n as int).last() == lines@[n - 1]@);
        }
        match find_evidence(lines[n - 1].as_str()) {
            Some(token) => {
                return Some(join(dir, token.as_str()));
            },
            None => {},
        }
        n = n - 1;
    }
    None
}

// ---------------------------------------------------------------------------
// Verdicts
// ---------------------------------------------------------------------------

/// The decision and the intent that a tree records, if it has a decision; the intent is
/// empty where there is none.
pub open spec fn decision_of(tree: Tree) -> Option<(Seq<char>, Seq<char>)> {
    match tree.text_at("decision"@) {
        Some(d) => Some((d, tree.text_or_empty("intent"@))),
        None => None,
    }
}

/// The decision and the intent that a line of a journal records, if it is JSON with a
/// decision.
pub open spec fn decision_in(line: Seq<char>) -> Option<(Seq<char>, Seq<char>)> {
    let inner = text::trimmed(line);
    if inner.len() == 0 {
        None
    } else {
        match json::parsed_tree(inner) {
            Some(tree) => decision_of(tree),
            None => None,
        }
    }
}

/// The last decision that lines of a journal record.
pub open spec fn last_decision(lines: Seq<Seq<char>>) -> Option<(Seq<char>, Seq<char>)>
    decreases lines.len(),
{
    if lines.len() == 0 {
        None
    } else {
        match decision_in(lines.last()) {
            Some(d) => Some(d),
            None => last_decision(lines.drop_last()),
        }
    }
}

/// The verdict that a journal records.
pub open spec fn journal_verdict(path: Seq<char>, journal: Seq<char>) -> Option<GateVerdictView> {
    match last_decision(text::lines(journal)) {
        Some((decision, intent)) => Some(GateVerdictView { decision, intent, journal_path: path }),
        None => None,
    }
}

/// The decision and the intent that a tree records.
pub fn tree_decision(tree: &Json) -> (r: Option<(String, String)>)
    ensures
        match decision_of(tree@) {
            Some(d) => r is Some && (r->0).0@ == d.0 && (r->0).1@ == d.1,
            None => r is None,
        },
{
    match tree.text_at("decision") {
        Some(d) => Some((d.to_owned(), tree.text_or_empty("intent"))),
        None => None,
    }
}

/// The decision and the intent that a line of a journal records.
fn read_decision(line: &str) -> (r: Option<(String, String)>)
    ensures
        match decision_in(line@) {
            Some(d) => r is Some && (r->0).0@ == d.0 && (r->0).1@ == d.1,
            None => r is None,
        },
{
    let inner = trim(line);
    if chars_of(inner.as_str()).len() == 0 {
        return None;
    }
    match parse_json(inner.as_str()) {
        Some(tree) => tree_decision(&tree),
        None => None,
    }
}

/// The verdict that a journal records: the last line with a decision counts.
pub fn read_verdict(journal_path: &str, journal: &str) -> (r: Option<GateVerdict>)
    ensures
        match journal_verdict(journal_path@, journal@) {
            Some(v) => r is Some && r->0@ == v,
            None => r is None,
        },
{
    let lines = lines_of(journal);
    let ghost all = text::texts(lines@);
    let mut n: usize = lines.len();
    assert(all.take(n as int) =~= all);
    while n > 0
        invariant
            n <= lines@.len(),
            all == text::texts(lines@),
            last_decision(all.take(n as int)) == last_decision(all),
            all == text::lines(journal@),
        decreases n,
    {
        proof {
            assert(all.take(n as int).drop_last() =~= all.take(n - 1));
            assert(all.take(n as int).last() == lines@[n - 1]@);
        }
        match read_decision(lines[n - 1].as_str()) {
            Some((decision, intent)) => {
                return Some(
                    GateVerdict { decision, intent, journal_path: journal_path.to_owned() },
                );
            },
            None => {},
        }
        n = n - 1;
    }
    None
}

// ---------------------------------------------------------------------------
// Outcomes
// ---------------------------------------------------------------------------

/// Standard output with standard error behind it, on a line of its own.
pub open spec fn combined(stdout: Seq<char>, stderr: Seq<char>) -> Seq<char> {
    if stderr.len() == 0 {
        stdout
    } else if stdout.len() > 0 && stdout.last() != '\n' {
        stdout.push('\n') + stderr
    } else {
        stdout + stderr
    }
}

/// A text cut at a number of bytes.
pub open spec fn capped(whole: Seq<char>, cap: int) -> Seq<char> {
    if encode_utf8(whole).len() <= cap {
        whole
    } else {
        text::first_bytes(whole, cap) + TRUNCATED@
    }
}

fn combine(stdout: &str, stderr: &str) -> (r: String)
    ensures
        r@ == combined(stdout@, stderr@),
{
    let mut merged = stdout.to_owned();
    if chars_of(stderr).len() == 0 {
        return merged;
    }
    let chars = chars_of(stdout);
    if chars.len() > 0 && chars[chars.len() - 1] != '\n' {
        merged.push('\n');
    }
    merged.append(stderr);
    merged
}

/// Whether standard output and standard error, combined, can be cut at the cap.
pub fn combines_cleanly(stdout: &str, stderr: &str, cap: usize) -> (r: bool)
    ensures
        r == text::can_cap(combined(stdout@, stderr@), cap as int),
{
    let merged = combine(stdout, stderr);
    text::caps_cleanly(merged.as_str(), cap)
}

/// Standard output with standard error behind it, cut at the cap.
pub fn cap_combined(stdout: &str, stderr: &str, cap: usize) -> (r: String)
    requires
        text::can_cap(combined(stdout@, stderr@), cap as int),
    ensures
        r@ == capped(combined(stdout@, stderr@), cap as int),
{
    let merged = combine(stdout, stderr);
    if byte_len(merged.as_str()) <= cap {
        return merged;
    }
    let mut out = cut_bytes(merged.as_str(), cap);
    out.append(TRUNCATED);
    out
}

/// How a gate ended that ran to its end. `journal` is the path and the text of the journal
/// that its evidence pointed to, `None` where there was no evidence or the journal could
/// not be read.
pub fn gate_ended(
    code: Option<i32>,
    stdout: &str,
    stderr: &str,
    journal: Option<(&str, &str)>,
    cap: usize,
) -> (r: GateOutcome)
    requires
        text::can_cap(combined(stdout@, stderr@), cap as int),
    ensures
        r.exit_code == terminal::told_code(code),
        r.output@ == capped(combined(stdout@, stderr@), cap as int),
        match journal {
            Some((path, held)) => match journal_verdict(path@, held@) {
                Some(v) => r.verdict is Some && r.verdict->0@ == v,
                None => r.verdict is None,
            },
            None => r.verdict is None,
        },
{
    let exit_code = match code {
        Some(c) => c,
        None => -1,
    };
    let verdict = match journal {
        Some((path, held)) => read_verdict(path, held),
        None => None,
    };
    GateOutcome { verdict, exit_code, output: cap_combined(stdout, stderr, cap) }
}

/// How a gate ended that was killed because its time was up: without a verdict.
pub fn gate_timed_out(stdout: &str, stderr: &str, cap: usize) -> (r: GateOutcome)
    requires
        text::can_cap(combined(stdout@, stderr@), cap as int),
    ensures
        r.exit_code == -1,
        r.output@ == capped(combined(stdout@, stderr@), cap as int) + " [timeout]"@,
        r.verdict is None,
{
    let mut output = cap_combined(stdout, stderr, cap);
    output.append(" [timeout]");
    GateOutcome { verdict: None, exit_code: -1, output }
}

// ---------------------------------------------------------------------------
// Laws
// ---------------------------------------------------------------------------

/// A verdict is copied from a line of the journal that records it, never made up.
pub proof fn verdict_stands_in_the_journal(path: Seq<char>, journal: Seq<char>)
    requires
        journal_verdict(path, journal) is Some,
    ensures
        exists|i: int|
            0 <= i < text::lines(journal).len() && decision_in(#[trigger] text::lines(journal)[i])
                == Some(
                (
                    journal_verdict(path, journal)->0.decision,
                    journal_verdict(path, journal)->0.intent,
                ),
            ),
{
    let at = lemma_decision_is_there(text::lines(journal));
    assert(decision_in(text::lines(journal)[at]) is Some);
}

proof fn lemma_decision_is_there(lines: Seq<Seq<char>>) -> (at: int)
    requires
        last_decision(lines) is Some,
    ensures
        0 <= at < lines.len(),
        decision_in(lines[at]) == last_decision(lines),
        forall|k: int| at < k < lines.len() ==> decision_in(#[trigger] lines[k]) is None,
    decreases lines.len(),
{
    if decision_in(lines.last()) is Some {
        lines.len() - 1
    } else {
        let at = lemma_decision_is_there(lines.drop_last());
        assert forall|k: int| at < k < lines.len() implies decision_in(#[trigger] lines[k]) is None by {
            if k < lines.len() - 1 {
                assert(lines.drop_last()[k] == lines[k]);
            }
        }
        at
    }
}

/// The last line with a decision wins: no later line of the journal has one.
pub proof fn last_decision_wins(lines: Seq<Seq<char>>, i: int)
    requires
        0 <= i < lines.len(),
        decision_in(lines[i]) is Some,
        forall|k: int| i < k < lines.len() ==> decision_in(#[trigger] lines[k]) is None,
    ensures
        last_decision(lines) == decision_in(lines[i]),
    decreases lines.len(),
{
    if i < lines.len() - 1 {
        assert(decision_in(lines[lines.len() - 1]) is None);
        let before = lines.drop_last();
        assert forall|k: int| i < k < before.len() implies decision_in(#[trigger] before[k]) is None by {
            assert(before[k] == lines[k]);
        }
        last_decision_wins(before, i);
    }
}

/// A journal that records no decision gives no verdict.
pub proof fn no_decision_no_verdict(path: Seq<char>, journal: Seq<char>)
    requires
        forall|i: int|
            0 <= i < text::lines(journal).len() ==> decision_in(
                #[trigger] text::lines(journal)[i],
            ) is None,
    ensures
        journal_verdict(path, journal) is None,
{
    if journal_verdict(path, journal) is Some {
        let at = lemma_decision_is_there(text::lines(journal));
        assert(decision_in(text::lines(journal)[at]) is None);
    }
}

/// A journal that evidence points to is named so in what was printed.
pub proof fn evidence_stands_in_the_output(lines: Seq<Seq<char>>)
    requires
        evidence_in(lines) is Some,
    ensures
        exists|i: int, at: int|
            0 <= i < lines.len() && #[trigger] evidence_at(lines[i], at) && evidence_in(lines)
                == Some(token_at(lines[i], at)),
    decreases lines.len(),
{
    let last = lines.last();
    if evidence_before(last, last.len() as int) is Some {
        let at = lemma_evidence_is_there(last, last.len() as int);
        assert(evidence_at(lines[lines.len() - 1], at));
    } else {
        evidence_stands_in_the_output(lines.drop_last());
        let before = lines.drop_last();
        let (i, at) = choose|i: int, at: int|
            0 <= i < before.len() && #[trigger] evidence_at(before[i], at) && evidence_in(before)
                == Some(token_at(before[i], at));
        assert(before[i] == lines[i]);
        assert(evidence_at(lines[i], at));
    }
}

proof fn lemma_evidence_is_there(line: Seq<char>, n: int) -> (at: int)
    requires
        evidence_before(line, n) is Some,
    ensures
        evidence_at(line, at),
        evidence_before(line, n) == Some(token_at(line, at)),
    decreases n,
{
    if evidence_at(line, n - 1) {
        n - 1
    } else {
        lemma_evidence_is_there(line, n - 1)
    }
}

/// A target that may be run cannot be taken for an option, a path or several words.
pub proof fn fit_targets_are_single_names(target: Seq<char>, i: int)
    requires
        fit_target(target),
        0 <= i < target.len(),
    ensures
        target[0] != '-',
        target[i] != '/',
        target[i] != '.',
        target[i] != ' ',
        target[i] != ';',
{
    assert(target_char(target[i]));
}

/// A target may be run where it is made of small letters, digits and dashes and begins with
/// no dash; any other character bars it.
pub proof fn other_targets_are_barred(target: Seq<char>, i: int)
    ensures
        target.len() == 0 ==> !fit_target(target),
        target.len() > 0 && target[0] == '-' ==> !fit_target(target),
        0 <= i < target.len() && !('a' <= target[i] <= 'z') && !('0' <= target[i] <= '9')
            && target[i] != '-' ==> !fit_target(target),
        target.len() > 0 && target[0] != '-' && (forall|k: int|
            #![trigger target[k]]
            0 <= k < target.len() ==> 'a' <= target[k] <= 'z' || '0' <= target[k] <= '9'
                || target[k] == '-') ==> fit_target(target),
{
}

/// A gate gets to see every variable that is not kept from children, in order, with its
/// value, and no other.
pub proof fn gates_see_what_is_not_scrubbed(
    env: Seq<(Seq<char>, Seq<char>)>,
    scrub_names: Seq<Seq<char>>,
)
    ensures
        kept_env(env, scrub_names) == env.filter(
            |v: (Seq<char>, Seq<char>)| !terminal::scrubs(v.0, scrub_names),
        ),
    decreases env.len(),
{
    let goes = |v: (Seq<char>, Seq<char>)| !terminal::scrubs(v.0, scrub_names);
    reveal(Seq::filter);
    if env.len() > 0 {
        gates_see_what_is_not_scrubbed(env.drop_last(), scrub_names);
    }
    assert(kept_env(env, scrub_names) =~= env.filter(goes));
}

/// Evidence names the word that stands behind the mark, up to the next white space, where
/// that word is the name of a journal.
pub proof fn evidence_names_the_word_behind_the_mark(
    before: Seq<char>,
    journal: Seq<char>,
    behind: Seq<char>,
)
    requires
        forall|i: int| 0 <= i < journal.len() ==> !text::white(#[trigger] journal[i]),
        behind.len() == 0 || text::white(behind[0]),
    ensures
        ({
            let line = before + "evidence: "@ + journal + behind;
            let at = before.len() as int;
            &&& token_at(line, at) == journal
            &&& text::ends(journal, ".jsonl"@) <==> evidence_at(line, at)
        }),
{
    reveal_strlit("evidence: ");
    let line = before + "evidence: "@ + journal + behind;
    let at = before.len() as int;
    assert(line.subrange(at, at + 10) =~= "evidence: "@);
    assert(line.skip(at + 10) =~= journal + behind);
    lemma_word_ends(journal, behind);
    assert((journal + behind).take(journal.len() as int) =~= journal);
}

proof fn lemma_word_ends(word: Seq<char>, behind: Seq<char>)
    requires
        forall|i: int| 0 <= i < word.len() ==> !text::white(#[trigger] word[i]),
        behind.len() == 0 || text::white(behind[0]),
    ensures
        word_len(word + behind) == word.len(),
    decreases word.len(),
{
    let all = word + behind;
    if word.len() == 0 {
        assert(all =~= behind);
    } else {
        let rest = word.drop_first();
        assert(!text::white(word[0]));
        assert(all[0] == word[0]);
        assert forall|i: int| 0 <= i < rest.len() implies !text::white(#[trigger] rest[i]) by {
            assert(rest[i] == word[i + 1]);
        }
        assert(all.drop_first() =~= rest + behind);
        lemma_word_ends(rest, behind);
    }
}

/// The last evidence counts: that of the last line that has any, and in that line the one
/// that stands last.
pub proof fn last_evidence_counts(lines: Seq<Seq<char>>, line: Seq<char>, at: int)
    requires
        evidence_at(line, at),
        forall|k: int| at < k ==> !evidence_at(line, k),
    ensures
        evidence_in(lines.push(line)) == Some(token_at(line, at)),
{
    reveal_strlit("evidence: ");
    assert(lines.push(line).drop_last() =~= lines);
    lemma_last_in_line(line, line.len() as int, at);
}

proof fn lemma_last_in_line(line: Seq<char>, n: int, at: int)
    requires
        evidence_at(line, at),
        0 <= at < n,
        forall|k: int| at < k ==> !evidence_at(line, k),
    ensures
        evidence_before(line, n) == Some(token_at(line, at)),
    decreases n,
{
    if n - 1 > at {
        assert(!evidence_at(line, n - 1));
        lemma_last_in_line(line, n - 1, at);
    }
}

/// A line without evidence is passed over.
pub proof fn lines_without_evidence_are_passed_over(lines: Seq<Seq<char>>, line: Seq<char>)
    requires
        forall|k: int| 0 <= k ==> !evidence_at(line, k),
    ensures
        evidence_in(lines.push(line)) == evidence_in(lines),
        evidence_in(Seq::empty()) is None,
{
    assert(lines.push(line).drop_last() =~= lines);
    lemma_none_in_line(line, line.len() as int);
}

proof fn lemma_none_in_line(line: Seq<char>, n: int)
    requires
        forall|k: int| 0 <= k ==> !evidence_at(line, k),
    ensures
        evidence_before(line, n) is None,
    decreases n,
{
    if n > 0 {
        assert(!evidence_at(line, n - 1));
        lemma_none_in_line(line, n - 1);
    }
}

/// A decision and its intent are read word for word; without an intent it is empty, and
/// without a decision there is nothing to read.
pub proof fn decisions_are_read_word_for_word(
    tree: Tree,
    decision: Seq<char>,
    intent: Seq<char>,
)
    ensures
        tree.text_at("decision"@) == Some(decision) && tree.text_at("intent"@) == Some(intent)
            ==> decision_of(tree) == Some((decision, intent)),
        tree.text_at("decision"@) == Some(decision) && tree.text_at("intent"@) is None
            ==> decision_of(tree) == Some((decision, Seq::<char>::empty())),
        tree.text_at("decision"@) is None ==> decision_of(tree) is None,
{
}

/// A line of a journal is read as the JSON that it is, without white space around it.
pub proof fn journal_lines_are_read_as_json(
    start: Seq<char>,
    inner: Seq<char>,
    end: Seq<char>,
    tree: Tree,
)
    requires
        forall|i: int| 0 <= i < start.len() ==> text::white(#[trigger] start[i]),
        forall|i: int| 0 <= i < end.len() ==> text::white(#[trigger] end[i]),
        inner.len() > 0 ==> !text::white(inner[0]) && !text::white(inner.last()),
    ensures
        inner.len() == 0 ==> decision_in(start + inner + end) is None,
        inner.len() > 0 && json::parsed_tree(inner) == Some(tree) ==> decision_in(
            start + inner + end,
        ) == decision_of(tree),
        inner.len() > 0 && json::parsed_tree(inner) is None ==> decision_in(
            start + inner + end,
        ) is None,
{
    text::trimming_takes_what_is_around(start, inner, end);
}

/// A verdict cites the journal that it was read from.
pub proof fn verdicts_cite_their_journal(path: Seq<char>, journal: Seq<char>)
    requires
        journal_verdict(path, journal) is Some,
    ensures
        journal_verdict(path, journal)->0.journal_path == path,
        last_decision(text::lines(journal)) == Some(
            (journal_verdict(path, journal)->0.decision, journal_verdict(path, journal)->0.intent),
        ),
{
}

/// Standard error stands behind standard output, on a line of its own; nothing is lost.
pub proof fn errors_stand_behind_the_output(stdout: Seq<char>, stderr: Seq<char>)
    ensures
        combined(stdout, Seq::empty()) == stdout,
        combined(Seq::empty(), stderr) == stderr,
        text::begins(combined(stdout, stderr), stdout),
        text::ends(combined(stdout, stderr), stderr),
        stdout.len() > 0 && stdout.last() == '\n' ==> combined(stdout, stderr) == stdout + stderr,
        stdout.len() > 0 && stdout.last() != '\n' && stderr.len() > 0 ==> combined(stdout, stderr)
            == stdout + seq!['\n'] + stderr,
{
    let all = combined(stdout, stderr);
    assert(combined(Seq::empty(), stderr) =~= stderr);
    assert(all.subrange(0, stdout.len() as int) =~= stdout);
    assert(all.subrange(all.len() - stderr.len(), all.len() as int) =~= stderr);
    if stdout.len() > 0 && stdout.last() != '\n' && stderr.len() > 0 {
        assert(all =~= stdout + seq!['\n'] + stderr);
    }
    if stderr.len() == 0 {
        assert(stdout + stderr =~= stdout);
    }
}

/// Output within the cap is shown whole; of longer output the bytes up to the cap are shown,
/// and that something is missing is said.
pub proof fn long_output_is_cut(whole: Seq<char>, cap: int)
    requires
        0 <= cap,
        text::can_cap(whole, cap),
    ensures
        encode_utf8(whole).len() <= cap ==> capped(whole, cap) == whole,
        encode_utf8(whole).len() > cap ==> text::ends(capped(whole, cap), "\n[truncated]"@),
        encode_utf8(whole).len() > cap ==> ({
            let kept = capped(whole, cap).take(
                capped(whole, cap).len() - "\n[truncated]"@.len(),
            );
            text::begins(whole, kept) && encode_utf8(kept) == encode_utf8(whole).subrange(0, cap)
        }),
{
    if encode_utf8(whole).len() > cap {
        let mark = "\n[truncated]"@;
        let all = capped(whole, cap);
        text::cut_text_is_a_beginning(whole, cap);
        text::lemma_cut_text_has_the_bytes(whole, cap);
        assert(all.subrange(all.len() - mark.len(), all.len() as int) =~= mark);
        assert(all.take(all.len() - mark.len()) =~= text::first_bytes(whole, cap));
    }
}

} // verus!
