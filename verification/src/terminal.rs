//! What commands see of the environment, and what is shown of their output.

use crate::fs_tools::{self, read_file};
use crate::text::{self, decimal_of, holds, listed, to_upper};
use vstd::prelude::*;
use vstd::string::*;

verus! {

/// How a command ended.
#[derive(Debug, PartialEq)]
pub struct TermOutcome {
    pub exit_code: i32,
    pub output: String,
}

/// A name in capitals that holds a word for secrets.
pub open spec fn marked_secret(up: Seq<char>) -> bool {
    text::occurs(up, "KEY"@) || text::occurs(up, "TOKEN"@) || text::occurs(up, "SECRET"@)
        || text::occurs(up, "PASSWORD"@) || text::occurs(up, "CREDENTIAL"@)
}

/// A name that tells a secret, in whatever case it is written.
pub open spec fn tells_secret(name: Seq<char>) -> bool {
    marked_secret(text::uppercase(name))
}

/// Whether a name in capitals holds a word for secrets.
pub fn capitals_are_secret(up: &str) -> (r: bool)
    ensures
        r == marked_secret(up@),
{
    holds(up, "KEY") || holds(up, "TOKEN") || holds(up, "SECRET") || holds(up, "PASSWORD")
        || holds(up, "CREDENTIAL")
}

/// Whether a name tells a secret.
pub fn name_is_secret(name: &str) -> (r: bool)
    ensures
        r == tells_secret(name@),
{
    let up = to_upper(name);
    capitals_are_secret(up.as_str())
}

/// A variable that a child does not get to see: its name tells a secret, or is listed.
pub open spec fn scrubs(name: Seq<char>, scrub_names: Seq<Seq<char>>) -> bool {
    tells_secret(name) || scrub_names.contains(name)
}

/// Whether a child does not get to see a variable.
pub fn scrubs_name(name: &str, scrub_names: &[String]) -> (r: bool)
    ensures
        r == scrubs(name@, text::texts(scrub_names@)),
{
    name_is_secret(name) || listed(scrub_names, name)
}

/// The names among the given ones that a child does not get to see.
pub open spec fn scrubbed_of(names: Seq<Seq<char>>, scrub_names: Seq<Seq<char>>) -> Seq<Seq<char>>
    decreases names.len(),
{
    if names.len() == 0 {
        Seq::empty()
    } else if scrubs(names.last(), scrub_names) {
        scrubbed_of(names.drop_last(), scrub_names).push(names.last())
    } else {
        scrubbed_of(names.drop_last(), scrub_names)
    }
}

/// The names among those of the environment that a child does not get to see.
pub fn scrubbed_names(names: &[String], scrub_names: &[String]) -> (r: Vec<String>)
    ensures
        text::texts(r@) == scrubbed_of(text::texts(names@), text::texts(scrub_names@)),
{
    let ghost all = text::texts(names@);
    let ghost scrub = text::texts(scrub_names@);
    let mut out: Vec<String> = Vec::new();
    let mut i: usize = 0;
    assert(text::texts(out@) =~= scrubbed_of(all.take(0), scrub));
    while i < names.len()
        invariant
            i <= names@.len(),
            all == text::texts(names@),
            scrub == text::texts(scrub_names@),
            text::texts(out@) == scrubbed_of(all.take(i as int), scrub),
        decreases names@.len() - i,
    {
        let ghost done = text::texts(out@);
        proof {
            assert(all.take(i + 1).drop_last() =~= all.take(i as int));
            assert(all.take(i + 1).last() == names@[i as int]@);
        }
        if scrubs_name(names[i].as_str(), scrub_names) {
            out.push(names[i].clone());
            assert(text::texts(out@) =~= done.push(names@[i as int]@));
        }
        i = i + 1;
    }
    assert(all.take(i as int) =~= all);
    out
}

/// The exit code that is told: -1 where the command has none.
pub open spec fn told_code(code: Option<i32>) -> i32 {
    match code {
        Some(c) => c,
        None => -1i32,
    }
}

/// How a command ended that ran to its end: standard output with standard error behind
/// it, cut at the cap.
pub fn ended(code: Option<i32>, stdout: &[u8], stderr: &[u8], max_bytes: usize) -> (r: TermOutcome)
    ensures
        r.exit_code == told_code(code),
        r.output@ == fs_tools::shown(stdout@ + stderr@, max_bytes as int),
{
    let exit_code = match code {
        Some(c) => c,
        None => -1,
    };
    let mut merged: Vec<u8> = Vec::new();
    let mut i: usize = 0;
    assert(merged@ =~= stdout@.take(0));
    while i < stdout.len()
        invariant
            i <= stdout@.len(),
            merged@ == stdout@.take(i as int),
        decreases stdout@.len() - i,
    {
        merged.push(stdout[i]);
        i = i + 1;
        assert(stdout@.take(i as int) =~= stdout@.take(i - 1).push(stdout@[i - 1]));
    }
    let mut k: usize = 0;
    assert(merged@ =~= stdout@ + stderr@.take(0));
    while k < stderr.len()
        invariant
            k <= stderr@.len(),
            merged@ == stdout@ + stderr@.take(k as int),
        decreases stderr@.len() - k,
    {
        merged.push(stderr[k]);
        k = k + 1;
        assert(stderr@.take(k as int) =~= stderr@.take(k - 1).push(stderr@[k - 1]));
    }
    assert(stderr@.take(k as int) =~= stderr@);
    TermOutcome { exit_code, output: read_file(merged.as_slice(), max_bytes) }
}

/// How a command ended that was killed because its time was up.
pub fn timed_out(timeout_secs: u64) -> (r: TermOutcome)
    ensures
        r.exit_code == -1,
        r.output@ == "killed: timeout after "@ + text::decimal(timeout_secs as nat) + "s"@,
{
    let mut output = "killed: timeout after ".to_owned();
    output.append(decimal_of(timeout_secs).as_str());
    output.append("s");
    TermOutcome { exit_code: -1, output }
}

// ---------------------------------------------------------------------------
// Laws
// ---------------------------------------------------------------------------

/// Every variable of the environment that is listed, or whose name tells a secret, is
/// scrubbed, and no other.
pub proof fn secrets_are_scrubbed(
    names: Seq<Seq<char>>,
    scrub_names: Seq<Seq<char>>,
    name: Seq<char>,
)
    ensures
        scrubbed_of(names, scrub_names).contains(name) <==> names.contains(name) && scrubs(
            name,
            scrub_names,
        ),
    decreases names.len(),
{
    if names.len() > 0 {
        let before = names.drop_last();
        let last = names.last();
        let rest = scrubbed_of(before, scrub_names);
        let all = scrubbed_of(names, scrub_names);
        secrets_are_scrubbed(before, scrub_names, name);
        if names.contains(name) {
            let i = choose|i: int| 0 <= i < names.len() && names[i] == name;
            if i < before.len() {
                assert(before[i] == name);
                assert(before.contains(name));
            }
        }
        if before.contains(name) {
            let i = choose|i: int| 0 <= i < before.len() && before[i] == name;
            assert(names[i] == name);
        }
        assert(names[names.len() - 1] == last);
        if rest.contains(name) {
            let i = choose|i: int| 0 <= i < rest.len() && rest[i] == name;
            assert(all[i] == name);
        }
        if all.contains(name) {
            let i = choose|i: int| 0 <= i < all.len() && all[i] == name;
            if i < rest.len() {
                assert(rest[i] == name);
            }
        }
        if scrubs(last, scrub_names) {
            assert(all[rest.len() as int] == last);
        }
    }
}

/// A name tells a secret where one of five words stands in it, in capitals or not; no other
/// word counts.
pub proof fn five_words_tell_secrets(name: Seq<char>, before: Seq<char>, after: Seq<char>)
    ensures
        text::uppercase(name) == before + "KEY"@ + after ==> tells_secret(name),
        text::uppercase(name) == before + "TOKEN"@ + after ==> tells_secret(name),
        text::uppercase(name) == before + "SECRET"@ + after ==> tells_secret(name),
        text::uppercase(name) == before + "PASSWORD"@ + after ==> tells_secret(name),
        text::uppercase(name) == before + "CREDENTIAL"@ + after ==> tells_secret(name),
        tells_secret(name) ==> text::occurs(text::uppercase(name), "KEY"@) || text::occurs(
            text::uppercase(name),
            "TOKEN"@,
        ) || text::occurs(text::uppercase(name), "SECRET"@) || text::occurs(
            text::uppercase(name),
            "PASSWORD"@,
        ) || text::occurs(text::uppercase(name), "CREDENTIAL"@),
{
    lemma_stands_between(before, "KEY"@, after);
    lemma_stands_between(before, "TOKEN"@, after);
    lemma_stands_between(before, "SECRET"@, after);
    lemma_stands_between(before, "PASSWORD"@, after);
    lemma_stands_between(before, "CREDENTIAL"@, after);
}

proof fn lemma_stands_between(before: Seq<char>, word: Seq<char>, after: Seq<char>)
    ensures
        text::occurs(before + word + after, word),
{
    let all = before + word + after;
    let n = before.len() as int;
    assert(all.subrange(n, n + word.len()) =~= word);
    assert(text::occurs_at(all, word, n));
}

/// A variable is kept from children where it is listed or where its name tells a secret, and
/// for no other reason.
pub proof fn variables_are_kept_for_two_reasons(name: Seq<char>, scrub_names: Seq<Seq<char>>)
    ensures
        (exists|i: int| 0 <= i < scrub_names.len() && #[trigger] scrub_names[i] == name) ==> scrubs(
            name,
            scrub_names,
        ),
        tells_secret(name) ==> scrubs(name, scrub_names),
        scrubs(name, scrub_names) && !tells_secret(name) ==> exists|i: int|
            0 <= i < scrub_names.len() && #[trigger] scrub_names[i] == name,
{
    if scrubs(name, scrub_names) && !tells_secret(name) {
        let i = choose|i: int| 0 <= i < scrub_names.len() && scrub_names[i] == name;
        assert(scrub_names[i] == name);
    }
}

/// The names that are kept from children come in their order.
pub proof fn scrubbed_names_come_in_order(
    names: Seq<Seq<char>>,
    name: Seq<char>,
    scrub_names: Seq<Seq<char>>,
)
    ensures
        scrubs(name, scrub_names) ==> scrubbed_of(names.push(name), scrub_names) == scrubbed_of(
            names,
            scrub_names,
        ).push(name),
        !scrubs(name, scrub_names) ==> scrubbed_of(names.push(name), scrub_names) == scrubbed_of(
            names,
            scrub_names,
        ),
        scrubbed_of(Seq::empty(), scrub_names).len() == 0,
{
    assert(names.push(name).drop_last() =~= names);
}

/// The exit code of a command is told as it is; one that ended without is told as -1.
pub proof fn exit_codes_are_told_as_they_are(code: i32)
    ensures
        told_code(Some(code)) == code,
        told_code(None) == -1,
{
}

} // verus!
