//! What the file tools make of what lies on disk.

use crate::jail::{self, Jail};
use crate::ledger;
use crate::table::{self, sort_texts};
use crate::text::{
    self, chars_of, decode_lossy, lines_of, own_words, replace_once, string_with,
};
use vstd::prelude::*;
use vstd::slice::slice_subrange;
use vstd::string::*;

verus! {

/// What tells that something was cut off.
pub const TRUNCATED: &'static str = "\n[truncated]";

// ---------------------------------------------------------------------------
// Reading
// ---------------------------------------------------------------------------

/// Bytes as text, cut at the cap.
pub open spec fn shown(bytes: Seq<u8>, max_bytes: int) -> Seq<char> {
    if bytes.len() <= max_bytes {
        text::lossy_text(bytes)
    } else {
        text::lossy_text(bytes.subrange(0, max_bytes)) + TRUNCATED@
    }
}

/// What is shown of a file with the given bytes.
pub fn read_file(bytes: &[u8], max_bytes: usize) -> (r: String)
    ensures
        r@ == shown(bytes@, max_bytes as int),
{
    if bytes.len() <= max_bytes {
        decode_lossy(bytes)
    } else {
        let mut out = decode_lossy(slice_subrange(bytes, 0, max_bytes));
        out.append(TRUNCATED);
        out
    }
}

// ---------------------------------------------------------------------------
// Listing
// ---------------------------------------------------------------------------

/// How an entry of a directory is listed: a directory with a slash behind its name.
pub open spec fn listed_name(entry: (Seq<char>, bool)) -> Seq<char> {
    if entry.1 {
        entry.0 + "/"@
    } else {
        entry.0
    }
}

/// How the entries of a directory are listed.
pub open spec fn listed_names(entries: Seq<(Seq<char>, bool)>) -> Seq<Seq<char>> {
    entries.map_values(|e: (Seq<char>, bool)| listed_name(e))
}

/// The listing: the names in order, one on each line.
pub open spec fn listing(entries: Seq<(Seq<char>, bool)>, out: Seq<char>) -> bool {
    exists|names: Seq<Seq<char>>|
        #![trigger text::strung_with(names, "\n"@)]
        table::in_order(names) && names.to_multiset() == listed_names(entries).to_multiset() && out
            == text::strung_with(names, "\n"@)
}

/// What is shown of a directory with the given entries, each with whether it is a
/// directory.
pub fn list_dir(entries: &Vec<(String, bool)>) -> (r: String)
    ensures
        listing(ledger::entry_views(entries@), r@),
{
    let ghost all = listed_names(ledger::entry_views(entries@));
    let mut names: Vec<String> = Vec::new();
    let mut i: usize = 0;
    while i < entries.len()
        invariant
            i <= entries@.len(),
            names@.len() == i,
            all == listed_names(ledger::entry_views(entries@)),
            forall|k: int| 0 <= k < i ==> (#[trigger] names@[k])@ == all[k],
        decreases entries@.len() - i,
    {
        let mut name = entries[i].0.clone();
        if entries[i].1 {
            name.append("/");
        }
        names.push(name);
        i = i + 1;
    }
    assert(text::texts(names@) =~= all);
    let sorted = sort_texts(names);
    string_with(sorted.as_slice(), "\n")
}

// ---------------------------------------------------------------------------
// Searching
// ---------------------------------------------------------------------------

/// The arguments of the search program.
pub open spec fn search_arguments(pattern: Seq<char>, glob: Option<Seq<char>>) -> Seq<Seq<char>> {
    let start = seq!["-n"@, "--no-heading"@, "-e"@, pattern];
    match glob {
        Some(g) => start + seq!["--glob"@, g, "."@],
        None => start + seq!["."@],
    }
}

/// The arguments of the search program: line numbers, no headings, the pattern, and the
/// glob if there is one.
pub fn search_args(pattern: &str, glob: Option<&str>) -> (r: Vec<String>)
    ensures
        text::texts(r@) == search_arguments(
            pattern@,
            match glob {
                Some(g) => Some(g@),
                None => None,
            },
        ),
{
    match glob {
        Some(g) => {
            let args = ["-n", "--no-heading", "-e", pattern, "--glob", g, "."];
            assert(text::words(args@) =~= search_arguments(pattern@, Some(g@)));
            own_words(&args)
        },
        None => {
            let args = ["-n", "--no-heading", "-e", pattern, "."];
            assert(text::words(args@) =~= search_arguments(pattern@, None));
            own_words(&args)
        },
    }
}

/// What is shown of what a search found, cut at a number of lines.
pub open spec fn found(success: bool, output: Seq<char>, max_lines: int) -> Seq<char> {
    if !success {
        "no matches"@
    } else if text::lines(output).len() <= max_lines {
        output
    } else {
        text::strung_with(text::lines(output).take(max_lines), "\n"@) + TRUNCATED@
    }
}

/// What is shown of a search that ended so.
pub fn search(success: bool, stdout: &[u8], max_lines: usize) -> (r: String)
    ensures
        r@ == found(success, text::lossy_text(stdout@), max_lines as int),
{
    if !success {
        return "no matches".to_owned();
    }
    let output = decode_lossy(stdout);
    first_lines(output.as_str(), max_lines)
}

/// A text, cut at a number of lines.
pub fn first_lines(output: &str, max_lines: usize) -> (r: String)
    ensures
        r@ == found(true, output@, max_lines as int),
{
    let mut lines = lines_of(output);
    let ghost all = text::texts(lines@);
    if lines.len() <= max_lines {
        return output.to_owned();
    }
    lines.truncate(max_lines);
    assert(text::texts(lines@) =~= all.take(max_lines as int));
    let mut out = string_with(lines.as_slice(), "\n");
    out.append(TRUNCATED);
    out
}

// ---------------------------------------------------------------------------
// Editing
// ---------------------------------------------------------------------------

/// What an edit made of a file.
#[derive(Debug, PartialEq)]
pub struct EditOutcome {
    pub path: String,
    pub before: String,
    pub after: String,
}

/// Why an edit is refused.
#[derive(Debug, Clone, Copy, PartialEq, Eq, Structural)]
pub enum EditError {
    /// The text that is to be replaced does not stand in the file.
    NotFound,
}

/// What an edit makes of a text: all of it is written anew where nothing is to be
/// replaced; the first occurrence is replaced otherwise, and there has to be one.
pub open spec fn edited(before: Seq<char>, old_string: Seq<char>, new_string: Seq<char>) -> Result<
    Seq<char>,
    EditError,
> {
    if old_string.len() == 0 {
        Ok(new_string)
    } else if !text::occurs(before, old_string) {
        Err(EditError::NotFound)
    } else {
        Ok(text::replaced_once(before, old_string, new_string))
    }
}

/// How an outcome names the file: by its path below the root of the jail, or as it was
/// asked for where it does not lie there.
pub open spec fn shown_path(root: Seq<Seq<char>>, full: Seq<char>, path: Seq<char>) -> Seq<char> {
    if text::begins(jail::steps(full), root) {
        jail::relative_text(jail::steps(full).skip(root.len() as int))
    } else {
        path
    }
}

/// What an edit makes of a file: `full` is what the path resolved to, `before` what the
/// file holds.
pub fn edit_file(
    jail: &Jail,
    path: &str,
    full: &str,
    before: &str,
    old_string: &str,
    new_string: &str,
) -> (r: Result<EditOutcome, EditError>)
    ensures
        match edited(before@, old_string@, new_string@) {
            Ok(after) => r is Ok && r->Ok_0.after@ == after && r->Ok_0.before@ == before@
                && r->Ok_0.path@ == shown_path(jail@, full@, path@),
            Err(e) => r is Err && r->Err_0 == e,
        },
{
    let after = if chars_of(old_string).len() == 0 {
        new_string.to_owned()
    } else {
        match replace_once(before, old_string, new_string) {
            Some(after) => after,
            None => {
                return Err(EditError::NotFound);
            },
        }
    };
    let shown = match jail.relative(full) {
        Some(p) => p,
        None => path.to_owned(),
    };
    Ok(EditOutcome { path: shown, before: before.to_owned(), after })
}

// ---------------------------------------------------------------------------
// Laws
// ---------------------------------------------------------------------------

/// A full write leaves what was written, whatever was there.
pub proof fn full_write_replaces_all(before: Seq<char>, new_string: Seq<char>)
    ensures
        edited(before, Seq::empty(), new_string) == Ok::<Seq<char>, EditError>(new_string),
{
}

/// An edit changes nothing but the first occurrence.
pub proof fn edit_changes_one_place(
    before: Seq<char>,
    old_string: Seq<char>,
    new_string: Seq<char>,
    at: int,
)
    requires
        old_string.len() > 0,
        text::first_at(before, old_string) == Some(at),
    ensures
        edited(before, old_string, new_string) == Ok::<Seq<char>, EditError>(
            before.take(at) + new_string + before.skip(at + old_string.len()),
        ),
        before == before.take(at) + old_string + before.skip(at + old_string.len()),
{
    text::lemma_first_from(before, old_string, 0);
    text::lemma_first_at_occurs(before, old_string);
    let again = before.take(at) + old_string + before.skip(at + old_string.len());
    assert(before.subrange(at, at + old_string.len()) == old_string);
    assert forall|i: int| 0 <= i < before.len() implies before[i] == again[i] by {
        if at <= i < at + old_string.len() {
            assert(before.subrange(at, at + old_string.len())[i - at] == old_string[i - at]);
        }
    }
    assert(before =~= again);
}

/// A file within the cap is shown whole; of a longer one the first bytes are shown, and
/// that something is missing is said.
pub proof fn long_files_are_cut(kept: Seq<u8>, more: Seq<u8>)
    ensures
        shown(kept, kept.len() as int) == text::lossy_text(kept),
        more.len() > 0 ==> shown(kept + more, kept.len() as int) == text::lossy_text(kept)
            + "\n[truncated]"@,
        shown(kept, (kept.len() + more.len()) as int) == text::lossy_text(kept),
{
    if more.len() > 0 {
        assert((kept + more).subrange(0, kept.len() as int) =~= kept);
    }
}

/// A directory is listed with a slash behind its name, anything else by its name, each once
/// for each time that it is there.
pub proof fn entries_are_listed_by_name(entries: Seq<(Seq<char>, bool)>, i: int)
    requires
        0 <= i < entries.len(),
    ensures
        listed_names(entries).len() == entries.len(),
        entries[i].1 ==> listed_names(entries)[i] == entries[i].0.push('/'),
        !entries[i].1 ==> listed_names(entries)[i] == entries[i].0,
{
    reveal_strlit("/");
    assert(entries[i].0 + "/"@ =~= entries[i].0.push('/'));
}

/// A listing of one entry is its name; an empty directory has an empty listing.
pub proof fn single_entry_is_its_listing(name: Seq<char>, out: Seq<char>)
    ensures
        listing(seq![(name, false)], out) <==> out == name,
        listing(Seq::empty(), out) <==> out.len() == 0,
{
    broadcast use vstd::seq_lib::group_to_multiset_ensures;

    let one = listed_names(seq![(name, false)]);
    let none = listed_names(Seq::empty());
    assert(one =~= seq![name]);
    assert(none =~= Seq::<Seq<char>>::empty());
    if listing(seq![(name, false)], out) {
        let names = choose|names: Seq<Seq<char>>|
            #![trigger text::strung_with(names, "\n"@)]
            table::in_order(names) && names.to_multiset() == one.to_multiset() && out
                == text::strung_with(names, "\n"@);
        assert(names.len() == names.to_multiset().len());
        assert(one.len() == one.to_multiset().len());
        assert(names.len() == 1);
        assert(names.to_multiset().count(names[0]) > 0) by {
            assert(names.contains(names[0]));
        }
        assert(one.contains(names[0]));
        assert(names[0] == name);
    }
    if out == name {
        assert(out == text::strung_with(one, "\n"@));
        assert(table::in_order(one));
    }
    if listing(Seq::empty(), out) {
        let names = choose|names: Seq<Seq<char>>|
            #![trigger text::strung_with(names, "\n"@)]
            table::in_order(names) && names.to_multiset() == none.to_multiset() && out
                == text::strung_with(names, "\n"@);
        assert(names.len() == names.to_multiset().len());
        assert(none.len() == none.to_multiset().len());
        assert(names.len() == 0);
    }
    if out.len() == 0 {
        assert(out =~= text::strung_with(none, "\n"@));
        assert(table::in_order(none));
    }
}

/// A search looks for the pattern that is asked for, in the files that the glob names where
/// there is one, from the root of the workspace on, and tells the numbers of lines.
pub proof fn searches_look_for_the_pattern(pattern: Seq<char>, glob: Seq<char>)
    ensures
        search_arguments(pattern, None) == seq!["-n"@, "--no-heading"@, "-e"@, pattern, "."@],
        search_arguments(pattern, Some(glob)) == seq![
            "-n"@,
            "--no-heading"@,
            "-e"@,
            pattern,
            "--glob"@,
            glob,
            "."@,
        ],
{
    assert(search_arguments(pattern, None) =~= seq![
        "-n"@,
        "--no-heading"@,
        "-e"@,
        pattern,
        "."@,
    ]);
    assert(search_arguments(pattern, Some(glob)) =~= seq![
        "-n"@,
        "--no-heading"@,
        "-e"@,
        pattern,
        "--glob"@,
        glob,
        "."@,
    ]);
}

/// What a search found is shown whole up to the cap of lines; of more, the first lines are
/// shown, and that something is missing is said. A search that found nothing says so.
pub proof fn long_findings_are_cut(output: Seq<char>, max_lines: int)
    requires
        0 <= max_lines,
    ensures
        found(false, output, max_lines) == "no matches"@,
        text::lines(output).len() <= max_lines ==> found(true, output, max_lines) == output,
        text::lines(output).len() > max_lines ==> text::ends(
            found(true, output, max_lines),
            "\n[truncated]"@,
        ),
        text::lines(output).len() > max_lines ==> found(true, output, max_lines)
            == text::strung_with(text::lines(output).subrange(0, max_lines), "\n"@)
            + "\n[truncated]"@,
{
    if text::lines(output).len() > max_lines {
        let all = found(true, output, max_lines);
        let mark = "\n[truncated]"@;
        reveal_strlit("\n[truncated]");
        assert(text::lines(output).take(max_lines) =~= text::lines(output).subrange(0, max_lines));
        assert(all.subrange(all.len() - mark.len(), all.len() as int) =~= mark);
    }
}

/// An edit that has nothing to replace is refused, and one that replaces a text by itself
/// changes nothing.
pub proof fn edits_need_their_place(before: Seq<char>, old_string: Seq<char>)
    requires
        old_string.len() > 0,
    ensures
        !text::occurs(before, old_string) <==> edited(before, old_string, before) is Err,
        text::occurs(before, old_string) ==> edited(before, old_string, old_string) == Ok::<
            Seq<char>,
            EditError,
        >(before),
{
    text::lemma_first_at_occurs(before, old_string);
    if text::occurs(before, old_string) {
        let at = text::first_at(before, old_string)->0;
        text::lemma_first_from(before, old_string, 0);
        edit_changes_one_place(before, old_string, old_string, at);
    }
}

/// A file below the root goes by its path from there on, any other as it was asked for.
pub proof fn files_go_by_their_path_below_the_root(
    root: Seq<Seq<char>>,
    below: Seq<Seq<char>>,
    full: Seq<char>,
    path: Seq<char>,
)
    ensures
        jail::steps(full) == root + below ==> shown_path(root, full, path)
            == jail::relative_text(below),
        !text::begins(jail::steps(full), root) ==> shown_path(root, full, path) == path,
{
    if jail::steps(full) == root + below {
        assert((root + below).subrange(0, root.len() as int) =~= root);
        assert((root + below).skip(root.len() as int) =~= below);
    }
}

/// Every entry of a directory stands in its listing.
pub proof fn every_entry_stands_in_the_listing(
    entries: Seq<(Seq<char>, bool)>,
    out: Seq<char>,
    i: int,
)
    requires
        listing(entries, out),
        0 <= i < entries.len(),
    ensures
        text::occurs(
            out,
            if entries[i].1 {
                entries[i].0.push('/')
            } else {
                entries[i].0
            },
        ),
{
    broadcast use vstd::seq_lib::group_to_multiset_ensures;

    entries_are_listed_by_name(entries, i);
    let all = listed_names(entries);
    let names = choose|names: Seq<Seq<char>>|
        #![trigger text::strung_with(names, "\n"@)]
        table::in_order(names) && names.to_multiset() == all.to_multiset() && out
            == text::strung_with(names, "\n"@);
    assert(all.contains(all[i]));
    assert(all.to_multiset().count(all[i]) > 0);
    assert(names.contains(all[i]));
    let k = choose|k: int| 0 <= k < names.len() && names[k] == all[i];
    lemma_stands_in_the_string(names, "\n"@, k);
}

proof fn lemma_stands_in_the_string(items: Seq<Seq<char>>, separator: Seq<char>, k: int)
    requires
        0 <= k < items.len(),
    ensures
        text::occurs(text::strung_with(items, separator), items[k]),
    decreases items.len(),
{
    let all = text::strung_with(items, separator);
    let item = items[k];
    if items.len() == 1 {
        assert(all.subrange(0, item.len() as int) =~= item);
        assert(text::occurs_at(all, item, 0));
    } else if k == items.len() - 1 {
        let at = all.len() - item.len();
        assert(all.subrange(at, at + item.len()) =~= item);
        assert(text::occurs_at(all, item, at));
    } else {
        lemma_stands_in_the_string(items.drop_last(), separator, k);
        let before = text::strung_with(items.drop_last(), separator);
        assert(items.drop_last()[k] == item);
        let at = choose|at: int| text::occurs_at(before, item, at);
        assert(all.subrange(at, at + item.len()) =~= before.subrange(at, at + item.len()));
        assert(text::occurs_at(all, item, at));
    }
}

/// Two entries are listed in the order of their names, one on each line.
pub proof fn entries_are_listed_in_order(a: Seq<char>, b: Seq<char>, out: Seq<char>)
    requires
        table::before(a, b),
    ensures
        listing(seq![(b, false), (a, false)], out) <==> out == a + seq!['\n'] + b,
        listing(seq![(a, false), (b, false)], out) <==> out == a + seq!['\n'] + b,
{
    broadcast use vstd::seq_lib::group_to_multiset_ensures;

    reveal_strlit("\n");
    assert("\n"@ =~= seq!['\n']);
    let one = listed_names(seq![(a, false), (b, false)]);
    let two = listed_names(seq![(b, false), (a, false)]);
    let sorted = seq![a, b];
    assert(one =~= sorted);
    assert(two =~= seq![b, a]);
    table::before_is_irreflexive(a);
    assert(a != b);
    assert(sorted.drop_last() =~= seq![a]);
    text::separator_stands_between(seq![a], a, "\n"@);
    assert(text::strung_with(seq![a], "\n"@) == a);
    text::separator_stands_between(seq![a], b, "\n"@);
    assert(sorted =~= seq![a].push(b));
    assert(text::strung_with(sorted, "\n"@) =~= a + seq!['\n'] + b);
    lemma_two_in_order(a, b);
    assert(one.to_multiset() =~= two.to_multiset()) by {
        lemma_pair_multiset(a, b);
        lemma_pair_multiset(b, a);
    }
    if out == a + seq!['\n'] + b {
        assert(table::in_order(sorted) && sorted.to_multiset() == one.to_multiset() && out
            == text::strung_with(sorted, "\n"@));
        assert(table::in_order(sorted) && sorted.to_multiset() == two.to_multiset() && out
            == text::strung_with(sorted, "\n"@));
    }
    if listing(seq![(a, false), (b, false)], out) {
        let names = choose|names: Seq<Seq<char>>|
            #![trigger text::strung_with(names, "\n"@)]
            table::in_order(names) && names.to_multiset() == one.to_multiset() && out
                == text::strung_with(names, "\n"@);
        lemma_pair_is_sorted(names, a, b);
    }
    if listing(seq![(b, false), (a, false)], out) {
        let names = choose|names: Seq<Seq<char>>|
            #![trigger text::strung_with(names, "\n"@)]
            table::in_order(names) && names.to_multiset() == two.to_multiset() && out
                == text::strung_with(names, "\n"@);
        lemma_pair_is_sorted(names, a, b);
    }
}

proof fn lemma_two_in_order(a: Seq<char>, b: Seq<char>)
    requires
        table::before(a, b),
    ensures
        table::in_order(seq![a, b]),
{
    let pair = seq![a, b];
    if table::before(b, a) {
        table::before_is_transitive(a, b, a);
        table::before_is_irreflexive(a);
    }
    assert forall|i: int, j: int| 0 <= i < j < pair.len() implies !table::before(
        pair[j],
        pair[i],
    ) by {
        assert(i == 0 && j == 1);
    }
}

proof fn lemma_pair_multiset(a: Seq<char>, b: Seq<char>)
    ensures
        seq![a, b].to_multiset() == vstd::multiset::Multiset::<Seq<char>>::empty().insert(
            a,
        ).insert(b),
{
    broadcast use vstd::seq_lib::group_to_multiset_ensures;

    let none = Seq::<Seq<char>>::empty();
    assert(seq![a, b] =~= none.push(a).push(b));
    assert(none.to_multiset() =~= vstd::multiset::Multiset::<Seq<char>>::empty());
}

proof fn lemma_pair_is_sorted(names: Seq<Seq<char>>, a: Seq<char>, b: Seq<char>)
    requires
        table::before(a, b),
        a != b,
        table::in_order(names),
        names.to_multiset() == seq![a, b].to_multiset(),
    ensures
        names == seq![a, b],
{
    broadcast use vstd::seq_lib::group_to_multiset_ensures;

    let pair = seq![a, b];
    assert(names.len() == names.to_multiset().len());
    assert(pair.len() == pair.to_multiset().len());
    assert(names.len() == 2);
    assert(pair[0] == a && pair[1] == b);
    assert(pair.contains(a) && pair.contains(b));
    assert(pair.to_multiset().count(a) > 0 && pair.to_multiset().count(b) > 0);
    assert(names.to_multiset().count(a) > 0 && names.to_multiset().count(b) > 0);
    assert(names.contains(a) && names.contains(b));
    let i = choose|i: int| 0 <= i < names.len() && names[i] == a;
    let j = choose|j: int| 0 <= j < names.len() && names[j] == b;
    assert(i != j);
    if i == 1 {
        assert(j == 0);
        assert(!table::before(names[1], names[0]));
    }
    assert(names =~= pair);
}

} // verus!
