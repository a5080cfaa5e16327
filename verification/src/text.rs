//! Texts as sequences of characters: search, replacement, trimming, lines.

use vstd::prelude::*;
use vstd::string::*;
use vstd::utf8::*;

verus! {

// ---------------------------------------------------------------------------
// Between texts and characters
// ---------------------------------------------------------------------------

/// `String::push`: appends one character.
pub assume_specification[ std::string::String::push ](s: &mut String, c: char)
    ensures
        final(s)@ == old(s)@.push(c),
;

/// Whether two texts are the same.
pub fn same(a: &str, b: &str) -> (r: bool)
    ensures
        r == (a@ == b@),
{
    a.to_owned() == b.to_owned()
}

/// The characters of a text.
pub fn chars_of(s: &str) -> (r: Vec<char>)
    ensures
        r@ == s@,
{
    let mut out: Vec<char> = Vec::new();
    for c in it: s.chars()
        invariant
            out@ == it.seq().take(it.index()),
            it.seq() == s@,
    {
        out.push(c);
        assert(it.seq().take(it.index() + 1) =~= it.seq().take(it.index()).push(c));
    }
    assert(s@.take(s@.len() as int) =~= s@);
    out
}

/// The text made of characters `from` up to, and without, `to`.
pub fn string_between(chars: &[char], from: usize, to: usize) -> (r: String)
    requires
        from <= to <= chars@.len(),
    ensures
        r@ == chars@.subrange(from as int, to as int),
{
    let mut out = String::new();
    let mut i: usize = from;
    while i < to
        invariant
            from <= i <= to <= chars@.len(),
            out@ == chars@.subrange(from as int, i as int),
        decreases to - i,
    {
        out.push(chars[i]);
        i = i + 1;
        assert(chars@.subrange(from as int, i as int) =~= chars@.subrange(
            from as int,
            i - 1,
        ).push(chars@[i - 1]));
    }
    out
}

/// What a sequence of texts holds.
pub open spec fn texts(items: Seq<String>) -> Seq<Seq<char>> {
    Seq::new(items.len(), |i: int| items[i]@)
}

/// A second copy of a sequence of texts.
pub fn copy_texts(items: &Vec<String>) -> (r: Vec<String>)
    ensures
        texts(r@) == texts(items@),
{
    let mut out: Vec<String> = Vec::new();
    let mut i: usize = 0;
    while i < items.len()
        invariant
            i <= items@.len(),
            out@.len() == i,
            forall|k: int| 0 <= k < i ==> (#[trigger] out@[k])@ == items@[k]@,
        decreases items@.len() - i,
    {
        out.push(items[i].as_str().to_owned());
        i = i + 1;
    }
    assert(texts(out@) =~= texts(items@));
    out
}

/// Whether a text is among others.
pub fn listed(items: &[String], text: &str) -> (r: bool)
    ensures
        r == texts(items@).contains(text@),
{
    let mut i: usize = 0;
    while i < items.len()
        invariant
            i <= items@.len(),
            forall|k: int| 0 <= k < i ==> (#[trigger] items@[k])@ != text@,
        decreases items@.len() - i,
    {
        if same(items[i].as_str(), text) {
            assert(texts(items@)[i as int] == text@);
            return true;
        }
        i = i + 1;
    }
    assert forall|k: int| 0 <= k < texts(items@).len() implies texts(items@)[k] != text@ by {
        assert(items@[k]@ != text@);
    }
    false
}

/// Whether a character stands in a text.
pub fn has_char(text: &str, c: char) -> (r: bool)
    ensures
        r == text@.contains(c),
{
    let t = chars_of(text);
    let mut i: usize = 0;
    while i < t.len()
        invariant
            i <= t@.len(),
            t@ == text@,
            forall|k: int| 0 <= k < i ==> t@[k] != c,
        decreases t@.len() - i,
    {
        if t[i] == c {
            assert(text@[i as int] == c);
            return true;
        }
        i = i + 1;
    }
    false
}

// ---------------------------------------------------------------------------
// Occurrences
// ---------------------------------------------------------------------------

/// The pattern stands in the text at position `at`.
pub open spec fn occurs_at<A>(text: Seq<A>, pattern: Seq<A>, at: int) -> bool {
    &&& 0 <= at
    &&& at + pattern.len() <= text.len()
    &&& text.subrange(at, at + pattern.len()) == pattern
}

/// The pattern stands somewhere in the text.
pub open spec fn occurs<A>(text: Seq<A>, pattern: Seq<A>) -> bool {
    exists|at: int| occurs_at(text, pattern, at)
}

/// The first position from `from` on at which the pattern stands in the text.
pub open spec fn first_from<A>(text: Seq<A>, pattern: Seq<A>, from: int) -> Option<int>
    decreases text.len() + 1 - from,
{
    if from < 0 || from + pattern.len() > text.len() {
        None
    } else if occurs_at(text, pattern, from) {
        Some(from)
    } else {
        first_from(text, pattern, from + 1)
    }
}

/// The first position at which the pattern stands in the text.
pub open spec fn first_at<A>(text: Seq<A>, pattern: Seq<A>) -> Option<int> {
    first_from(text, pattern, 0)
}

/// What the first position is: the pattern stands there and nowhere before.
pub proof fn lemma_first_from<A>(text: Seq<A>, pattern: Seq<A>, from: int)
    requires
        0 <= from,
    ensures
        match first_from(text, pattern, from) {
            Some(at) => from <= at && occurs_at(text, pattern, at) && (forall|k: int|
                from <= k < at ==> !occurs_at(text, pattern, k)),
            None => forall|k: int| from <= k ==> !occurs_at(text, pattern, k),
        },
    decreases text.len() + 1 - from,
{
    if from + pattern.len() > text.len() {
    } else if occurs_at(text, pattern, from) {
    } else {
        lemma_first_from(text, pattern, from + 1);
    }
}

/// A position with the pattern at it and none before is the first one.
pub proof fn lemma_first_from_is<A>(text: Seq<A>, pattern: Seq<A>, from: int, at: int)
    requires
        0 <= from <= at,
        occurs_at(text, pattern, at),
        forall|k: int| from <= k < at ==> !occurs_at(text, pattern, k),
    ensures
        first_from(text, pattern, from) == Some(at),
{
    lemma_first_from(text, pattern, from);
}

/// A text holds a pattern where it has a first position for it.
pub proof fn lemma_first_at_occurs<A>(text: Seq<A>, pattern: Seq<A>)
    ensures
        first_at(text, pattern) is Some <==> occurs(text, pattern),
{
    lemma_first_from(text, pattern, 0);
    if occurs(text, pattern) {
        let at = choose|at: int| occurs_at(text, pattern, at);
        assert(occurs_at(text, pattern, at));
    }
}

/// Whether the pattern stands in the text at a position.
pub fn stands_at(text: &[char], pattern: &[char], at: usize) -> (r: bool)
    ensures
        r == occurs_at(text@, pattern@, at as int),
{
    if at > text.len() || text.len() - at < pattern.len() {
        return false;
    }
    let mut i: usize = 0;
    while i < pattern.len()
        invariant
            i <= pattern@.len(),
            text@.len() <= usize::MAX,
            at + pattern@.len() <= text@.len(),
            forall|k: int| 0 <= k < i ==> text@[at + k] == pattern@[k],
        decreases pattern@.len() - i,
    {
        if text[at + i] != pattern[i] {
            assert(text@.subrange(at as int, at + pattern@.len())[i as int] != pattern@[i as int]);
            return false;
        }
        i = i + 1;
    }
    assert(text@.subrange(at as int, at + pattern@.len()) =~= pattern@);
    true
}

/// The first position from `from` on at which the pattern stands in the text.
pub fn find_from(text: &[char], pattern: &[char], from: usize) -> (r: Option<usize>)
    ensures
        match r {
            Some(at) => first_from(text@, pattern@, from as int) == Some(at as int),
            None => first_from(text@, pattern@, from as int) is None,
        },
{
    if from > text.len() {
        return None;
    }
    let mut i: usize = from;
    while text.len() - i >= pattern.len()
        invariant
            from <= i <= text@.len(),
            first_from(text@, pattern@, from as int) == first_from(text@, pattern@, i as int),
        decreases text@.len() - i,
    {
        if stands_at(text, pattern, i) {
            return Some(i);
        }
        if i == text.len() {
            assert(first_from(text@, pattern@, i + 1) is None);
            return None;
        }
        i = i + 1;
    }
    None
}

/// Whether the pattern stands somewhere in the text.
pub fn holds(text: &str, pattern: &str) -> (r: bool)
    ensures
        r == occurs(text@, pattern@),
{
    let t = chars_of(text);
    let p = chars_of(pattern);
    proof {
        lemma_first_at_occurs(text@, pattern@);
    }
    find_from(t.as_slice(), p.as_slice(), 0).is_some()
}

/// The text begins with the pattern.
pub open spec fn begins<A>(text: Seq<A>, pattern: Seq<A>) -> bool {
    occurs_at(text, pattern, 0)
}

/// The text ends with the pattern.
pub open spec fn ends<A>(text: Seq<A>, pattern: Seq<A>) -> bool {
    occurs_at(text, pattern, text.len() - pattern.len())
}

/// Whether the text begins with the pattern.
pub fn starts(text: &str, pattern: &str) -> (r: bool)
    ensures
        r == begins(text@, pattern@),
{
    let t = chars_of(text);
    let p = chars_of(pattern);
    stands_at(t.as_slice(), p.as_slice(), 0)
}

/// Whether the text ends with the pattern.
pub fn finishes(text: &str, pattern: &str) -> (r: bool)
    ensures
        r == ends(text@, pattern@),
{
    let t = chars_of(text);
    let p = chars_of(pattern);
    if t.len() < p.len() {
        return false;
    }
    stands_at(t.as_slice(), p.as_slice(), t.len() - p.len())
}

// ---------------------------------------------------------------------------
// Replacement
// ---------------------------------------------------------------------------

/// The text with every occurrence of the pattern replaced, from the left on, no two of
/// them overlapping. An empty pattern stands nowhere.
pub open spec fn replaced(text: Seq<char>, pattern: Seq<char>, by: Seq<char>) -> Seq<char>
    decreases text.len(),
{
    match first_at(text, pattern) {
        Some(at) if pattern.len() > 0 && 0 <= at && at + pattern.len() <= text.len() => {
            text.take(at) + by + replaced(text.skip(at + pattern.len()), pattern, by)
        },
        _ => text,
    }
}

/// The text with the first occurrence of the pattern replaced.
pub open spec fn replaced_once(text: Seq<char>, pattern: Seq<char>, by: Seq<char>) -> Seq<char> {
    match first_at(text, pattern) {
        Some(at) => text.take(at) + by + text.skip(at + pattern.len()),
        None => text,
    }
}

/// Where a text is cut, the first position in what is left is the first position from
/// the cut on, moved by the cut.
pub proof fn lemma_first_in_rest<A>(text: Seq<A>, pattern: Seq<A>, cut: int, from: int)
    requires
        0 <= cut <= text.len(),
        0 <= from,
    ensures
        match first_from(text.skip(cut), pattern, from) {
            Some(at) => first_from(text, pattern, cut + from) == Some(cut + at),
            None => first_from(text, pattern, cut + from) is None,
        },
    decreases text.len() + 1 - cut - from,
{
    let rest = text.skip(cut);
    if from + pattern.len() > rest.len() {
    } else {
        assert(rest.subrange(from, from + pattern.len()) =~= text.subrange(
            cut + from,
            cut + from + pattern.len(),
        ));
        if !occurs_at(rest, pattern, from) {
            lemma_first_in_rest(text, pattern, cut, from + 1);
        }
    }
}

/// Appends characters `from` up to, and without, `to`.
pub fn append_between(out: &mut String, chars: &[char], from: usize, to: usize)
    requires
        from <= to <= chars@.len(),
    ensures
        final(out)@ == old(out)@ + chars@.subrange(from as int, to as int),
{
    let piece = string_between(chars, from, to);
    out.append(piece.as_str());
}

/// The text with every occurrence of the pattern replaced, from the left on.
pub fn replace_all(text: &str, pattern: &str, by: &str) -> (r: String)
    ensures
        r@ == replaced(text@, pattern@, by@),
{
    let t = chars_of(text);
    let p = chars_of(pattern);
    if p.len() == 0 {
        return text.to_owned();
    }
    let mut out = String::new();
    let mut done: usize = 0;
    let n = t.len();
    assert(t@.skip(0) =~= t@);
    loop
        invariant
            t@ == text@,
            n == t@.len(),
            p@ == pattern@,
            p@.len() > 0,
            done <= t@.len(),
            out@ + replaced(t@.skip(done as int), pattern@, by@) == replaced(text@, pattern@, by@),
        ensures
            out@ + t@.skip(done as int) == replaced(text@, pattern@, by@),
            t@ == text@,
            n == t@.len(),
            done <= t@.len(),
        decreases t@.len() - done,
    {
        proof {
            lemma_first_in_rest(t@, p@, done as int, 0);
            lemma_first_from(t@, p@, done as int);
        }
        match find_from(t.as_slice(), p.as_slice(), done) {
            Some(at) => {
                let ghost before = out@;
                let ghost rest = t@.skip(done as int);
                append_between(&mut out, t.as_slice(), done, at);
                out.append(by);
                proof {
                    assert(rest.take(at - done) =~= t@.subrange(done as int, at as int));
                    assert(rest.skip(at - done + p@.len()) =~= t@.skip(at + p@.len()));
                    assert(before + replaced(rest, pattern@, by@) =~= out@ + replaced(
                        t@.skip(at + p@.len()),
                        pattern@,
                        by@,
                    ));
                }
                done = at + p.len();
            },
            None => {
                break;
            },
        }
    }
    append_between(&mut out, t.as_slice(), done, n);
    assert(t@.subrange(done as int, t@.len() as int) =~= t@.skip(done as int));
    out
}

/// The text with the first occurrence of the pattern replaced, or `None` where the
/// pattern stands nowhere.
pub fn replace_once(text: &str, pattern: &str, by: &str) -> (r: Option<String>)
    ensures
        r is Some <==> occurs(text@, pattern@),
        r is Some ==> r->0@ == replaced_once(text@, pattern@, by@),
{
    let t = chars_of(text);
    let p = chars_of(pattern);
    proof {
        lemma_first_at_occurs(text@, pattern@);
        lemma_first_from(text@, pattern@, 0);
    }
    match find_from(t.as_slice(), p.as_slice(), 0) {
        Some(at) => {
            let mut out = string_between(t.as_slice(), 0, at);
            out.append(by);
            let n = t.len();
            append_between(&mut out, t.as_slice(), at + p.len(), n);
            assert(t@.subrange(0, at as int) =~= t@.take(at as int));
            assert(t@.subrange(at + p@.len(), t@.len() as int) =~= t@.skip(at + p@.len()));
            Some(out)
        },
        None => None,
    }
}

// ---------------------------------------------------------------------------
// Separators and lines
// ---------------------------------------------------------------------------

/// How many elements stand before the first `stop`; all of them where there is none.
pub open spec fn upto<A>(s: Seq<A>, stop: A) -> nat
    decreases s.len(),
{
    if s.len() == 0 || s[0] == stop {
        0
    } else {
        1 + upto(s.drop_first(), stop)
    }
}

/// The pieces that the separator cuts a sequence into, empty ones too.
pub open spec fn pieces<A>(s: Seq<A>, separator: A) -> Seq<Seq<A>>
    decreases s.len(),
{
    let n = upto(s, separator);
    if n >= s.len() {
        seq![s]
    } else {
        seq![s.take(n as int)] + pieces(s.skip(n as int + 1), separator)
    }
}

/// What `upto` counts.
pub proof fn lemma_upto<A>(s: Seq<A>, stop: A)
    ensures
        upto(s, stop) <= s.len(),
        forall|i: int| 0 <= i < upto(s, stop) ==> s[i] != stop,
        upto(s, stop) < s.len() ==> s[upto(s, stop) as int] == stop,
    decreases s.len(),
{
    if s.len() == 0 || s[0] == stop {
    } else {
        lemma_upto(s.drop_first(), stop);
        assert forall|i: int| 0 <= i < upto(s, stop) implies s[i] != stop by {
            if i > 0 {
                assert(s.drop_first()[i - 1] != stop);
            }
        }
    }
}

/// A position that holds `stop`, with none before it, is what `upto` counts.
pub proof fn lemma_upto_is<A>(s: Seq<A>, stop: A, n: int)
    requires
        0 <= n <= s.len(),
        forall|i: int| 0 <= i < n ==> s[i] != stop,
        n < s.len() ==> s[n] == stop,
    ensures
        upto(s, stop) == n,
{
    lemma_upto(s, stop);
}

/// The first position from `from` on that holds `stop`, or the length.
pub fn stop_from(chars: &[char], stop: char, from: usize) -> (r: usize)
    requires
        from <= chars@.len(),
    ensures
        r == from + upto(chars@.skip(from as int), stop),
        from <= r <= chars@.len(),
{
    let mut i: usize = from;
    while i < chars.len() && chars[i] != stop
        invariant
            from <= i <= chars@.len(),
            forall|k: int| from <= k < i ==> chars@[k] != stop,
        decreases chars@.len() - i,
    {
        i = i + 1;
    }
    proof {
        let rest = chars@.skip(from as int);
        assert forall|k: int| 0 <= k < i - from implies rest[k] != stop by {
            assert(rest[k] == chars@[from + k]);
        }
        lemma_upto_is(rest, stop, i - from);
    }
    i
}

/// The pieces that the separator cuts a text into, empty ones too.
pub fn split_on(text: &str, separator: char) -> (r: Vec<String>)
    ensures
        texts(r@) == pieces(text@, separator),
{
    let t = chars_of(text);
    let mut out: Vec<String> = Vec::new();
    let mut from: usize = 0;
    assert(t@.skip(0) =~= t@);
    assert(texts(out@) + pieces(t@, separator) =~= pieces(text@, separator));
    loop
        invariant
            t@ == text@,
            from <= t@.len(),
            texts(out@) + pieces(t@.skip(from as int), separator) == pieces(text@, separator),
        decreases t@.len() - from,
    {
        let to = stop_from(t.as_slice(), separator, from);
        let ghost rest = t@.skip(from as int);
        let ghost seen = texts(out@);
        assert(rest.take(to - from) =~= t@.subrange(from as int, to as int));
        let piece = string_between(t.as_slice(), from, to);
        out.push(piece);
        assert(texts(out@) =~= seen.push(piece@));
        if to == t.len() {
            assert(rest.take(to - from) =~= rest);
            assert(texts(out@) =~= seen + seq![rest]);
            return out;
        }
        proof {
            assert(rest.skip(to - from + 1) =~= t@.skip(to + 1));
            assert(seen + pieces(rest, separator) =~= texts(out@) + pieces(
                t@.skip(to + 1),
                separator,
            ));
        }
        from = to + 1;
    }
}

/// A line without the carriage return that may end it.
pub open spec fn without_return(line: Seq<char>) -> Seq<char> {
    if line.len() > 0 && line.last() == '\r' {
        line.drop_last()
    } else {
        line
    }
}

/// The lines of a text. A line ends with a line feed, which a carriage return may
/// stand before; the last line needs no ending.
pub open spec fn lines(text: Seq<char>) -> Seq<Seq<char>>
    decreases text.len(),
{
    let n = upto(text, '\n');
    if text.len() == 0 {
        Seq::empty()
    } else if n >= text.len() {
        seq![text]
    } else {
        seq![without_return(text.take(n as int))] + lines(text.skip(n as int + 1))
    }
}

/// The lines of a text.
pub fn lines_of(text: &str) -> (r: Vec<String>)
    ensures
        texts(r@) == lines(text@),
{
    let t = chars_of(text);
    let mut out: Vec<String> = Vec::new();
    let mut from: usize = 0;
    assert(t@.skip(0) =~= t@);
    assert(texts(out@) + lines(t@) =~= lines(text@));
    while from < t.len()
        invariant
            t@ == text@,
            from <= t@.len(),
            texts(out@) + lines(t@.skip(from as int)) == lines(text@),
        decreases t@.len() - from,
    {
        let to = stop_from(t.as_slice(), '\n', from);
        let ghost rest = t@.skip(from as int);
        let ghost seen = texts(out@);
        assert(rest.take(to - from) =~= t@.subrange(from as int, to as int));
        if to == t.len() {
            let piece = string_between(t.as_slice(), from, to);
            out.push(piece);
            assert(rest.take(to - from) =~= rest);
            assert(texts(out@) =~= seen + seq![rest]);
            return out;
        }
        let end = if to > from && t[to - 1] == '\r' {
            to - 1
        } else {
            to
        };
        let piece = string_between(t.as_slice(), from, end);
        out.push(piece);
        proof {
            assert(piece@ =~= without_return(rest.take(to - from)));
            assert(texts(out@) =~= seen.push(piece@));
            assert(rest.skip(to - from + 1) =~= t@.skip(to + 1));
            assert(seen + lines(rest) =~= texts(out@) + lines(t@.skip(to + 1)));
        }
        from = to + 1;
    }
    assert(t@.skip(from as int).len() == 0);
    assert(texts(out@) + lines(t@.skip(from as int)) =~= texts(out@));
    out
}

// ---------------------------------------------------------------------------
// White space
// ---------------------------------------------------------------------------

/// The characters with the Unicode property `White_Space`.
pub open spec fn white(c: char) -> bool {
    ||| 0x9 <= c <= 0xd
    ||| c == 0x20
    ||| c == 0x85
    ||| c == 0xa0
    ||| c == 0x1680
    ||| 0x2000 <= c <= 0x200a
    ||| c == 0x2028
    ||| c == 0x2029
    ||| c == 0x202f
    ||| c == 0x205f
    ||| c == 0x3000
}

/// Whether a character is white space.
pub fn is_white(c: char) -> (r: bool)
    ensures
        r == white(c),
{
    let n: u32 = c as u32;
    (0x9 <= n && n <= 0xd) || n == 0x20 || n == 0x85 || n == 0xa0 || n == 0x1680 || (0x2000 <= n
        && n <= 0x200a) || n == 0x2028 || n == 0x2029 || n == 0x202f || n == 0x205f || n == 0x3000
}

/// A text without the white space that begins it.
pub open spec fn trim_start(text: Seq<char>) -> Seq<char>
    decreases text.len(),
{
    if text.len() > 0 && white(text[0]) {
        trim_start(text.drop_first())
    } else {
        text
    }
}

/// A text without the white space that ends it.
pub open spec fn trim_end(text: Seq<char>) -> Seq<char>
    decreases text.len(),
{
    if text.len() > 0 && white(text.last()) {
        trim_end(text.drop_last())
    } else {
        text
    }
}

/// A text without the white space around it.
pub open spec fn trimmed(text: Seq<char>) -> Seq<char> {
    trim_end(trim_start(text))
}

/// A text without the white space around it.
pub fn trim(text: &str) -> (r: String)
    ensures
        r@ == trimmed(text@),
{
    let t = chars_of(text);
    let mut from: usize = 0;
    assert(t@.skip(0) =~= t@);
    while from < t.len() && is_white(t[from])
        invariant
            from <= t@.len(),
            trim_start(t@.skip(from as int)) == trim_start(t@),
        decreases t@.len() - from,
    {
        assert(t@.skip(from as int).drop_first() =~= t@.skip(from + 1));
        from = from + 1;
    }
    let mut to: usize = t.len();
    assert(t@.subrange(from as int, to as int) =~= t@.skip(from as int));
    while to > from && is_white(t[to - 1])
        invariant
            from <= to <= t@.len(),
            trim_end(t@.subrange(from as int, to as int)) == trim_end(trim_start(t@)),
        decreases to,
    {
        assert(t@.subrange(from as int, to as int).drop_last() =~= t@.subrange(
            from as int,
            to - 1,
        ));
        to = to - 1;
    }
    string_between(t.as_slice(), from, to)
}

// ---------------------------------------------------------------------------
// Numbers in decimal
// ---------------------------------------------------------------------------

/// The character of a decimal digit.
pub open spec fn digit(d: nat) -> char {
    (48 + d) as char
}

/// A number in decimal, without leading zeros.
pub open spec fn decimal(n: nat) -> Seq<char>
    decreases n,
{
    if n < 10 {
        seq![digit(n)]
    } else {
        decimal(n / 10).push(digit(n % 10))
    }
}

/// A number in decimal.
pub fn decimal_of(n: u64) -> (r: String)
    ensures
        r@ == decimal(n as nat),
    decreases n,
{
    let d: u8 = (n % 10) as u8;
    let c: char = (48u8 + d) as char;
    if n < 10 {
        let mut out = String::new();
        out.push(c);
        assert(out@ =~= seq![digit(n as nat)]);
        out
    } else {
        let mut out = decimal_of(n / 10);
        out.push(c);
        out
    }
}

// ---------------------------------------------------------------------------
// Letter case and encoding, from std
// ---------------------------------------------------------------------------

/// What `str::to_lowercase` makes of a text.
pub uninterp spec fn lowercase(text: Seq<char>) -> Seq<char>;

/// What `str::to_uppercase` makes of a text.
pub uninterp spec fn uppercase(text: Seq<char>) -> Seq<char>;

/// What `String::from_utf8_lossy` makes of bytes.
pub uninterp spec fn lossy_text(bytes: Seq<u8>) -> Seq<char>;

/// The small letter of an ASCII capital; any other character as it is.
pub open spec fn ascii_lower(c: char) -> char {
    if 'A' <= c <= 'Z' {
        (c as int + 32) as char
    } else {
        c
    }
}

/// The capital of a small ASCII letter; any other character as it is.
pub open spec fn ascii_upper(c: char) -> char {
    if 'a' <= c <= 'z' {
        (c as int - 32) as char
    } else {
        c
    }
}

/// Calls `str::to_lowercase`. The claims: the result is a function of the text, and a
/// text of ASCII characters has each capital replaced by its small letter. What it does
/// to other characters is left to Unicode.
#[verifier::external_body]
pub(crate) fn to_lower(text: &str) -> (r: String)
    ensures
        r@ == lowercase(text@),
        is_ascii_chars(text@) ==> r@ == Seq::new(text@.len(), |i: int| ascii_lower(text@[i])),
{
    text.to_lowercase()
}

/// Calls `str::to_uppercase`. The claims: the result is a function of the text, and a
/// text of ASCII characters has each small letter replaced by its capital. What it does
/// to other characters is left to Unicode.
#[verifier::external_body]
pub(crate) fn to_upper(text: &str) -> (r: String)
    ensures
        r@ == uppercase(text@),
        is_ascii_chars(text@) ==> r@ == Seq::new(text@.len(), |i: int| ascii_upper(text@[i])),
{
    text.to_uppercase()
}

/// Calls `String::from_utf8_lossy`. The claims: the result is a function of the bytes,
/// and bytes that are UTF-8 are decoded. What stands in for other bytes is left to std.
#[verifier::external_body]
pub(crate) fn decode_lossy(bytes: &[u8]) -> (r: String)
    ensures
        r@ == lossy_text(bytes@),
        valid_utf8(bytes@) ==> r@ == decode_utf8(bytes@),
{
    String::from_utf8_lossy(bytes).into_owned()
}

// ---------------------------------------------------------------------------
// Lists of texts
// ---------------------------------------------------------------------------

/// The texts strung together, with the separator between them.
pub open spec fn strung_with(items: Seq<Seq<char>>, separator: Seq<char>) -> Seq<char>
    decreases items.len(),
{
    if items.len() == 0 {
        Seq::empty()
    } else if items.len() == 1 {
        items[0]
    } else {
        strung_with(items.drop_last(), separator) + separator + items.last()
    }
}

/// Strings texts together, with the separator between them.
pub fn string_with(items: &[String], separator: &str) -> (r: String)
    ensures
        r@ == strung_with(texts(items@), separator@),
{
    let ghost all = texts(items@);
    if items.len() == 0 {
        return String::new();
    }
    let mut out = items[0].clone();
    let mut i: usize = 1;
    assert(all.take(1)[0] == items@[0]@);
    while i < items.len()
        invariant
            1 <= i <= items@.len(),
            all == texts(items@),
            out@ == strung_with(all.take(i as int), separator@),
        decreases items@.len() - i,
    {
        out.append(separator);
        out.append(items[i].as_str());
        proof {
            assert(all.take(i + 1).drop_last() =~= all.take(i as int));
            assert(all.take(i + 1).last() == items@[i as int]@);
        }
        i = i + 1;
    }
    assert(all.take(i as int) =~= all);
    out
}

/// What a sequence of words holds.
pub open spec fn words(items: Seq<&str>) -> Seq<Seq<char>> {
    Seq::new(items.len(), |i: int| items[i]@)
}

/// The words as texts of their own.
pub fn own_words(items: &[&str]) -> (r: Vec<String>)
    ensures
        texts(r@) == words(items@),
{
    let mut out: Vec<String> = Vec::new();
    let mut i: usize = 0;
    while i < items.len()
        invariant
            i <= items@.len(),
            out@.len() == i,
            forall|k: int| 0 <= k < i ==> (#[trigger] out@[k])@ == items@[k]@,
        decreases items@.len() - i,
    {
        out.push(items[i].to_owned());
        i = i + 1;
    }
    assert(texts(out@) =~= words(items@));
    out
}

// ---------------------------------------------------------------------------
// Cutting at a number of bytes
// ---------------------------------------------------------------------------

/// The part of a text that its first bytes encode.
pub open spec fn first_bytes(text: Seq<char>, cap: int) -> Seq<char> {
    decode_utf8(encode_utf8(text).subrange(0, cap))
}

/// The text has no more bytes than the cap, or can be cut there: no character's bytes
/// stand on both sides.
pub open spec fn can_cap(text: Seq<char>, cap: int) -> bool {
    encode_utf8(text).len() <= cap || is_char_boundary(encode_utf8(text), cap)
}

/// How many bytes a text takes.
pub fn byte_len(text: &str) -> (r: usize)
    ensures
        r == encode_utf8(text@).len(),
{
    text.as_bytes().len()
}

/// Whether a text has no more bytes than the cap, or can be cut there.
pub fn caps_cleanly(text: &str, cap: usize) -> (r: bool)
    ensures
        r == can_cap(text@, cap as int),
{
    byte_len(text) <= cap || text.is_char_boundary(cap)
}

/// The part of a text that its first bytes encode.
pub fn cut_bytes(text: &str, cap: usize) -> (r: String)
    requires
        is_char_boundary(encode_utf8(text@), cap as int),
    ensures
        r@ == first_bytes(text@, cap as int),
{
    let (head, _tail) = text.split_at(cap);
    proof {
        encode_utf8_decode_utf8(head@);
    }
    head.to_owned()
}

/// What is left of a text that is cut at a number of bytes is how the text begins.
pub proof fn cut_text_is_a_beginning(text: Seq<char>, cap: int)
    requires
        is_char_boundary(encode_utf8(text), cap),
    ensures
        begins(text, first_bytes(text, cap)),
{
    let bytes = encode_utf8(text);
    encode_utf8_valid_utf8(text);
    encode_utf8_decode_utf8(text);
    decode_utf8_split(bytes, cap);
    let head = first_bytes(text, cap);
    let tail = decode_utf8(bytes.subrange(cap, bytes.len() as int));
    assert(text =~= head + tail);
    assert(text.subrange(0, head.len() as int) =~= head);
}

/// What a text is cut to has just the bytes that the text is cut to.
pub proof fn lemma_cut_text_has_the_bytes(text: Seq<char>, cap: int)
    requires
        is_char_boundary(encode_utf8(text), cap),
    ensures
        encode_utf8(first_bytes(text, cap)) == encode_utf8(text).subrange(0, cap),
{
    let bytes = encode_utf8(text);
    encode_utf8_valid_utf8(text);
    valid_utf8_split(bytes, cap);
    decode_utf8_encode_utf8(bytes.subrange(0, cap));
}

/// Different numbers read differently in decimal.
pub proof fn numbers_are_told_apart(a: nat, b: nat)
    requires
        decimal(a) == decimal(b),
    ensures
        a == b,
    decreases a,
{
    lemma_decimal_ends(a);
    lemma_decimal_ends(b);
    let s = decimal(a);
    let x = (48 + a % 10) as u32;
    let y = (48 + b % 10) as u32;
    assert(digit(a % 10) as u32 == x);
    assert(digit(b % 10) as u32 == y);
    assert(a % 10 == b % 10);
    if a >= 10 && b >= 10 {
        assert(decimal(a / 10) =~= s.drop_last());
        assert(decimal(b / 10) =~= s.drop_last());
        numbers_are_told_apart(a / 10, b / 10);
    } else if a >= 10 {
        lemma_decimal_ends(a / 10);
        assert(decimal(b).len() == 1);
        assert(decimal(a).len() >= 2);
    } else if b >= 10 {
        lemma_decimal_ends(b / 10);
        assert(decimal(a).len() == 1);
        assert(decimal(b).len() >= 2);
    }
}

proof fn lemma_decimal_ends(n: nat)
    ensures
        decimal(n).len() > 0,
        decimal(n).last() == digit(n % 10),
    decreases n,
{
    if n >= 10 {
        lemma_decimal_ends(n / 10);
    }
}

/// Replacing goes from the left to the right: what stands before the first occurrence
/// stays, the occurrence gives way to the replacement, and what stands behind it is dealt
/// with in the same way; a text without an occurrence stays.
pub proof fn replacing_goes_on_behind(
    before: Seq<char>,
    pattern: Seq<char>,
    behind: Seq<char>,
    by: Seq<char>,
)
    requires
        pattern.len() > 0,
        forall|at: int|
            0 <= at < before.len() ==> !occurs_at(before + pattern + behind, pattern, at),
    ensures
        replaced(before + pattern + behind, pattern, by) == before + by + replaced(
            behind,
            pattern,
            by,
        ),
        replaced_once(before + pattern + behind, pattern, by) == before + by + behind,
        !occurs(behind, pattern) ==> replaced(behind, pattern, by) == behind,
{
    let all = before + pattern + behind;
    let n = before.len() as int;
    assert(all.subrange(n, n + pattern.len()) =~= pattern);
    lemma_first_from_is(all, pattern, 0, n);
    assert(all.take(n) =~= before);
    assert(all.skip(n + pattern.len()) =~= behind);
    lemma_first_at_occurs(behind, pattern);
}

/// A separator cuts: what stands before the first one is a piece, and what stands behind it
/// is cut in the same way; without a separator there is one piece.
pub proof fn separators_cut<A>(head: Seq<A>, separator: A, behind: Seq<A>)
    requires
        !head.contains(separator),
    ensures
        pieces(head + seq![separator] + behind, separator) == seq![head] + pieces(
            behind,
            separator,
        ),
        pieces(head, separator) == seq![head],
{
    let all = head + seq![separator] + behind;
    let n = head.len() as int;
    assert forall|i: int| 0 <= i < n implies all[i] != separator by {
        assert(head.contains(head[i]));
        assert(all[i] == head[i]);
    }
    assert forall|i: int| 0 <= i < n implies head[i] != separator by {
        assert(head.contains(head[i]));
    }
    lemma_upto_is(all, separator, n);
    lemma_upto_is(head, separator, n);
    assert(all.take(n) =~= head);
    assert(all.skip(n + 1) =~= behind);
}

/// A line feed ends a line; a carriage return before it belongs to the ending. What stands
/// behind the last line feed is a line where there is anything.
pub proof fn line_feeds_end_lines(line: Seq<char>, behind: Seq<char>)
    requires
        !line.contains('\n'),
    ensures
        lines(line + seq!['\n'] + behind) == seq![
            if line.len() > 0 && line.last() == '\r' {
                line.drop_last()
            } else {
                line
            },
        ] + lines(behind),
        line.len() > 0 ==> lines(line) == seq![line],
        lines(Seq::empty()).len() == 0,
{
    let all = line + seq!['\n'] + behind;
    let n = line.len() as int;
    assert forall|i: int| 0 <= i < n implies all[i] != '\n' by {
        assert(line.contains(line[i]));
        assert(all[i] == line[i]);
    }
    assert forall|i: int| 0 <= i < n implies line[i] != '\n' by {
        assert(line.contains(line[i]));
    }
    lemma_upto_is(all, '\n', n);
    lemma_upto_is(line, '\n', n);
    assert(all.take(n) =~= line);
    assert(all.skip(n + 1) =~= behind);
}

/// White space is what Unicode calls so: blanks, tabs and line ends among it, letters,
/// digits and signs not.
pub proof fn white_space_is_what_it_is_called(c: char)
    ensures
        white(' ') && white('\t') && white('\n') && white('\r'),
        'a' <= c <= 'z' || 'A' <= c <= 'Z' || '0' <= c <= '9' ==> !white(c),
        '!' <= c <= '~' ==> !white(c),
        white(c) ==> c as u32 <= 0x3000,
        white(c) && c as u32 > 0xa0 ==> c as u32 >= 0x1680,
{
}

/// Trimming takes the white space around a text away and nothing else.
pub proof fn trimming_takes_what_is_around(start: Seq<char>, inner: Seq<char>, end: Seq<char>)
    requires
        forall|i: int| 0 <= i < start.len() ==> white(#[trigger] start[i]),
        forall|i: int| 0 <= i < end.len() ==> white(#[trigger] end[i]),
        inner.len() > 0 ==> !white(inner[0]) && !white(inner.last()),
    ensures
        trimmed(start + inner + end) == inner,
{
    let all = start + inner + end;
    lemma_trim_start(start, inner + end);
    assert(all =~= start + (inner + end));
    if inner.len() > 0 {
        assert((inner + end)[0] == inner[0]);
        assert(trim_start(inner + end) == inner + end);
        lemma_trim_end(inner, end);
    } else {
        assert(inner + end =~= end);
        lemma_trim_start(end, Seq::empty());
        assert(end + Seq::<char>::empty() =~= end);
        assert(trim_start(Seq::<char>::empty()) =~= Seq::<char>::empty());
        assert(trim_end(Seq::<char>::empty()) =~= inner);
    }
}

proof fn lemma_trim_start(start: Seq<char>, rest: Seq<char>)
    requires
        forall|i: int| 0 <= i < start.len() ==> white(#[trigger] start[i]),
    ensures
        trim_start(start + rest) == trim_start(rest),
    decreases start.len(),
{
    let all = start + rest;
    if start.len() == 0 {
        assert(all =~= rest);
    } else {
        assert(white(start[0]));
        assert(all[0] == start[0]);
        let fewer = start.drop_first();
        assert forall|i: int| 0 <= i < fewer.len() implies white(#[trigger] fewer[i]) by {
            assert(fewer[i] == start[i + 1]);
        }
        assert(all.drop_first() =~= fewer + rest);
        lemma_trim_start(fewer, rest);
    }
}

proof fn lemma_trim_end(inner: Seq<char>, end: Seq<char>)
    requires
        forall|i: int| 0 <= i < end.len() ==> white(#[trigger] end[i]),
        inner.len() > 0,
        !white(inner.last()),
    ensures
        trim_end(inner + end) == inner,
    decreases end.len(),
{
    let all = inner + end;
    if end.len() == 0 {
        assert(all =~= inner);
    } else {
        assert(white(end[end.len() - 1]));
        assert(all.last() == end[end.len() - 1]);
        let fewer = end.drop_last();
        assert forall|i: int| 0 <= i < fewer.len() implies white(#[trigger] fewer[i]) by {
            assert(fewer[i] == end[i]);
        }
        assert(all.drop_last() =~= inner + fewer);
        lemma_trim_end(inner, fewer);
    }
}

/// A number reads digit by digit: one more digit makes ten times the number and the digit.
pub proof fn numbers_read_digit_by_digit(n: nat, d: nat)
    requires
        d < 10,
    ensures
        n > 0 ==> decimal(10 * n + d) == decimal(n).push(digit(d)),
        decimal(d) == seq![digit(d)],
        digit(0) == '0' && digit(1) == '1' && digit(2) == '2' && digit(3) == '3' && digit(4) == '4',
        digit(5) == '5' && digit(6) == '6' && digit(7) == '7' && digit(8) == '8' && digit(9) == '9',
{
    assert((10 * n + d) / 10 == n && (10 * n + d) % 10 == d);
}

/// A capital and its small letter stand 32 places apart, and nothing else is changed.
pub proof fn letters_change_case_only(c: char)
    ensures
        'A' <= c <= 'Z' ==> ascii_lower(c) as u32 == c as u32 + 32 && ascii_upper(ascii_lower(c))
            == c,
        'a' <= c <= 'z' ==> ascii_upper(c) as u32 + 32 == c as u32 && ascii_lower(ascii_upper(c))
            == c,
        !('A' <= c <= 'Z') ==> ascii_lower(c) == c,
        !('a' <= c <= 'z') ==> ascii_upper(c) == c,
{
}

/// Texts are strung together in their order, with the separator between two of them and
/// nowhere else.
pub proof fn separator_stands_between(
    items: Seq<Seq<char>>,
    item: Seq<char>,
    separator: Seq<char>,
)
    ensures
        strung_with(Seq::empty(), separator).len() == 0,
        strung_with(seq![item], separator) == item,
        items.len() > 0 ==> strung_with(items.push(item), separator) == strung_with(
            items,
            separator,
        ) + separator + item,
{
    assert(items.push(item).drop_last() =~= items);
}

/// Texts hold what their strings hold, each in its place.
pub proof fn texts_hold_what_the_strings_hold(items: Seq<String>, i: int)
    requires
        0 <= i < items.len(),
    ensures
        texts(items).len() == items.len(),
        texts(items)[i] == items[i]@,
{
}

} // verus!
