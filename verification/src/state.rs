//! What the daemon keeps on disk: where, under which token, and of which session.

use crate::gateway;
use crate::jail::{self, join};
use crate::json::{self, print_json, Fields, Json, Numeral, Tree};
use crate::text::{self, chars_of, trim};
use vstd::prelude::*;
use vstd::string::*;

verus! {

// ---------------------------------------------------------------------------
// Places
// ---------------------------------------------------------------------------

/// The state directory: the one that is asked for, or else one below the home directory.
pub open spec fn state_dir_of(asked: Option<Seq<char>>, home: Option<Seq<char>>) -> Seq<char> {
    match asked {
        Some(dir) => dir,
        None => jail::joined(
            match home {
                Some(h) => h,
                None => "/"@,
            },
            ".local/share/forge-composer"@,
        ),
    }
}

/// The state directory, given `FORGE_COMPOSER_STATE_DIR` and `HOME`, where they are set.
pub fn state_dir(asked: Option<String>, home: Option<String>) -> (r: String)
    ensures
        r@ == state_dir_of(gateway::optional(asked), gateway::optional(home)),
{
    match asked {
        Some(dir) => dir,
        None => {
            let base = match home {
                Some(h) => h,
                None => "/".to_owned(),
            };
            join(base.as_str(), ".local/share/forge-composer")
        },
    }
}

/// Where the metadata of a session lies.
pub open spec fn meta_path_of(state_dir: Seq<char>, session: Seq<char>) -> Seq<char> {
    jail::joined(jail::joined(jail::joined(state_dir, "sessions"@), session), "meta.json"@)
}

/// Where the metadata of a session lies.
pub fn meta_path(state_dir: &str, session: &str) -> (r: String)
    ensures
        r@ == meta_path_of(state_dir@, session@),
{
    let sessions = join(state_dir, "sessions");
    let dir = join(sessions.as_str(), session);
    join(dir.as_str(), "meta.json")
}

/// What tells clients where the daemon listens: `{"pid":N,"port":N}`.
pub fn daemon_json(port: u16, pid: u32) -> (r: String)
    ensures
        r@ == json::printed_tree(
            Tree::Object(
                json::no_fields().push(("pid"@, Tree::Number(Numeral::Unsigned(pid as u64)))).push(
                    ("port"@, Tree::Number(Numeral::Unsigned(port as u64))),
                ),
            ),
        ),
{
    print_json(
        &Fields::new().with("pid", Json::of_u64(pid as u64)).with(
            "port",
            Json::of_u64(port as u64),
        ).object(),
    )
}

// ---------------------------------------------------------------------------
// The token
// ---------------------------------------------------------------------------

/// The character of a hexadecimal digit.
pub open spec fn hex_digit(d: int) -> char {
    if d < 10 {
        (48 + d) as char
    } else {
        (87 + d) as char
    }
}

/// A lower-case hexadecimal digit.
pub open spec fn is_hex(c: char) -> bool {
    '0' <= c <= '9' || 'a' <= c <= 'f'
}

/// Bytes in hexadecimal, two digits each.
pub open spec fn hex_of(bytes: Seq<u8>) -> Seq<char>
    decreases bytes.len(),
{
    if bytes.len() == 0 {
        Seq::empty()
    } else {
        hex_of(bytes.drop_last()).push(hex_digit(bytes.last() as int / 16)).push(
            hex_digit(bytes.last() as int % 16),
        )
    }
}

fn digit_of(d: u8) -> (r: char)
    requires
        d < 16,
    ensures
        r == hex_digit(d as int),
{
    if d < 10 {
        (48 + d) as char
    } else {
        (87 + d) as char
    }
}

/// Bytes in hexadecimal, two digits each.
pub fn hex(bytes: &[u8]) -> (r: String)
    ensures
        r@ == hex_of(bytes@),
{
    let mut out = String::new();
    let mut i: usize = 0;
    assert(bytes@.take(0) =~= Seq::<u8>::empty());
    while i < bytes.len()
        invariant
            i <= bytes@.len(),
            out@ == hex_of(bytes@.take(i as int)),
        decreases bytes@.len() - i,
    {
        proof {
            assert(bytes@.take(i + 1).drop_last() =~= bytes@.take(i as int));
            assert(bytes@.take(i + 1).last() == bytes@[i as int]);
        }
        out.push(digit_of(bytes[i] / 16));
        out.push(digit_of(bytes[i] % 16));
        i = i + 1;
    }
    assert(bytes@.take(i as int) =~= bytes@);
    out
}

/// Calls `fill_bytes` of the generator that `rand::rng` gives. The claim: as many bytes as
/// were asked for come back; which ones is left to chance. (No vector can hold more than
/// `isize::MAX` bytes.)
#[verifier::external_body]
fn random_bytes(n: usize) -> (r: Vec<u8>)
    requires
        n <= isize::MAX,
    ensures
        r@.len() == n,
{
    let mut bytes = vec![0u8; n];
    rand::RngCore::fill_bytes(&mut rand::rng(), &mut bytes);
    bytes
}

/// A fresh token: 64 hexadecimal characters.
pub fn random_hex_token() -> (r: String)
    ensures
        r@.len() == 64,
        forall|i: int| 0 <= i < 64 ==> is_hex(#[trigger] r@[i]),
{
    let bytes = random_bytes(32);
    proof {
        hex_has_two_digits_a_byte(bytes@);
    }
    hex(bytes.as_slice())
}

/// The token that a token file holds, without white space around it; `None` where there is
/// no file or nothing in it.
pub open spec fn kept(file: Option<Seq<char>>) -> Option<Seq<char>> {
    match file {
        Some(held) => if text::trimmed(held).len() > 0 {
            Some(text::trimmed(held))
        } else {
            None
        },
        None => None,
    }
}

/// The token that a token file holds.
pub fn kept_token(file: Option<&str>) -> (r: Option<String>)
    ensures
        gateway::optional(r) == kept(
            match file {
                Some(f) => Some(f@),
                None => None,
            },
        ),
{
    match file {
        Some(f) => {
            let held = trim(f);
            if chars_of(held.as_str()).len() > 0 {
                Some(held)
            } else {
                None
            }
        },
        None => None,
    }
}

// ---------------------------------------------------------------------------
// Session metadata
// ---------------------------------------------------------------------------

/// What is kept of a session.
#[derive(Debug, PartialEq)]
pub struct SessionMeta {
    pub workspace: String,
    /// `orchestrator` or `subagent`.
    pub kind: String,
    pub parent: Option<String>,
    /// A role of the configuration.
    pub role: String,
    pub title: Option<String>,
    pub worktree: Option<String>,
}

/// The kind of a session that names none.
pub fn default_kind() -> (r: String)
    ensures
        r@ == "orchestrator"@,
{
    "orchestrator".to_owned()
}

/// The role of a session that names none.
pub fn default_role() -> (r: String)
    ensures
        r@ == "orchestrator"@,
{
    "orchestrator".to_owned()
}

impl SessionMeta {
    /// The path that executors are jailed to: the worktree of a subagent, the workspace of
    /// an orchestrator.
    pub fn jail_root(&self) -> (r: &String)
        ensures
            r@ == match self.worktree {
                Some(w) => w@,
                None => self.workspace@,
            },
    {
        match &self.worktree {
            Some(w) => w,
            None => &self.workspace,
        }
    }

    /// An orchestrator on a bare workspace.
    pub fn orchestrator(workspace: String) -> (r: SessionMeta)
        ensures
            r.workspace@ == workspace@,
            r.kind@ == "orchestrator"@,
            r.parent is None,
            r.role@ == "orchestrator"@,
            r.title is None,
            r.worktree is None,
    {
        SessionMeta {
            workspace,
            kind: default_kind(),
            parent: None,
            role: default_role(),
            title: None,
            worktree: None,
        }
    }
}

// ---------------------------------------------------------------------------
// Laws
// ---------------------------------------------------------------------------

/// Hexadecimal has two digits for each byte, and nothing else.
pub proof fn hex_has_two_digits_a_byte(bytes: Seq<u8>)
    ensures
        hex_of(bytes).len() == 2 * bytes.len(),
        forall|i: int| 0 <= i < hex_of(bytes).len() ==> is_hex(#[trigger] hex_of(bytes)[i]),
    decreases bytes.len(),
{
    if bytes.len() > 0 {
        hex_has_two_digits_a_byte(bytes.drop_last());
        let before = hex_of(bytes.drop_last());
        let all = hex_of(bytes);
        assert forall|i: int| 0 <= i < all.len() implies is_hex(#[trigger] all[i]) by {
            if i < before.len() {
                assert(all[i] == before[i]);
            }
        }
    }
}

/// Different bytes have different digits.
pub proof fn hex_tells_bytes_apart(a: Seq<u8>, b: Seq<u8>)
    requires
        hex_of(a) == hex_of(b),
    ensures
        a == b,
    decreases a.len(),
{
    hex_has_two_digits_a_byte(a);
    hex_has_two_digits_a_byte(b);
    if a.len() > 0 {
        let s = hex_of(a);
        let n = s.len() as int;
        let x = a.last() as int;
        let y = b.last() as int;
        assert(s[n - 1] == hex_digit(x % 16));
        assert(s[n - 1] == hex_digit(y % 16));
        assert(s[n - 2] == hex_digit(x / 16));
        assert(s[n - 2] == hex_digit(y / 16));
        lemma_digit_is_one(x % 16, y % 16);
        lemma_digit_is_one(x / 16, y / 16);
        assert(hex_of(a.drop_last()) =~= s.take(n - 2));
        assert(hex_of(b.drop_last()) =~= s.take(n - 2));
        hex_tells_bytes_apart(a.drop_last(), b.drop_last());
        assert(a =~= a.drop_last().push(a.last()));
        assert(b =~= b.drop_last().push(b.last()));
    } else {
        assert(a =~= b);
    }
}

proof fn lemma_digit_is_one(x: int, y: int)
    requires
        0 <= x < 16,
        0 <= y < 16,
        hex_digit(x) == hex_digit(y),
    ensures
        x == y,
{
    let p = (if x < 10 { 48 + x } else { 87 + x }) as u32;
    let q = (if y < 10 { 48 + y } else { 87 + y }) as u32;
    assert(hex_digit(x) as u32 == p);
    assert(hex_digit(y) as u32 == q);
}

/// A token that was written is kept as it is: asking again gives the identical token.
pub proof fn written_token_is_kept(token: Seq<char>)
    requires
        token.len() > 0,
        forall|i: int| 0 <= i < token.len() ==> is_hex(#[trigger] token[i]),
    ensures
        kept(Some(token)) == Some(token),
{
    assert(is_hex(token[0]));
    assert(is_hex(token[token.len() - 1]));
    assert(!text::white(token[0]));
    assert(!text::white(token[token.len() - 1]));
}

/// The state lies where it is asked to; where nothing is asked, in a fixed place below the
/// home directory.
pub proof fn state_lies_where_it_is_asked(asked: Seq<char>, home: Seq<char>)
    ensures
        forall|h: Option<Seq<char>>| #[trigger] state_dir_of(Some(asked), h) == asked,
        home.len() > 0 && home.last() != '/' ==> state_dir_of(None, Some(home)) == home
            + "/.local/share/forge-composer"@,
        state_dir_of(None, None) == "/.local/share/forge-composer"@,
{
    reveal_strlit("/.local/share/forge-composer");
    reveal_strlit(".local/share/forge-composer");
    reveal_strlit("/");
    let tail = ".local/share/forge-composer"@;
    assert("/.local/share/forge-composer"@ =~= "/"@ + tail);
    assert(tail.subrange(0, 1)[0] == '.');
    assert("/"@[0] == '/');
    assert(!jail::absolute(tail));
    assert(home + "/"@ + tail =~= home + "/.local/share/forge-composer"@);
}

/// The metadata of a session lies in the session's own directory below the state.
pub proof fn metadata_lies_with_its_session(dir: Seq<char>, session: Seq<char>)
    requires
        dir.len() > 0,
        dir.last() != '/',
        session.len() > 0,
        session[0] != '/',
        session.last() != '/',
    ensures
        meta_path_of(dir, session) == dir + "/sessions/"@ + session + "/meta.json"@,
{
    reveal_strlit("/sessions/");
    reveal_strlit("sessions");
    reveal_strlit("/meta.json");
    reveal_strlit("meta.json");
    jail::relative_paths_follow_the_base(dir, "sessions"@);
    let one = dir + seq!['/'] + "sessions"@;
    assert(one.last() == 's');
    jail::relative_paths_follow_the_base(one, session);
    let two = one + seq!['/'] + session;
    assert(two.last() == session.last());
    jail::relative_paths_follow_the_base(two, "meta.json"@);
    assert(two + seq!['/'] + "meta.json"@ =~= dir + "/sessions/"@ + session + "/meta.json"@);
}

/// Each byte is told by two digits, the higher first, and a digit is what it is called.
pub proof fn digits_tell_the_byte(bytes: Seq<u8>, byte: u8)
    ensures
        hex_of(bytes.push(byte)) == hex_of(bytes).push(hex_digit(byte as int / 16)).push(
            hex_digit(byte as int % 16),
        ),
        hex_of(Seq::empty()).len() == 0,
        hex_digit(0) == '0' && hex_digit(1) == '1' && hex_digit(8) == '8' && hex_digit(9) == '9',
        hex_digit(10) == 'a' && hex_digit(11) == 'b' && hex_digit(12) == 'c',
        hex_digit(13) == 'd' && hex_digit(14) == 'e' && hex_digit(15) == 'f',
{
    assert(bytes.push(byte).drop_last() =~= bytes);
}

/// A token is kept without the white space around it; a file with nothing else holds none.
pub proof fn tokens_are_kept_without_white_space(
    start: Seq<char>,
    token: Seq<char>,
    end: Seq<char>,
)
    requires
        forall|i: int| 0 <= i < start.len() ==> text::white(#[trigger] start[i]),
        forall|i: int| 0 <= i < end.len() ==> text::white(#[trigger] end[i]),
        token.len() > 0 ==> !text::white(token[0]) && !text::white(token.last()),
    ensures
        token.len() > 0 ==> kept(Some(start + token + end)) == Some(token),
        token.len() == 0 ==> kept(Some(start + token + end)) is None,
        kept(None) is None,
{
    text::trimming_takes_what_is_around(start, token, end);
}

} // verus!
