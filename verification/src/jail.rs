//! Paths as texts, and the jail that confines tool paths to a workspace.

use crate::text::{self, chars_of, same, split_on, starts};
use vstd::prelude::*;
use vstd::string::*;

verus! {

// ---------------------------------------------------------------------------
// Paths
// ---------------------------------------------------------------------------

/// A path joined to a base: an absolute path replaces the base, any other follows it
/// behind one slash.
pub open spec fn joined(base: Seq<char>, path: Seq<char>) -> Seq<char> {
    if absolute(path) || base.len() == 0 {
        path
    } else if base.last() == '/' {
        base + path
    } else {
        base + "/"@ + path
    }
}

/// A path that starts at the root.
pub open spec fn absolute(path: Seq<char>) -> bool {
    text::begins(path, "/"@)
}

/// Joins a path to a base.
pub fn join(base: &str, path: &str) -> (r: String)
    ensures
        r@ == joined(base@, path@),
{
    let b = chars_of(base);
    if starts(path, "/") || b.len() == 0 {
        return path.to_owned();
    }
    let mut out = base.to_owned();
    if b[b.len() - 1] != '/' {
        out.append("/");
    }
    out.append(path);
    out
}

/// The pieces that name a step: all but the empty ones and `.`.
pub open spec fn meaningful(pieces: Seq<Seq<char>>) -> Seq<Seq<char>>
    decreases pieces.len(),
{
    if pieces.len() == 0 {
        Seq::empty()
    } else if pieces.last().len() == 0 || pieces.last() == "."@ {
        meaningful(pieces.drop_last())
    } else {
        meaningful(pieces.drop_last()).push(pieces.last())
    }
}

/// The steps of a path: the names between its slashes, `..` among them, without empty
/// ones and `.`.
pub open spec fn steps(path: Seq<char>) -> Seq<Seq<char>> {
    meaningful(text::pieces(path, '/'))
}

/// The absolute path with the given steps.
pub open spec fn path_text(steps: Seq<Seq<char>>) -> Seq<char>
    decreases steps.len(),
{
    if steps.len() == 0 {
        "/"@
    } else if steps.len() == 1 {
        "/"@ + steps[0]
    } else {
        path_text(steps.drop_last()) + "/"@ + steps.last()
    }
}

/// The steps of a path.
pub fn steps_of(path: &str) -> (r: Vec<String>)
    ensures
        text::texts(r@) == steps(path@),
{
    let all = split_on(path, '/');
    let ghost cut = text::pieces(path@, '/');
    let mut out: Vec<String> = Vec::new();
    let mut i: usize = 0;
    assert(text::texts(out@) =~= meaningful(cut.take(0)));
    while i < all.len()
        invariant
            i <= all@.len(),
            cut == text::texts(all@),
            text::texts(out@) == meaningful(cut.take(i as int)),
        decreases all@.len() - i,
    {
        let ghost done = text::texts(out@);
        proof {
            assert(cut.take(i + 1).drop_last() =~= cut.take(i as int));
            assert(cut.take(i + 1).last() == all@[i as int]@);
        }
        if chars_of(all[i].as_str()).len() != 0 && !same(all[i].as_str(), ".") {
            out.push(all[i].clone());
            assert(text::texts(out@) =~= done.push(all@[i as int]@));
        }
        i = i + 1;
    }
    assert(cut.take(i as int) =~= cut);
    out
}

/// The absolute path with the given steps.
pub fn path_of(steps: &[String]) -> (r: String)
    ensures
        r@ == path_text(text::texts(steps@)),
{
    let ghost all = text::texts(steps@);
    if steps.len() == 0 {
        return "/".to_owned();
    }
    let mut out = "/".to_owned();
    out.append(steps[0].as_str());
    let mut i: usize = 1;
    assert(all.take(1) =~= seq![all[0]]);
    while i < steps.len()
        invariant
            1 <= i <= steps@.len(),
            all == text::texts(steps@),
            out@ == path_text(all.take(i as int)),
        decreases steps@.len() - i,
    {
        out.append("/");
        out.append(steps[i].as_str());
        proof {
            assert(all.take(i + 1).drop_last() =~= all.take(i as int));
            assert(all.take(i + 1).last() == steps@[i as int]@);
        }
        i = i + 1;
    }
    assert(all.take(i as int) =~= all);
    out
}

// ---------------------------------------------------------------------------
// The jail
// ---------------------------------------------------------------------------

/// Why a path is refused.
#[derive(Debug, Clone, Copy, PartialEq, Eq, Structural)]
pub enum JailError {
    /// The root is no canonical path.
    Root,
    /// The path escapes the workspace jail.
    Escapes,
    /// An ancestor of the path could not be made canonical.
    Canonicalize,
}

/// A canonical workspace root that all tool paths are confined to.
#[derive(Debug)]
pub struct Jail {
    root: Vec<String>,
}

impl View for Jail {
    type V = Seq<Seq<char>>;

    closed spec fn view(&self) -> Seq<Seq<char>> {
        text::texts(self.root@)
    }
}

/// A path in canonical form: absolute and without `..`.
pub open spec fn canonical(path: Seq<char>) -> bool {
    absolute(path) && !steps(path).contains(".."@)
}

/// The steps of a path as seen from the root of a jail: an absolute path stands for
/// itself, any other is taken from the root on.
pub open spec fn seen_from(root: Seq<Seq<char>>, path: Seq<char>) -> Seq<Seq<char>> {
    if absolute(path) {
        steps(path)
    } else {
        root + steps(path)
    }
}

/// The last `missing` steps are names that can be set aside: `..` is none.
pub open spec fn tail_is_named(all: Seq<Seq<char>>, missing: int) -> bool {
    &&& 0 <= missing <= all.len()
    &&& forall|i: int| all.len() - missing <= i < all.len() ==> #[trigger] all[i] != ".."@
}

/// The path that is asked for after `missing` of its ancestors, itself first, were found
/// not to exist.
pub open spec fn ancestor_of(root: Seq<Seq<char>>, path: Seq<char>, missing: int) -> Option<
    Seq<char>,
> {
    let all = seen_from(root, path);
    if tail_is_named(all, missing) {
        Some(path_text(all.take(all.len() - missing)))
    } else {
        None
    }
}

/// What a path resolves to, where its last `missing` steps do not exist and the ancestor
/// before them has the given canonical path.
pub open spec fn resolved(
    root: Seq<Seq<char>>,
    path: Seq<char>,
    missing: int,
    canon: Option<Seq<char>>,
) -> Result<Seq<Seq<char>>, JailError> {
    let all = seen_from(root, path);
    if !tail_is_named(all, missing) {
        Err(JailError::Escapes)
    } else {
        match canon {
            None => Err(JailError::Canonicalize),
            Some(canon) => if !text::begins(steps(canon), root) {
                Err(JailError::Escapes)
            } else {
                Ok(steps(canon) + all.skip(all.len() - missing))
            },
        }
    }
}

/// Whether a `..` stands among the steps from a position on.
fn has_up(steps: &[String], from: usize) -> (r: bool)
    requires
        from <= steps@.len(),
    ensures
        r == exists|i: int| from <= i < steps@.len() && (#[trigger] steps@[i])@ == ".."@,
{
    let mut i: usize = from;
    while i < steps.len()
        invariant
            from <= i <= steps@.len(),
            forall|k: int| from <= k < i ==> (#[trigger] steps@[k])@ != ".."@,
        decreases steps@.len() - i,
    {
        if same(steps[i].as_str(), "..") {
            return true;
        }
        i = i + 1;
    }
    false
}

/// Whether the steps begin with those of the root.
fn steps_start(steps: &[String], root: &[String]) -> (r: bool)
    ensures
        r == text::begins(text::texts(steps@), text::texts(root@)),
{
    let ghost all = text::texts(steps@);
    let ghost top = text::texts(root@);
    if steps.len() < root.len() {
        return false;
    }
    let mut i: usize = 0;
    while i < root.len()
        invariant
            i <= root@.len() <= steps@.len(),
            all == text::texts(steps@),
            top == text::texts(root@),
            forall|k: int| 0 <= k < i ==> all[k] == top[k],
        decreases root@.len() - i,
    {
        if !same(steps[i].as_str(), root[i].as_str()) {
            assert(all.subrange(0, top.len() as int)[i as int] != top[i as int]);
            return false;
        }
        i = i + 1;
    }
    assert(all.subrange(0, top.len() as int) =~= top);
    true
}

impl Jail {
    /// A jail at a root whose canonical path is given.
    pub fn new(root: &str) -> (r: Result<Jail, JailError>)
        ensures
            r is Ok <==> canonical(root@),
            r is Ok ==> r->Ok_0@ == steps(root@),
            r is Err ==> r->Err_0 == JailError::Root,
    {
        let all = steps_of(root);
        let up = has_up(all.as_slice(), 0);
        proof {
            let t = text::texts(all@);
            if up {
                let i = choose|i: int| 0 <= i < all@.len() && (#[trigger] all@[i])@ == ".."@;
                assert(t[i] == ".."@);
            }
            if t.contains(".."@) {
                let i = choose|i: int| 0 <= i < t.len() && t[i] == ".."@;
                assert(all@[i]@ == ".."@);
            }
        }
        if starts(root, "/") && !up {
            Ok(Jail { root: all })
        } else {
            Err(JailError::Root)
        }
    }

    /// The canonical path of the root.
    pub fn root(&self) -> (r: String)
        ensures
            r@ == path_text(self@),
    {
        path_of(self.root.as_slice())
    }

    /// The steps of a path as seen from the root.
    fn seen(&self, path: &str) -> (r: Vec<String>)
        ensures
            text::texts(r@) == seen_from(self@, path@),
    {
        let own = steps_of(path);
        if starts(path, "/") {
            return own;
        }
        let mut all = text::copy_texts(&self.root);
        let ghost top = text::texts(all@);
        let mut i: usize = 0;
        assert(top + text::texts(own@).take(0) =~= top);
        while i < own.len()
            invariant
                i <= own@.len(),
                text::texts(all@) == top + text::texts(own@).take(i as int),
            decreases own@.len() - i,
        {
            let ghost done = text::texts(all@);
            all.push(own[i].clone());
            proof {
                assert(text::texts(all@) =~= done.push(own@[i as int]@));
                assert(text::texts(own@).take(i + 1) =~= text::texts(own@).take(i as int).push(
                    own@[i as int]@,
                ));
                assert(top + text::texts(own@).take(i + 1) =~= done.push(own@[i as int]@));
            }
            i = i + 1;
        }
        assert(text::texts(own@).take(i as int) =~= text::texts(own@));
        all
    }

    /// The path to look for on disk after `missing` of the path's ancestors, itself
    /// first, were found not to exist; `None` where the path escapes the jail because no
    /// ancestor is left or the next step up would undo a `..`.
    pub fn ancestor(&self, path: &str, missing: usize) -> (r: Option<String>)
        ensures
            r is Some <==> ancestor_of(self@, path@, missing as int) is Some,
            r is Some ==> ancestor_of(self@, path@, missing as int) == Some(r->0@),
    {
        let all = self.seen(path);
        let ghost t = text::texts(all@);
        if missing > all.len() {
            return None;
        }
        let kept = all.len() - missing;
        let up = has_up(all.as_slice(), kept);
        proof {
            if up {
                let i = choose|i: int| kept <= i < all@.len() && (#[trigger] all@[i])@ == ".."@;
                assert(t[i] == ".."@);
            } else {
                assert forall|i: int| kept <= i < t.len() implies #[trigger] t[i] != ".."@ by {
                    assert(all@[i]@ != ".."@);
                }
            }
        }
        if up {
            return None;
        }
        let mut top = all;
        top.truncate(kept);
        assert(text::texts(top@) =~= t.take(kept as int));
        Some(path_of(top.as_slice()))
    }

    /// Resolves a path (absolute allowed if inside) to a path that remains within the
    /// jail, where its last `missing` steps do not exist and `canon` is what making the
    /// ancestor before them canonical gave. Symlinks are thereby resolved before the
    /// check; a non-existent leaf inside the jail is permitted.
    pub fn resolve(&self, path: &str, missing: usize, canon: Option<&str>) -> (r: Result<
        String,
        JailError,
    >)
        ensures
            match resolved(
                self@,
                path@,
                missing as int,
                match canon {
                    Some(c) => Some(c@),
                    None => None,
                },
            ) {
                Ok(full) => r is Ok && r->Ok_0@ == path_text(full),
                Err(e) => r is Err && r->Err_0 == e,
            },
    {
        if self.ancestor(path, missing).is_none() {
            return Err(JailError::Escapes);
        }
        let all = self.seen(path);
        let ghost t = text::texts(all@);
        let kept = all.len() - missing;
        let canon = match canon {
            None => {
                return Err(JailError::Canonicalize);
            },
            Some(c) => c,
        };
        let mut full = steps_of(canon);
        if !steps_start(full.as_slice(), self.root.as_slice()) {
            return Err(JailError::Escapes);
        }
        let ghost top = text::texts(full@);
        let mut i: usize = kept;
        assert(top + t.subrange(kept as int, kept as int) =~= top);
        while i < all.len()
            invariant
                kept <= i <= all@.len(),
                t == text::texts(all@),
                text::texts(full@) == top + t.subrange(kept as int, i as int),
            decreases all@.len() - i,
        {
            let ghost done = text::texts(full@);
            full.push(all[i].clone());
            proof {
                assert(text::texts(full@) =~= done.push(all@[i as int]@));
                assert(top + t.subrange(kept as int, i + 1) =~= done.push(t[i as int]));
            }
            i = i + 1;
        }
        assert(t.subrange(kept as int, i as int) =~= t.skip(kept as int));
        Ok(path_of(full.as_slice()))
    }

    /// The part of a path below the root, or `None` where the path is not below it.
    pub fn relative(&self, full: &str) -> (r: Option<String>)
        ensures
            r is Some <==> text::begins(steps(full@), self@),
            r is Some ==> r->0@ == relative_text(steps(full@).skip(self@.len() as int)),
    {
        let all = steps_of(full);
        if !steps_start(all.as_slice(), self.root.as_slice()) {
            return None;
        }
        let ghost rest = steps(full@).skip(self@.len() as int);
        let mut out = String::new();
        let from = self.root.len();
        let mut i: usize = from;
        assert(rest.take(0) =~= Seq::<Seq<char>>::empty());
        assert(out@ =~= relative_text(rest.take(0)));
        while i < all.len()
            invariant
                from == self.root@.len(),
                self@.len() == from,
                from <= i <= all@.len(),
                text::texts(all@) == steps(full@),
                rest == steps(full@).skip(self@.len() as int),
                out@ == relative_text(rest.take(i - from)),
            decreases all@.len() - i,
        {
            proof {
                assert(rest.take(i - from + 1).drop_last() =~= rest.take(i - from));
                assert(rest.take(i - from + 1).last() == steps(full@)[i as int]);
            }
            if i > from {
                out.append("/");
            }
            out.append(all[i].as_str());
            assert(i == from ==> rest.take(1) =~= seq![rest[0]]);
            assert(i == from ==> out@ =~= all@[i as int]@);
            i = i + 1;
        }
        assert(rest.take(i - from) =~= rest);
        Some(out)
    }
}

/// The relative path with the given steps.
pub open spec fn relative_text(steps: Seq<Seq<char>>) -> Seq<char>
    decreases steps.len(),
{
    if steps.len() == 0 {
        Seq::empty()
    } else if steps.len() == 1 {
        steps[0]
    } else {
        relative_text(steps.drop_last()) + "/"@ + steps.last()
    }
}

// ---------------------------------------------------------------------------
// Laws
// ---------------------------------------------------------------------------

/// Steps that a path can have: none is empty, holds a slash or is `.`.
pub open spec fn proper(steps: Seq<Seq<char>>) -> bool {
    forall|i: int|
        0 <= i < steps.len() ==> (#[trigger] steps[i]).len() > 0 && !steps[i].contains('/')
            && steps[i] != "."@
}

/// The steps of any path are such.
pub proof fn steps_are_proper(path: Seq<char>)
    ensures
        proper(steps(path)),
{
    lemma_pieces_hold_no_separator(path);
    lemma_meaningful_is_proper(text::pieces(path, '/'));
}

proof fn lemma_pieces_hold_no_separator(path: Seq<char>)
    ensures
        forall|i: int|
            0 <= i < text::pieces(path, '/').len() ==> !(#[trigger] text::pieces(
                path,
                '/',
            )[i]).contains('/'),
    decreases path.len(),
{
    let n = text::upto(path, '/') as int;
    let all = text::pieces(path, '/');
    text::lemma_upto(path, '/');
    if n < path.len() {
        let rest = text::pieces(path.skip(n + 1), '/');
        lemma_pieces_hold_no_separator(path.skip(n + 1));
        assert forall|i: int| 0 <= i < all.len() implies !(#[trigger] all[i]).contains('/') by {
            if i > 0 {
                assert(all[i] == rest[i - 1]);
            }
        }
    }
}

proof fn lemma_meaningful_is_proper(pieces: Seq<Seq<char>>)
    requires
        forall|i: int| 0 <= i < pieces.len() ==> !(#[trigger] pieces[i]).contains('/'),
    ensures
        proper(meaningful(pieces)),
    decreases pieces.len(),
{
    if pieces.len() > 0 {
        let before = pieces.drop_last();
        assert forall|i: int| 0 <= i < before.len() implies !(#[trigger] before[i]).contains(
            '/',
        ) by {
            assert(before[i] == pieces[i]);
        }
        lemma_meaningful_is_proper(before);
        let last = pieces[pieces.len() - 1];
        assert(!last.contains('/'));
        let some = meaningful(before);
        let all = meaningful(pieces);
        assert forall|i: int| 0 <= i < all.len() implies (#[trigger] all[i]).len() > 0
            && !all[i].contains('/') && all[i] != "."@ by {
            if i < some.len() {
                assert(all[i] == some[i]);
            }
        }
    }
}

/// What stands behind the last separator is the last piece.
proof fn lemma_last_piece(before: Seq<char>, last: Seq<char>)
    requires
        !last.contains('/'),
    ensures
        text::pieces(before + "/"@ + last, '/') == text::pieces(before, '/').push(last),
    decreases before.len(),
{
    reveal_strlit("/");
    let all = before + "/"@ + last;
    let n = text::upto(before, '/') as int;
    text::lemma_upto(before, '/');
    assert forall|i: int| 0 <= i < n implies all[i] != '/' by {
        assert(all[i] == before[i]);
    }
    if n < before.len() {
        assert(all[n] == before[n]);
        text::lemma_upto_is(all, '/', n);
        let rest = before.skip(n + 1);
        lemma_last_piece(rest, last);
        assert(all.take(n) =~= before.take(n));
        assert(all.skip(n + 1) =~= rest + "/"@ + last);
        assert(text::pieces(all, '/') =~= text::pieces(before, '/').push(last));
    } else {
        assert(all[n] == '/');
        text::lemma_upto_is(all, '/', n);
        assert(all.take(n) =~= before);
        assert(all.skip(n + 1) =~= last);
        assert forall|i: int| 0 <= i < last.len() implies last[i] != '/' by {}
        text::lemma_upto_is(last, '/', last.len() as int);
        assert(text::pieces(last, '/') =~= seq![last]);
        assert(text::pieces(before, '/') =~= seq![before]);
        assert(text::pieces(all, '/') =~= seq![before].push(last));
    }
}

/// A path that is written down from its steps has these steps.
pub proof fn written_path_has_its_steps(all: Seq<Seq<char>>)
    requires
        proper(all),
    ensures
        steps(path_text(all)) == all,
        absolute(path_text(all)),
    decreases all.len(),
{
    reveal_strlit("/");
    let none = Seq::<char>::empty();
    text::lemma_upto_is(none, '/', 0);
    assert(text::pieces(none, '/') =~= seq![none]);
    assert(seq![none].drop_last() =~= Seq::<Seq<char>>::empty());
    assert(meaningful(Seq::<Seq<char>>::empty()) =~= Seq::<Seq<char>>::empty());
    assert(meaningful(seq![none]) =~= Seq::<Seq<char>>::empty());
    if all.len() == 0 {
        lemma_last_piece(none, none);
        assert("/"@ =~= none + "/"@ + none);
        let two = seq![none].push(none);
        assert(two.drop_last() =~= seq![none]);
        assert(steps("/"@) =~= all);
        assert("/"@.subrange(0, 1) =~= "/"@);
    } else {
        let before = all.drop_last();
        let last = all.last();
        assert(all[all.len() - 1] == last);
        assert forall|i: int| 0 <= i < before.len() implies (#[trigger] before[i]).len() > 0
            && !before[i].contains('/') && before[i] != "."@ by {
            assert(before[i] == all[i]);
        }
        written_path_has_its_steps(before);
        if all.len() == 1 {
            lemma_last_piece(none, last);
            assert(path_text(all) =~= none + "/"@ + last);
            assert(seq![none].push(last).drop_last() =~= seq![none]);
            assert(steps(path_text(all)) =~= all);
            assert(path_text(all).subrange(0, 1) =~= "/"@);
        } else {
            let start = path_text(before);
            lemma_last_piece(start, last);
            let pieces = text::pieces(start, '/');
            assert(pieces.push(last).drop_last() =~= pieces);
            assert(steps(path_text(all)) =~= all);
            assert(path_text(all).subrange(0, 1) =~= start.subrange(0, 1));
        }
    }
}

/// What a path resolves to lies below the root of the jail, whatever was found on disk: the
/// steps of the resolved path begin with those of the root.
pub proof fn resolved_path_stays_inside(
    root: Seq<Seq<char>>,
    path: Seq<char>,
    missing: int,
    canon: Option<Seq<char>>,
)
    requires
        proper(root),
    ensures
        match resolved(root, path, missing, canon) {
            Ok(full) => text::begins(full, root) && steps(path_text(full)) == full && absolute(
                path_text(full),
            ),
            Err(_) => true,
        },
{
    match resolved(root, path, missing, canon) {
        Ok(full) => {
            let top = steps(canon->0);
            let all = seen_from(root, path);
            assert(full.subrange(0, root.len() as int) =~= top.subrange(0, root.len() as int));
            steps_are_proper(canon->0);
            steps_are_proper(path);
            assert forall|i: int| 0 <= i < full.len() implies (#[trigger] full[i]).len() > 0
                && !full[i].contains('/') && full[i] != "."@ by {
                if i < top.len() {
                    assert(full[i] == top[i]);
                } else {
                    let k = all.len() - missing + (i - top.len());
                    assert(full[i] == all[k]);
                    if !absolute(path) {
                        if k < root.len() {
                            assert(all[k] == root[k]);
                        } else {
                            assert(all[k] == steps(path)[k - root.len()]);
                        }
                    }
                }
            }
            written_path_has_its_steps(full);
        },
        Err(_) => {},
    }
}

/// Where the canonical ancestor has no `..`, neither has what a path resolves to.
pub proof fn resolved_path_climbs_nowhere(
    root: Seq<Seq<char>>,
    path: Seq<char>,
    missing: int,
    canon: Seq<char>,
)
    requires
        canonical(canon),
    ensures
        resolved(root, path, missing, Some(canon)) is Ok ==> !resolved(
            root,
            path,
            missing,
            Some(canon),
        )->Ok_0.contains(".."@),
{
    if resolved(root, path, missing, Some(canon)) is Ok {
        let full = resolved(root, path, missing, Some(canon))->Ok_0;
        let top = steps(canon);
        let all = seen_from(root, path);
        if full.contains(".."@) {
            let i = choose|i: int| 0 <= i < full.len() && full[i] == ".."@;
            if i < top.len() {
                assert(top[i] == ".."@);
                assert(top.contains(".."@));
            } else {
                assert(full[i] == all[all.len() - missing + (i - top.len())]);
            }
        }
    }
}

/// A path whose deepest existing ancestor lies outside the jail is refused.
pub proof fn outside_is_refused(
    root: Seq<Seq<char>>,
    path: Seq<char>,
    missing: int,
    canon: Seq<char>,
)
    requires
        !text::begins(steps(canon), root),
    ensures
        resolved(root, path, missing, Some(canon)) is Err,
{
}

/// A path that does not start at the root follows the base behind one slash.
pub proof fn relative_paths_follow_the_base(base: Seq<char>, path: Seq<char>)
    requires
        base.len() > 0,
        path.len() == 0 || path[0] != '/',
    ensures
        base.last() != '/' ==> joined(base, path) == base + seq!['/'] + path,
        base.last() == '/' ==> joined(base, path) == base + path,
{
    reveal_strlit("/");
    assert("/"@ =~= seq!['/']);
    if path.len() > 0 {
        assert(path.subrange(0, 1)[0] == path[0]);
        assert("/"@[0] == '/');
    }
    assert(!absolute(path));
}

/// A path that starts at the root stands for itself, whatever the base is.
pub proof fn absolute_paths_stand_for_themselves(base: Seq<char>, path: Seq<char>)
    ensures
        joined(base, seq!['/'] + path) == seq!['/'] + path,
        absolute(seq!['/'] + path),
        joined(Seq::empty(), path) == path,
{
    reveal_strlit("/");
    let whole = seq!['/'] + path;
    assert(whole.subrange(0, 1) =~= "/"@);
}

/// A slash parts steps; an empty step and `.` lead nowhere, any other name is a step.
pub proof fn slashes_part_steps(name: Seq<char>, rest: Seq<char>)
    requires
        !name.contains('/'),
    ensures
        name.len() == 0 || name == "."@ ==> steps(name + seq!['/'] + rest) == steps(rest) && steps(
            name,
        ).len() == 0,
        name.len() > 0 && name != "."@ ==> steps(name + seq!['/'] + rest) == seq![name] + steps(
            rest,
        ) && steps(name) == seq![name],
{
    text::separators_cut(name, '/', rest);
    let more = text::pieces(rest, '/');
    lemma_meaningful_from_the_front(name, more);
    lemma_meaningful_from_the_front(name, Seq::empty());
    assert(seq![name] + Seq::<Seq<char>>::empty() =~= seq![name]);
    assert(meaningful(Seq::<Seq<char>>::empty()) =~= Seq::<Seq<char>>::empty());
    assert(seq![name] + meaningful(Seq::<Seq<char>>::empty()) =~= seq![name]);
}

proof fn lemma_meaningful_from_the_front(name: Seq<char>, more: Seq<Seq<char>>)
    ensures
        meaningful(seq![name] + more) == (if name.len() == 0 || name == "."@ {
            meaningful(more)
        } else {
            seq![name] + meaningful(more)
        }),
    decreases more.len(),
{
    let all = seq![name] + more;
    let none = Seq::<Seq<char>>::empty();
    assert(meaningful(none) =~= none);
    if more.len() == 0 {
        assert(all.drop_last() =~= none);
        assert(all.last() == name);
        assert(meaningful(more) =~= none);
        assert(none.push(name) =~= seq![name] + none);
    } else {
        assert(all.last() == more.last());
        assert(all.drop_last() =~= seq![name] + more.drop_last());
        lemma_meaningful_from_the_front(name, more.drop_last());
        assert(meaningful(all) =~= (if name.len() == 0 || name == "."@ {
            meaningful(more)
        } else {
            seq![name] + meaningful(more)
        }));
    }
}

/// A path is written step by step, a slash before each.
pub proof fn paths_are_written_step_by_step(all: Seq<Seq<char>>, step: Seq<char>)
    ensures
        path_text(Seq::empty()) == seq!['/'],
        path_text(seq![step]) == seq!['/'] + step,
        all.len() > 0 ==> path_text(all.push(step)) == path_text(all) + seq!['/'] + step,
        relative_text(Seq::empty()).len() == 0,
        relative_text(seq![step]) == step,
        all.len() > 0 ==> relative_text(all.push(step)) == relative_text(all) + seq!['/'] + step,
{
    reveal_strlit("/");
    assert("/"@ =~= seq!['/']);
    assert(all.push(step).drop_last() =~= all);
}

/// A relative path is seen from the root of the jail, an absolute one as it stands.
pub proof fn relative_paths_start_at_the_root(root: Seq<Seq<char>>, path: Seq<char>)
    ensures
        path.len() == 0 || path[0] != '/' ==> seen_from(root, path) == root + steps(path),
        path.len() > 0 && path[0] == '/' ==> seen_from(root, path) == steps(path),
{
    reveal_strlit("/");
    assert("/"@[0] == '/');
    if path.len() > 0 {
        assert(path.subrange(0, 1)[0] == path[0]);
        if path[0] == '/' {
            assert(path.subrange(0, 1) =~= "/"@);
        }
    }
}

/// What lies inside is let through: a path whose existing part is really inside resolves to
/// that part's real path with the missing names behind it, unless one of them is `..`.
pub proof fn inside_is_let_through(
    root: Seq<Seq<char>>,
    path: Seq<char>,
    missing: int,
    canon: Seq<char>,
)
    requires
        0 <= missing <= seen_from(root, path).len(),
        forall|i: int|
            seen_from(root, path).len() - missing <= i < seen_from(root, path).len()
                ==> #[trigger] seen_from(root, path)[i] != ".."@,
        text::begins(steps(canon), root),
    ensures
        resolved(root, path, missing, Some(canon)) is Ok,
        resolved(root, path, missing, Some(canon))->Ok_0.len() == steps(canon).len() + missing,
        text::begins(resolved(root, path, missing, Some(canon))->Ok_0, steps(canon)),
        forall|i: int|
            0 <= i < missing ==> #[trigger] resolved(root, path, missing, Some(canon))->Ok_0[steps(
                canon,
            ).len() + i] == seen_from(root, path)[seen_from(root, path).len() - missing + i],
        ancestor_of(root, path, missing) == Some(
            path_text(seen_from(root, path).take(seen_from(root, path).len() - missing)),
        ),
{
    let full = resolved(root, path, missing, Some(canon))->Ok_0;
    assert(full.subrange(0, steps(canon).len() as int) =~= steps(canon));
}

/// A `..` among the missing names, or more missing names than there are, is an escape, and
/// so is an existing part that is really outside.
pub proof fn climbing_is_refused(
    root: Seq<Seq<char>>,
    path: Seq<char>,
    missing: int,
    canon: Option<Seq<char>>,
    i: int,
)
    requires
        missing < 0 || missing > seen_from(root, path).len() || (seen_from(root, path).len()
            - missing <= i < seen_from(root, path).len() && seen_from(root, path)[i] == ".."@),
    ensures
        ancestor_of(root, path, missing) is None,
        resolved(root, path, missing, canon) == Err::<Seq<Seq<char>>, JailError>(
            JailError::Escapes,
        ),
{
}

/// A root is taken where its path starts at the root of the disk and climbs nowhere.
pub proof fn canonical_paths_climb_nowhere(path: Seq<char>)
    ensures
        canonical(path) <==> path.len() > 0 && path[0] == '/' && forall|i: int|
            0 <= i < steps(path).len() ==> #[trigger] steps(path)[i] != ".."@,
{
    reveal_strlit("/");
    assert("/"@[0] == '/');
    if path.len() > 0 {
        assert(path.subrange(0, 1)[0] == path[0]);
        if path[0] == '/' {
            assert(path.subrange(0, 1) =~= "/"@);
        }
    }
    if canonical(path) {
        assert forall|i: int| 0 <= i < steps(path).len() implies #[trigger] steps(path)[i]
            != ".."@ by {
            assert(steps(path).contains(steps(path)[i]));
        }
    }
}

/// Where the existing part could not be made real, that is the reason for the refusal.
pub proof fn unreal_part_is_refused(root: Seq<Seq<char>>, path: Seq<char>, missing: int)
    requires
        0 <= missing <= seen_from(root, path).len(),
        forall|i: int|
            seen_from(root, path).len() - missing <= i < seen_from(root, path).len()
                ==> #[trigger] seen_from(root, path)[i] != ".."@,
    ensures
        resolved(root, path, missing, None) == Err::<Seq<Seq<char>>, JailError>(
            JailError::Canonicalize,
        ),
{
}

/// An existing part that is really outside is refused as an escape.
pub proof fn outside_is_an_escape(
    root: Seq<Seq<char>>,
    path: Seq<char>,
    missing: int,
    canon: Seq<char>,
)
    requires
        !text::begins(steps(canon), root),
    ensures
        resolved(root, path, missing, Some(canon)) == Err::<Seq<Seq<char>>, JailError>(
            JailError::Escapes,
        ),
{
}

} // verus!
