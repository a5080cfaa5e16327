//! Order of texts, sorting, and tables: values under distinct keys, in the order of
//! the keys.

use crate::text::{self, chars_of, same};
use vstd::prelude::*;

verus! {

// ---------------------------------------------------------------------------
// Order
// ---------------------------------------------------------------------------

/// One text stands before another: at the first place where they differ it has the
/// smaller character, or it is a proper beginning of the other.
pub open spec fn before(a: Seq<char>, b: Seq<char>) -> bool
    decreases a.len(),
{
    if b.len() == 0 {
        false
    } else if a.len() == 0 {
        true
    } else if a[0] != b[0] {
        a[0] < b[0]
    } else {
        before(a.drop_first(), b.drop_first())
    }
}

/// No text stands before itself.
pub proof fn before_is_irreflexive(a: Seq<char>)
    ensures
        !before(a, a),
    decreases a.len(),
{
    if a.len() > 0 {
        before_is_irreflexive(a.drop_first());
    }
}

/// The order of texts is transitive.
pub proof fn before_is_transitive(a: Seq<char>, b: Seq<char>, c: Seq<char>)
    requires
        before(a, b),
        before(b, c),
    ensures
        before(a, c),
    decreases a.len(),
{
    if a.len() > 0 && a[0] == b[0] && b[0] == c[0] {
        before_is_transitive(a.drop_first(), b.drop_first(), c.drop_first());
    }
}

/// Of two different texts one stands before the other.
pub proof fn before_is_total(a: Seq<char>, b: Seq<char>)
    ensures
        a == b || before(a, b) || before(b, a),
    decreases a.len(),
{
    if a.len() == 0 || b.len() == 0 {
        if a.len() == 0 && b.len() == 0 {
            assert(a =~= b);
        }
    } else if a[0] == b[0] {
        before_is_total(a.drop_first(), b.drop_first());
        if a.drop_first() == b.drop_first() {
            assert(a =~= seq![a[0]] + a.drop_first());
            assert(b =~= seq![b[0]] + b.drop_first());
        }
    }
}

/// Whether one text stands before another.
pub fn precedes(a: &str, b: &str) -> (r: bool)
    ensures
        r == before(a@, b@),
{
    let x = chars_of(a);
    let y = chars_of(b);
    let mut i: usize = 0;
    assert(x@.skip(0) =~= x@);
    assert(y@.skip(0) =~= y@);
    while i < x.len() && i < y.len() && x[i] == y[i]
        invariant
            x@ == a@,
            y@ == b@,
            i <= x@.len(),
            i <= y@.len(),
            before(x@.skip(i as int), y@.skip(i as int)) == before(a@, b@),
        decreases x@.len() - i,
    {
        assert(x@.skip(i as int).drop_first() =~= x@.skip(i + 1));
        assert(y@.skip(i as int).drop_first() =~= y@.skip(i + 1));
        i = i + 1;
    }
    if i >= y.len() {
        false
    } else if i >= x.len() {
        true
    } else {
        x[i] < y[i]
    }
}

// ---------------------------------------------------------------------------
// Sorting
// ---------------------------------------------------------------------------

/// No text stands before one that comes earlier.
pub open spec fn in_order(items: Seq<Seq<char>>) -> bool {
    forall|i: int, j: int| 0 <= i < j < items.len() ==> !before(items[j], items[i])
}

/// Puts texts in order.
pub fn sort_texts(items: Vec<String>) -> (r: Vec<String>)
    ensures
        in_order(text::texts(r@)),
        text::texts(r@).to_multiset() == text::texts(items@).to_multiset(),
{
    broadcast use vstd::seq_lib::group_to_multiset_ensures;

    let mut sorted: Vec<String> = Vec::new();
    let mut i: usize = 0;
    assert(text::texts(items@).take(0) =~= text::texts(sorted@));
    while i < items.len()
        invariant
            i <= items@.len(),
            in_order(text::texts(sorted@)),
            sorted@.len() == i,
            text::texts(sorted@).to_multiset() == text::texts(items@).take(i as int).to_multiset(),
        decreases items@.len() - i,
    {
        let item = items[i].clone();
        let ghost old_texts = text::texts(sorted@);
        let mut at: usize = 0;
        while at < sorted.len() && !precedes(item.as_str(), sorted[at].as_str())
            invariant
                at <= sorted@.len(),
                old_texts == text::texts(sorted@),
                forall|k: int| 0 <= k < at ==> !before(item@, #[trigger] old_texts[k]),
            decreases sorted@.len() - at,
        {
            assert(old_texts[at as int] == sorted@[at as int]@);
            at = at + 1;
        }
        sorted.insert(at, item);
        proof {
            broadcast use vstd::seq_lib::group_to_multiset_ensures;

            let now = text::texts(sorted@);
            assert(now =~= old_texts.insert(at as int, item@));
            lemma_insert_keeps_order(old_texts, item@, at as int);
            assert(now.remove(at as int) =~= old_texts);
            vstd::seq_lib::to_multiset_remove(now, at as int);
            assert(now.contains(now[at as int]));
            assert(now.to_multiset().count(item@) > 0);
            assert(now.to_multiset() =~= old_texts.to_multiset().insert(item@));
            assert(text::texts(items@).take(i + 1) =~= text::texts(items@).take(i as int).push(
                item@,
            ));
        }
        i = i + 1;
    }
    assert(text::texts(items@).take(i as int) =~= text::texts(items@));
    sorted
}

proof fn lemma_insert_keeps_order(items: Seq<Seq<char>>, item: Seq<char>, at: int)
    requires
        in_order(items),
        0 <= at <= items.len(),
        forall|k: int| 0 <= k < at ==> !before(item, #[trigger] items[k]),
        at < items.len() ==> before(item, items[at]),
    ensures
        in_order(items.insert(at, item)),
{
    let now = items.insert(at, item);
    assert forall|i: int, j: int| 0 <= i < j < now.len() implies !before(now[j], now[i]) by {
        if j == at {
            assert(now[i] == items[i]);
        } else if i == at {
            assert(now[j] == items[j - 1]);
            if before(items[j - 1], item) {
                if j - 1 == at {
                    before_is_transitive(item, items[at], item);
                    before_is_irreflexive(item);
                } else {
                    before_is_transitive(items[j - 1], item, items[at]);
                    assert(!before(items[j - 1], items[at]));
                }
            }
        } else {
            let a = if i < at {
                i
            } else {
                i - 1
            };
            let b = if j < at {
                j
            } else {
                j - 1
            };
            assert(now[i] == items[a]);
            assert(now[j] == items[b]);
        }
    }
}

// ---------------------------------------------------------------------------
// Tables
// ---------------------------------------------------------------------------

/// Values under distinct keys, in the order of the keys.
#[derive(Debug)]
pub struct Table<V> {
    entries: Vec<(String, V)>,
}

/// The keys stand in increasing order, so none occurs twice.
pub open spec fn increasing<V>(entries: Seq<(Seq<char>, V)>) -> bool {
    forall|i: int, j: int|
        0 <= i < j < entries.len() ==> before(#[trigger] entries[i].0, #[trigger] entries[j].0)
}

/// The value under a key.
pub open spec fn lookup<V>(entries: Seq<(Seq<char>, V)>, key: Seq<char>) -> Option<V>
    decreases entries.len(),
{
    if entries.len() == 0 {
        None
    } else if entries[0].0 == key {
        Some(entries[0].1)
    } else {
        lookup(entries.drop_first(), key)
    }
}

proof fn lemma_lookup<V>(entries: Seq<(Seq<char>, V)>, key: Seq<char>, at: int)
    requires
        0 <= at < entries.len(),
        entries[at].0 == key,
        forall|k: int| 0 <= k < at ==> (#[trigger] entries[k]).0 != key,
    ensures
        lookup(entries, key) == Some(entries[at].1),
    decreases at,
{
    if at > 0 {
        let rest = entries.drop_first();
        assert forall|k: int| 0 <= k < at - 1 implies (#[trigger] rest[k]).0 != key by {
            assert(rest[k] == entries[k + 1]);
        }
        lemma_lookup(rest, key, at - 1);
    }
}

proof fn lemma_no_lookup<V>(entries: Seq<(Seq<char>, V)>, key: Seq<char>)
    requires
        forall|k: int| 0 <= k < entries.len() ==> (#[trigger] entries[k]).0 != key,
    ensures
        lookup(entries, key) is None,
    decreases entries.len(),
{
    if entries.len() > 0 {
        let rest = entries.drop_first();
        assert forall|k: int| 0 <= k < rest.len() implies (#[trigger] rest[k]).0 != key by {
            assert(rest[k] == entries[k + 1]);
        }
        lemma_no_lookup(rest, key);
    }
}

impl<V> View for Table<V> {
    type V = Seq<(Seq<char>, V)>;

    closed spec fn view(&self) -> Seq<(Seq<char>, V)> {
        Seq::new(self.entries@.len(), |i: int| (self.entries@[i].0@, self.entries@[i].1))
    }
}

impl<V> Table<V> {
    #[verifier::type_invariant]
    spec fn wf(&self) -> bool {
        increasing(self@)
    }

    /// An empty table.
    pub fn new() -> (r: Table<V>)
        ensures
            r@ == Seq::<(Seq<char>, V)>::empty(),
    {
        let entries: Vec<(String, V)> = Vec::new();
        let r = Table { entries };
        assert(r@ =~= Seq::<(Seq<char>, V)>::empty());
        r
    }

    /// How many entries there are.
    pub fn len(&self) -> (r: usize)
        ensures
            r == self@.len(),
            increasing(self@),
    {
        proof {
            use_type_invariant(self);
        }
        self.entries.len()
    }

    /// The key at a position.
    pub fn key_at(&self, i: usize) -> (r: &String)
        requires
            i < self@.len(),
        ensures
            r@ == self@[i as int].0,
    {
        &self.entries[i].0
    }

    /// The value at a position.
    pub fn value_at(&self, i: usize) -> (r: &V)
        requires
            i < self@.len(),
        ensures
            *r == self@[i as int].1,
    {
        &self.entries[i].1
    }

    /// The value under a key.
    pub fn get(&self, key: &str) -> (r: Option<&V>)
        ensures
            r is Some <==> lookup(self@, key@) is Some,
            r is Some ==> lookup(self@, key@) == Some(*r->0),
    {
        let mut i: usize = 0;
        while i < self.entries.len()
            invariant
                i <= self.entries@.len(),
                self@.len() == self.entries@.len(),
                forall|k: int| 0 <= k < i ==> (#[trigger] self@[k]).0 != key@,
            decreases self.entries@.len() - i,
        {
            if same(self.entries[i].0.as_str(), key) {
                proof {
                    lemma_lookup(self@, key@, i as int);
                }
                return Some(&self.entries[i].1);
            }
            assert(self@[i as int].0 != key@);
            i = i + 1;
        }
        proof {
            lemma_no_lookup(self@, key@);
        }
        None
    }

    /// The table with a value put under a key, in place of what was there.
    pub fn with(self, key: String, value: V) -> (r: Table<V>)
        ensures
            increasing(r@),
            forall|k: Seq<char>|
                #[trigger] lookup(r@, k) == (if k == key@ {
                    Some(value)
                } else {
                    lookup(self@, k)
                }),
    {
        proof {
            use_type_invariant(&self);
        }
        let ghost old_entries = self@;
        let mut entries = self.entries;
        let mut at: usize = 0;
        while at < entries.len() && precedes(entries[at].0.as_str(), key.as_str())
            invariant
                at <= entries@.len(),
                old_entries == Seq::new(entries@.len(), |i: int| (entries@[i].0@, entries@[i].1)),
                forall|k: int| 0 <= k < at ==> before((#[trigger] old_entries[k]).0, key@),
            decreases entries@.len() - at,
        {
            assert(old_entries[at as int].0 == entries@[at as int].0@);
            at = at + 1;
        }
        if at < entries.len() && same(entries[at].0.as_str(), key.as_str()) {
            let ghost k0 = key@;
            entries.set(at, (key, value));
            let ghost now = Seq::new(entries@.len(), |i: int| (entries@[i].0@, entries@[i].1));
            proof {
                assert(now =~= old_entries.take(at as int) + seq![(k0, value)] + old_entries.skip(at + 1));
                assert forall|i: int, j: int| 0 <= i < j < now.len() implies before(
                    #[trigger] now[i].0,
                    #[trigger] now[j].0,
                ) by {
                    assert(before(old_entries[i].0, old_entries[j].0));
                }
                before_is_irreflexive(k0);
                lemma_put(old_entries, now, k0, value, at as int, 1);
            }
            let r = Table { entries };
            assert(r@ =~= now);
            r
        } else {
            let ghost k0 = key@;
            entries.insert(at, (key, value));
            let ghost now = Seq::new(entries@.len(), |i: int| (entries@[i].0@, entries@[i].1));
            proof {
                assert(now =~= old_entries.take(at as int) + seq![(k0, value)] + old_entries.skip(at as int));
                if at < old_entries.len() {
                    before_is_total(old_entries[at as int].0, k0);
                }
                assert forall|i: int, j: int| 0 <= i < j < now.len() implies before(
                    #[trigger] now[i].0,
                    #[trigger] now[j].0,
                ) by {
                    if j == at {
                        assert(now[i] == old_entries[i]);
                    } else if i == at {
                        assert(now[j] == old_entries[j - 1]);
                        if j - 1 > at {
                            assert(before(old_entries[at as int].0, old_entries[j - 1].0));
                            before_is_transitive(
                                k0,
                                old_entries[at as int].0,
                                old_entries[j - 1].0,
                            );
                        }
                    } else {
                        let a = if i < at {
                            i
                        } else {
                            i - 1
                        };
                        let b = if j < at {
                            j
                        } else {
                            j - 1
                        };
                        assert(now[i] == old_entries[a]);
                        assert(now[j] == old_entries[b]);
                        assert(before(old_entries[a].0, old_entries[b].0));
                    }
                }
                before_is_irreflexive(k0);
                lemma_put(old_entries, now, k0, value, at as int, 0);
            }
            let r = Table { entries };
            assert(r@ =~= now);
            r
        }
    }
}

/// What lookup finds where an entry was put in at a position, in place of `over` old ones.
proof fn lemma_put<V>(
    old_entries: Seq<(Seq<char>, V)>,
    now: Seq<(Seq<char>, V)>,
    key: Seq<char>,
    value: V,
    at: int,
    over: int,
)
    requires
        over == 0 || over == 1,
        0 <= at,
        at + over <= old_entries.len(),
        over == 1 ==> old_entries[at].0 == key,
        now == old_entries.take(at) + seq![(key, value)] + old_entries.skip(at + over),
        forall|k: int| 0 <= k < at ==> (#[trigger] old_entries[k]).0 != key,
    ensures
        forall|k: Seq<char>|
            #[trigger] lookup(now, k) == (if k == key {
                Some(value)
            } else {
                lookup(old_entries, k)
            }),
    decreases at,
{
    if at == 0 {
        assert(now.drop_first() =~= old_entries.skip(over));
        assert forall|k: Seq<char>|
            #[trigger] lookup(now, k) == (if k == key {
                Some(value)
            } else {
                lookup(old_entries, k)
            }) by {
            if over == 1 {
                assert(old_entries.drop_first() =~= old_entries.skip(1));
            } else {
                assert(old_entries.skip(0) =~= old_entries);
            }
        }
    } else {
        let rest = old_entries.drop_first();
        assert(now.drop_first() =~= rest.take(at - 1) + seq![(key, value)] + rest.skip(
            at - 1 + over,
        ));
        assert forall|k: int| 0 <= k < at - 1 implies (#[trigger] rest[k]).0 != key by {
            assert(rest[k] == old_entries[k + 1]);
        }
        lemma_put(rest, now.drop_first(), key, value, at - 1, over);
        assert(now[0] == old_entries[0]);
        assert forall|k: Seq<char>|
            #[trigger] lookup(now, k) == (if k == key {
                Some(value)
            } else {
                lookup(old_entries, k)
            }) by {
            assert(lookup(now.drop_first(), k) == (if k == key {
                Some(value)
            } else {
                lookup(rest, k)
            }));
        }
    }
}

/// Of texts that begin alike, the one with the smaller character at the first difference
/// stands before the other, and a beginning stands before every text that goes on.
pub proof fn order_goes_by_the_first_difference(
    same: Seq<char>,
    a: char,
    x: Seq<char>,
    b: char,
    y: Seq<char>,
)
    ensures
        a < b ==> before(same + seq![a] + x, same + seq![b] + y),
        b < a ==> !before(same + seq![a] + x, same + seq![b] + y),
        before(same, same + seq![b] + y),
        !before(same + seq![b] + y, same),
    decreases same.len(),
{
    let s = same + seq![a] + x;
    let t = same + seq![b] + y;
    if same.len() > 0 {
        let rest = same.drop_first();
        assert(s[0] == same[0] && t[0] == same[0]);
        assert(s.drop_first() =~= rest + seq![a] + x);
        assert(t.drop_first() =~= rest + seq![b] + y);
        order_goes_by_the_first_difference(rest, a, x, b, y);
    } else {
        assert(s[0] == a && t[0] == b);
    }
}

/// A key leads to the value that stands with it first, and a key that stands nowhere leads
/// to none.
pub proof fn first_entry_counts<V>(entries: Seq<(Seq<char>, V)>, key: Seq<char>, at: int)
    requires
        forall|i: int| 0 <= i < at && i < entries.len() ==> (#[trigger] entries[i]).0 != key,
    ensures
        0 <= at < entries.len() && entries[at].0 == key ==> lookup(entries, key) == Some(
            entries[at].1,
        ),
        at >= entries.len() ==> lookup(entries, key) is None,
    decreases entries.len(),
{
    if entries.len() > 0 && at > 0 {
        let rest = entries.drop_first();
        assert(entries[0].0 != key);
        assert forall|i: int| 0 <= i < at - 1 && i < rest.len() implies (#[trigger] rest[i]).0
            != key by {
            assert(rest[i] == entries[i + 1]);
        }
        first_entry_counts(rest, key, at - 1);
    }
}

/// Texts are in order where no later one stands before an earlier one.
pub proof fn order_holds_for_every_pair(items: Seq<Seq<char>>, item: Seq<char>)
    ensures
        in_order(Seq::empty()),
        in_order(items.push(item)) <==> in_order(items) && forall|i: int|
            0 <= i < items.len() ==> !before(item, #[trigger] items[i]),
{
    let all = items.push(item);
    let n = items.len() as int;
    if in_order(all) {
        assert forall|i: int, j: int| 0 <= i < j < items.len() implies !before(
            items[j],
            items[i],
        ) by {
            assert(!before(all[j], all[i]));
        }
        assert forall|i: int| 0 <= i < items.len() implies !before(item, #[trigger] items[i]) by {
            assert(!before(all[n], all[i]));
        }
    }
    if in_order(items) && forall|i: int|
        0 <= i < items.len() ==> !before(item, #[trigger] items[i]) {
        assert forall|i: int, j: int| 0 <= i < j < all.len() implies !before(all[j], all[i]) by {
            if j < n {
                assert(!before(items[j], items[i]));
            } else {
                assert(!before(item, items[i]));
            }
        }
    }
}

} // verus!
