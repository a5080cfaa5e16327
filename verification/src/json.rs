//! JSON trees as plain values, with `serde_json` as parser and printer.

use crate::table;
use crate::text::{self, same};
use vstd::prelude::*;

verus! {

// ---------------------------------------------------------------------------
// What serde_json holds
// ---------------------------------------------------------------------------

/// `serde_json::Value`, carried as an opaque value.
#[verifier::external_type_specification]
#[verifier::external_body]
pub struct ExValue(serde_json::Value);

/// `serde_json::Number`, carried as an opaque value.
#[verifier::external_type_specification]
#[verifier::external_body]
pub struct ExNumber(serde_json::Number);

/// One level of a `serde_json::Value`: its variant with that variant's fields.
/// An object's fields come in the order in which `serde_json::Map` walks them.
pub enum Node<'a> {
    Null,
    Bool(bool),
    Number(&'a serde_json::Number),
    Text(&'a String),
    Array(&'a Vec<serde_json::Value>),
    Object(Vec<(&'a String, &'a serde_json::Value)>),
}

/// What one level of a `serde_json::Value` holds.
pub ghost enum NodeView {
    Null,
    Bool(bool),
    Number(serde_json::Number),
    Text(Seq<char>),
    Array(Seq<serde_json::Value>),
    Object(Seq<(Seq<char>, serde_json::Value)>),
}

impl<'a> View for Node<'a> {
    type V = NodeView;

    open spec fn view(&self) -> NodeView {
        match self {
            Node::Null => NodeView::Null,
            Node::Bool(b) => NodeView::Bool(*b),
            Node::Number(n) => NodeView::Number(**n),
            Node::Text(s) => NodeView::Text(s@),
            Node::Array(v) => NodeView::Array(v@),
            Node::Object(v) => NodeView::Object(
                Seq::new(v@.len(), |i: int| (v@[i].0@, *v@[i].1)),
            ),
        }
    }
}

/// The value that `serde_json::from_str` reads out of a text, or `None` where it
/// refuses the text.
pub uninterp spec fn json_parsed(text: Seq<char>) -> Option<serde_json::Value>;

/// The text that `serde_json::Value`'s `Display` writes.
pub uninterp spec fn json_printed(value: serde_json::Value) -> Seq<char>;

/// The top level of a `serde_json::Value`.
pub uninterp spec fn json_node(value: serde_json::Value) -> NodeView;

/// What `serde_json::Number::as_u64` returns.
pub uninterp spec fn number_u64(n: serde_json::Number) -> Option<u64>;

/// What `serde_json::Number::as_i64` returns.
pub uninterp spec fn number_i64(n: serde_json::Number) -> Option<i64>;

/// Calls `serde_json::from_str::<serde_json::Value>`. The claim: the outcome is a
/// function of the text alone. Which texts are JSON, and what tree each of them
/// stands for, is left to `serde_json`.
#[verifier::external_body]
fn parse_value(text: &str) -> (r: Option<serde_json::Value>)
    ensures
        r == json_parsed(text@),
{
    serde_json::from_str::<serde_json::Value>(text).ok()
}

/// Calls `serde_json::Value::to_string`. The claims: the text is a function of the value
/// alone, and `serde_json::from_str` reads a value with the same tree out of it, where the
/// tree is an ordinary one: no deeper than the parser goes, without numbers that are not
/// whole, and without the keys that `serde_json` keeps for itself. What is read back of
/// other values is left unsaid.
#[verifier::external_body]
fn print_value(value: &serde_json::Value) -> (r: String)
    ensures
        r@ == json_printed(*value),
        match tree_in(*value, PARSED_DEPTH as nat) {
            Some(tree) => ordinary(tree, PARSED_DEPTH as nat) ==> json_parsed(r@) is Some
                && tree_in(json_parsed(r@)->0, PARSED_DEPTH as nat) == Some(tree),
            None => true,
        },
{
    value.to_string()
}

/// Tells the variants of `serde_json::Value` apart and hands out their fields. The
/// claim: variant and fields are a function of the value alone.
#[verifier::external_body]
fn open_value<'a>(value: &'a serde_json::Value) -> (r: Node<'a>)
    ensures
        r@ == json_node(*value),
{
    match value {
        serde_json::Value::Null => Node::Null,
        serde_json::Value::Bool(b) => Node::Bool(*b),
        serde_json::Value::Number(n) => Node::Number(n),
        serde_json::Value::String(s) => Node::Text(s),
        serde_json::Value::Array(items) => Node::Array(items),
        serde_json::Value::Object(fields) => Node::Object(fields.iter().collect()),
    }
}

/// The value that holds exactly the given level. `serde_json` keeps an object's
/// fields by key: one field per key, in the order of the keys.
pub uninterp spec fn json_built(node: NodeView) -> serde_json::Value;

/// One level of a tree, to be made a `serde_json::Value` of.
pub enum Parts {
    Null,
    Bool(bool),
    Number(serde_json::Number),
    Text(String),
    Array(Vec<serde_json::Value>),
    Object(Vec<(String, serde_json::Value)>),
}

impl View for Parts {
    type V = NodeView;

    open spec fn view(&self) -> NodeView {
        match self {
            Parts::Null => NodeView::Null,
            Parts::Bool(b) => NodeView::Bool(*b),
            Parts::Number(n) => NodeView::Number(*n),
            Parts::Text(s) => NodeView::Text(s@),
            Parts::Array(v) => NodeView::Array(v@),
            Parts::Object(v) => NodeView::Object(
                Seq::new(v@.len(), |i: int| (v@[i].0@, v@[i].1)),
            ),
        }
    }
}

/// Makes a `serde_json::Value` of one level; an object by collecting the fields into
/// a `serde_json::Map`. The claims: the value is a function of the level alone, and
/// opening it gives the level back, for an object only where its keys are in
/// increasing order. What becomes of keys in another order is left unsaid.
#[verifier::external_body]
fn build_value(parts: Parts) -> (r: serde_json::Value)
    ensures
        r == json_built(parts@),
        keys_increase(parts@) ==> json_node(r) == parts@,
{
    match parts {
        Parts::Null => serde_json::Value::Null,
        Parts::Bool(b) => serde_json::Value::Bool(b),
        Parts::Number(n) => serde_json::Value::Number(n),
        Parts::Text(s) => serde_json::Value::String(s),
        Parts::Array(items) => serde_json::Value::Array(items),
        Parts::Object(fields) => serde_json::Value::Object(fields.into_iter().collect()),
    }
}

/// The keys of an object stand in increasing order, character by character.
pub open spec fn keys_increase(node: NodeView) -> bool {
    match node {
        NodeView::Object(fields) => forall|i: int, j: int|
            0 <= i < j < fields.len() ==> table::before(#[trigger] fields[i].0, #[trigger] fields[j].0),
        _ => true,
    }
}

/// The number that `serde_json::Number::from` makes of a whole number from zero up.
pub uninterp spec fn number_of_u64(u: u64) -> serde_json::Number;

/// The number that `serde_json::Number::from` makes of a signed whole number.
pub uninterp spec fn number_of_i64(i: i64) -> serde_json::Number;

/// Calls `serde_json::Number::from` on a `u64`. The claims: the number is a function
/// of the argument, and `as_u64` gives the argument back.
#[verifier::external_body]
fn number_from_u64(u: u64) -> (r: serde_json::Number)
    ensures
        r == number_of_u64(u),
        number_u64(r) == Some(u),
{
    serde_json::Number::from(u)
}

/// Calls `serde_json::Number::from` on an `i64`. The claims: the number is a function
/// of the argument, `as_i64` gives the argument back, and `as_u64` gives nothing for
/// an argument below zero.
#[verifier::external_body]
fn number_from_i64(i: i64) -> (r: serde_json::Number)
    ensures
        r == number_of_i64(i),
        number_i64(r) == Some(i),
        i < 0 ==> number_u64(r) is None,
{
    serde_json::Number::from(i)
}

/// Calls `serde_json::Number::as_u64`. The claim: the result is a function of the
/// number alone.
#[verifier::external_body]
fn unsigned_of(n: &serde_json::Number) -> (r: Option<u64>)
    ensures
        r == number_u64(*n),
{
    n.as_u64()
}

/// Calls `serde_json::Number::as_i64`. The claim: the result is a function of the
/// number alone.
#[verifier::external_body]
fn signed_of(n: &serde_json::Number) -> (r: Option<i64>)
    ensures
        r == number_i64(*n),
{
    n.as_i64()
}

/// `serde_json::Number` derives `Clone`: the copy is the number.
pub assume_specification[ <serde_json::Number as Clone>::clone ](
    n: &serde_json::Number,
) -> (r: serde_json::Number)
    ensures
        r == *n,
;

// ---------------------------------------------------------------------------
// The tree
// ---------------------------------------------------------------------------

/// A JSON number.
#[derive(Debug, PartialEq)]
pub enum Numeral {
    /// A whole number from zero up.
    Unsigned(u64),
    /// A whole number below zero.
    Negative(i64),
    /// Any other number, as `serde_json` holds it.
    Real(serde_json::Number),
}

/// A JSON tree.
#[derive(Debug, PartialEq)]
pub enum Json {
    Null,
    Bool(bool),
    Number(Numeral),
    Text(String),
    Array(Vec<Json>),
    Object(Vec<(String, Json)>),
}

/// What a JSON tree holds.
pub ghost enum Tree {
    Null,
    Bool(bool),
    Number(Numeral),
    Text(Seq<char>),
    Array(Seq<Tree>),
    Object(Seq<(Seq<char>, Tree)>),
}

/// The tree that a `Json` stands for.
pub open spec fn tree_of(json: Json) -> Tree
    decreases json,
{
    match json {
        Json::Null => Tree::Null,
        Json::Bool(b) => Tree::Bool(b),
        Json::Number(n) => Tree::Number(n),
        Json::Text(s) => Tree::Text(s@),
        Json::Array(v) => Tree::Array(
            Seq::new(
                v@.len(),
                |i: int|
                    if 0 <= i < v@.len() {
                        tree_of(v@[i])
                    } else {
                        Tree::Null
                    },
            ),
        ),
        Json::Object(v) => Tree::Object(
            Seq::new(
                v@.len(),
                |i: int|
                    if 0 <= i < v@.len() {
                        (v@[i].0@, tree_of(v@[i].1))
                    } else {
                        (Seq::empty(), Tree::Null)
                    },
            ),
        ),
    }
}

impl View for Json {
    type V = Tree;

    open spec fn view(&self) -> Tree {
        tree_of(*self)
    }
}

/// The value of the first field with the given key.
pub open spec fn field(fields: Seq<(Seq<char>, Tree)>, key: Seq<char>) -> Option<Tree>
    decreases fields.len(),
{
    if fields.len() == 0 {
        None
    } else if fields[0].0 == key {
        Some(fields[0].1)
    } else {
        field(fields.drop_first(), key)
    }
}

impl Tree {
    /// The value of a field, where the tree is an object that has it.
    pub open spec fn get(self, key: Seq<char>) -> Option<Tree> {
        match self {
            Tree::Object(fields) => field(fields, key),
            _ => None,
        }
    }

    /// The text, where the tree is one.
    pub open spec fn text(self) -> Option<Seq<char>> {
        match self {
            Tree::Text(s) => Some(s),
            _ => None,
        }
    }

    /// The whole number from zero up, where the tree is one.
    pub open spec fn unsigned(self) -> Option<u64> {
        match self {
            Tree::Number(Numeral::Unsigned(u)) => Some(u),
            _ => None,
        }
    }

    /// The text of a field, where the field is there and is a text.
    pub open spec fn text_at(self, key: Seq<char>) -> Option<Seq<char>> {
        match self.get(key) {
            Some(t) => t.text(),
            None => None,
        }
    }

    /// The text of a field, empty where the field is missing or is no text.
    pub open spec fn text_or_empty(self, key: Seq<char>) -> Seq<char> {
        match self.text_at(key) {
            Some(s) => s,
            None => Seq::empty(),
        }
    }

    /// The items, where the tree is an array.
    pub open spec fn items(self) -> Option<Seq<Tree>> {
        match self {
            Tree::Array(items) => Some(items),
            _ => None,
        }
    }

    /// The items of a field, where the field is there and is an array.
    pub open spec fn items_at(self, key: Seq<char>) -> Option<Seq<Tree>> {
        match self.get(key) {
            Some(t) => t.items(),
            None => None,
        }
    }

    /// The first item, where the tree is an array that has one.
    pub open spec fn head(self) -> Option<Tree> {
        match self {
            Tree::Array(items) => if items.len() > 0 {
                Some(items[0])
            } else {
                None
            },
            _ => None,
        }
    }

    /// The whole number of a field, where the field is there and is one from zero up.
    pub open spec fn unsigned_at(self, key: Seq<char>) -> Option<u64> {
        match self.get(key) {
            Some(t) => t.unsigned(),
            None => None,
        }
    }
}

/// The views of a sequence of trees.
pub open spec fn trees(items: Seq<Json>) -> Seq<Tree> {
    Seq::new(items.len(), |i: int| items[i]@)
}

impl Json {
    /// The value of the first field with the given key, where the tree is an object
    /// that has one.
    pub fn get(&self, key: &str) -> (r: Option<&Json>)
        ensures
            r is Some <==> self@.get(key@) is Some,
            r is Some ==> self@.get(key@) == Some(r->0@),
    {
        match self {
            Json::Object(fields) => {
                let ghost all = self@->Object_0;
                assert(all.skip(0) =~= all);
                let mut i: usize = 0;
                while i < fields.len()
                    invariant
                        i <= fields@.len(),
                        self@ == Tree::Object(all),
                        all.len() == fields@.len(),
                        forall|k: int|
                            0 <= k < fields@.len() ==> #[trigger] all[k] == (
                            fields@[k].0@, fields@[k].1@),
                        field(all, key@) == field(all.skip(i as int), key@),
                    decreases fields@.len() - i,
                {
                    proof {
                        assert(all.skip(i as int).drop_first() =~= all.skip(i + 1));
                        assert(all.skip(i as int)[0] == all[i as int]);
                    }
                    if same(fields[i].0.as_str(), key) {
                        return Some(&fields[i].1);
                    }
                    i = i + 1;
                }
                assert(all.skip(i as int).len() == 0);
                None
            },
            _ => None,
        }
    }
}

impl Json {
    /// The text, where the tree is one.
    pub fn as_str(&self) -> (r: Option<&str>)
        ensures
            r is Some <==> self@.text() is Some,
            r is Some ==> self@.text() == Some(r->0@),
    {
        match self {
            Json::Text(s) => Some(s.as_str()),
            _ => None,
        }
    }

    /// The whole number from zero up, where the tree is one.
    pub fn as_u64(&self) -> (r: Option<u64>)
        ensures
            r == self@.unsigned(),
    {
        match self {
            Json::Number(Numeral::Unsigned(u)) => Some(*u),
            _ => None,
        }
    }

    /// The items, where the tree is an array.
    pub fn as_array(&self) -> (r: Option<&Vec<Json>>)
        ensures
            r is Some <==> self@.items() is Some,
            r is Some ==> self@.items() == Some(trees(r->0@)),
    {
        match self {
            Json::Array(items) => {
                assert(self@->Array_0 =~= trees(items@));
                Some(items)
            },
            _ => None,
        }
    }

    /// The first item, where the tree is an array that has one.
    pub fn head(&self) -> (r: Option<&Json>)
        ensures
            r is Some <==> self@.head() is Some,
            r is Some ==> self@.head() == Some(r->0@),
    {
        match self {
            Json::Array(items) => {
                if items.len() > 0 {
                    Some(&items[0])
                } else {
                    None
                }
            },
            _ => None,
        }
    }

    /// The text of a field, where the field is there and is a text.
    pub fn text_at(&self, key: &str) -> (r: Option<&str>)
        ensures
            r is Some <==> self@.text_at(key@) is Some,
            r is Some ==> self@.text_at(key@) == Some(r->0@),
    {
        match self.get(key) {
            Some(t) => t.as_str(),
            None => None,
        }
    }

    /// The text of a field, empty where the field is missing or is no text.
    pub fn text_or_empty(&self, key: &str) -> (r: String)
        ensures
            r@ == self@.text_or_empty(key@),
    {
        match self.text_at(key) {
            Some(s) => s.to_owned(),
            None => String::new(),
        }
    }

    /// The whole number of a field, where the field is there and is one from zero up.
    pub fn unsigned_at(&self, key: &str) -> (r: Option<u64>)
        ensures
            r == self@.unsigned_at(key@),
    {
        match self.get(key) {
            Some(t) => t.as_u64(),
            None => None,
        }
    }

    /// The items of a field, where the field is there and is an array.
    pub fn items_at(&self, key: &str) -> (r: Option<&Vec<Json>>)
        ensures
            r is Some <==> self@.items_at(key@) is Some,
            r is Some ==> self@.items_at(key@) == Some(trees(r->0@)),
    {
        match self.get(key) {
            Some(t) => t.as_array(),
            None => None,
        }
    }

    /// A second copy of the tree.
    pub fn copy(&self) -> (r: Json)
        ensures
            r@ == self@,
        decreases self,
    {
        match self {
            Json::Null => Json::Null,
            Json::Bool(b) => Json::Bool(*b),
            Json::Number(n) => Json::Number(n.copy()),
            Json::Text(s) => Json::Text(s.clone()),
            Json::Array(items) => {
                let mut out: Vec<Json> = Vec::new();
                let mut i: usize = 0;
                while i < items.len()
                    invariant
                        i <= items@.len(),
                        *self == Json::Array(*items),
                        out@.len() == i,
                        forall|k: int| 0 <= k < i ==> (#[trigger] out@[k])@ == items@[k]@,
                    decreases items@.len() - i,
                {
                    assert(decreases_to!(*self => self->Array_0));
                    assert(decreases_to!(items@ => items@[i as int]));
                    out.push(items[i].copy());
                    i = i + 1;
                }
                let r = Json::Array(out);
                assert(r@->Array_0 =~= self@->Array_0);
                r
            },
            Json::Object(fields) => {
                let mut out: Vec<(String, Json)> = Vec::new();
                let mut i: usize = 0;
                while i < fields.len()
                    invariant
                        i <= fields@.len(),
                        *self == Json::Object(*fields),
                        out@.len() == i,
                        forall|k: int|
                            0 <= k < i ==> (#[trigger] out@[k]).0@ == fields@[k].0@ && out@[k].1@
                                == fields@[k].1@,
                    decreases fields@.len() - i,
                {
                    assert(decreases_to!(*self => self->Object_0));
                    assert(decreases_to!(fields@ => fields@[i as int]));
                    assert(decreases_to!(fields@[i as int] => fields@[i as int].1));
                    out.push((fields[i].0.clone(), fields[i].1.copy()));
                    i = i + 1;
                }
                let r = Json::Object(out);
                assert(r@->Object_0 =~= self@->Object_0);
                r
            },
        }
    }
}

/// No fields; those of an object are pushed one by one.
pub open spec fn no_fields() -> Seq<(Seq<char>, Tree)> {
    Seq::empty()
}

/// The fields of an object in the making.
#[derive(Debug)]
pub struct Fields {
    fields: Vec<(String, Json)>,
}

impl View for Fields {
    type V = Seq<(Seq<char>, Tree)>;

    closed spec fn view(&self) -> Seq<(Seq<char>, Tree)> {
        Seq::new(self.fields@.len(), |i: int| (self.fields@[i].0@, self.fields@[i].1@))
    }
}

impl Fields {
    /// No fields.
    pub fn new() -> (r: Fields)
        ensures
            r@ == no_fields(),
    {
        let r = Fields { fields: Vec::new() };
        assert(r@ =~= no_fields());
        r
    }

    /// The fields with one more at the end.
    pub fn with(self, key: &str, value: Json) -> (r: Fields)
        ensures
            r@ == self@.push((key@, value@)),
    {
        let ghost before = self@;
        let ghost held = value@;
        let mut fields = self.fields;
        fields.push((key.to_owned(), value));
        let r = Fields { fields };
        assert(r@ =~= before.push((key@, held)));
        r
    }

    /// The object with these fields.
    pub fn object(self) -> (r: Json)
        ensures
            r@ == Tree::Object(self@),
    {
        let ghost before = self@;
        let r = Json::Object(self.fields);
        assert(r@->Object_0 =~= before);
        r
    }
}

impl Json {
    /// The text as a tree.
    pub fn of_str(text: &str) -> (r: Json)
        ensures
            r@ == Tree::Text(text@),
    {
        Json::Text(text.to_owned())
    }

    /// The whole number as a tree.
    pub fn of_u64(n: u64) -> (r: Json)
        ensures
            r@ == Tree::Number(Numeral::Unsigned(n)),
    {
        Json::Number(Numeral::Unsigned(n))
    }

    /// The array of the given trees.
    pub fn of_items(items: Vec<Json>) -> (r: Json)
        ensures
            r@ == Tree::Array(trees(items@)),
    {
        let ghost held = trees(items@);
        let r = Json::Array(items);
        assert(r@->Array_0 =~= held);
        r
    }
}

impl Numeral {
    /// A second copy of the number.
    pub fn copy(&self) -> (r: Numeral)
        ensures
            r == *self,
    {
        match self {
            Numeral::Unsigned(u) => Numeral::Unsigned(*u),
            Numeral::Negative(i) => Numeral::Negative(*i),
            Numeral::Real(n) => Numeral::Real(n.clone()),
        }
    }
}

// ---------------------------------------------------------------------------
// From serde_json and back
// ---------------------------------------------------------------------------

/// The number that a `serde_json::Number` stands for.
pub open spec fn numeral(n: serde_json::Number) -> Numeral {
    match number_u64(n) {
        Some(u) => Numeral::Unsigned(u),
        None => match number_i64(n) {
            Some(i) => Numeral::Negative(i),
            None => Numeral::Real(n),
        },
    }
}

/// The tree that a `serde_json::Value` stands for, or `None` where it is more than
/// `levels` deep.
pub open spec fn tree_in(value: serde_json::Value, levels: nat) -> Option<Tree>
    decreases levels,
{
    if levels == 0 {
        None
    } else {
        let below = (levels - 1) as nat;
        match json_node(value) {
            NodeView::Null => Some(Tree::Null),
            NodeView::Bool(b) => Some(Tree::Bool(b)),
            NodeView::Number(n) => Some(Tree::Number(numeral(n))),
            NodeView::Text(s) => Some(Tree::Text(s)),
            NodeView::Array(items) => if forall|i: int|
                0 <= i < items.len() ==> tree_in(#[trigger] items[i], below) is Some {
                Some(Tree::Array(Seq::new(items.len(), |i: int| tree_in(items[i], below)->0)))
            } else {
                None
            },
            NodeView::Object(fields) => if forall|i: int|
                0 <= i < fields.len() ==> tree_in((#[trigger] fields[i]).1, below) is Some {
                Some(
                    Tree::Object(
                        Seq::new(
                            fields.len(),
                            |i: int| (fields[i].0, tree_in(fields[i].1, below)->0),
                        ),
                    ),
                )
            } else {
                None
            },
        }
    }
}

/// The `serde_json::Number` that stands for a number.
pub open spec fn number_in(n: Numeral) -> serde_json::Number {
    match n {
        Numeral::Unsigned(u) => number_of_u64(u),
        Numeral::Negative(i) => number_of_i64(i),
        Numeral::Real(n) => n,
    }
}

/// The `serde_json::Value` that stands for a tree.
pub open spec fn value_of(tree: Tree) -> serde_json::Value
    decreases tree, 1int,
{
    json_built(level_of(tree))
}

/// The top level of the `serde_json::Value` that stands for a tree.
pub open spec fn level_of(tree: Tree) -> NodeView
    decreases tree, 0int,
{
    match tree {
        Tree::Null => NodeView::Null,
        Tree::Bool(b) => NodeView::Bool(b),
        Tree::Number(n) => NodeView::Number(number_in(n)),
        Tree::Text(s) => NodeView::Text(s),
        Tree::Array(items) => NodeView::Array(
            Seq::new(
                items.len(),
                |i: int|
                    if 0 <= i < items.len() {
                        value_of(items[i])
                    } else {
                        arbitrary()
                    },
            ),
        ),
        Tree::Object(fields) => NodeView::Object(
            Seq::new(
                fields.len(),
                |i: int|
                    if 0 <= i < fields.len() {
                        (fields[i].0, value_of(fields[i].1))
                    } else {
                        arbitrary()
                    },
            ),
        ),
    }
}

/// A number that says what it is by its variant.
pub open spec fn plain_number(n: Numeral) -> bool {
    match n {
        Numeral::Unsigned(_) => true,
        Numeral::Negative(i) => i < 0,
        Numeral::Real(n) => number_u64(n) is None && number_i64(n) is None,
    }
}

/// A tree of at most `levels` levels in the form that `serde_json` keeps: an object's
/// keys stand in increasing order, and each number says what it is by its variant.
pub open spec fn plain(tree: Tree, levels: nat) -> bool
    decreases levels,
{
    &&& levels > 0
    &&& match tree {
        Tree::Number(n) => plain_number(n),
        Tree::Array(items) => forall|i: int|
            0 <= i < items.len() ==> plain(#[trigger] items[i], (levels - 1) as nat),
        Tree::Object(fields) => {
            &&& forall|i: int, j: int|
                0 <= i < j < fields.len() ==> table::before(
                    #[trigger] fields[i].0,
                    #[trigger] fields[j].0,
                )
            &&& forall|i: int|
                0 <= i < fields.len() ==> plain((#[trigger] fields[i]).1, (levels - 1) as nat)
        },
        _ => true,
    }
}

/// How many levels `serde_json::from_str` reads at most.
pub const PARSED_DEPTH: u64 = 127;

/// A tree of at most `levels` levels that has only whole numbers and none of the keys that
/// `serde_json` keeps for itself.
pub open spec fn ordinary(tree: Tree, levels: nat) -> bool
    decreases levels,
{
    &&& levels > 0
    &&& match tree {
        Tree::Number(n) => !(n is Real),
        Tree::Array(items) => forall|i: int|
            0 <= i < items.len() ==> ordinary(#[trigger] items[i], (levels - 1) as nat),
        Tree::Object(fields) => forall|i: int|
            0 <= i < fields.len() ==> !text::begins(
                (#[trigger] fields[i]).0,
                "$serde_json::"@,
            ) && ordinary(fields[i].1, (levels - 1) as nat),
        _ => true,
    }
}

/// A value with a tree of some levels has it as a tree of more levels.
proof fn lemma_deeper(value: serde_json::Value, levels: nat, more: nat)
    requires
        levels <= more,
        tree_in(value, levels) is Some,
    ensures
        tree_in(value, more) == tree_in(value, levels),
    decreases levels,
{
    let below = (levels - 1) as nat;
    let under = (more - 1) as nat;
    match json_node(value) {
        NodeView::Array(items) => {
            assert forall|i: int| 0 <= i < items.len() implies tree_in(#[trigger] items[i], under)
                == tree_in(items[i], below) by {
                assert(tree_in(items[i], below) is Some);
                lemma_deeper(items[i], below, under);
            }
            assert(tree_in(value, more)->0->Array_0 =~= tree_in(value, levels)->0->Array_0);
        },
        NodeView::Object(fields) => {
            assert forall|i: int| 0 <= i < fields.len() implies tree_in(
                (#[trigger] fields[i]).1,
                under,
            ) == tree_in(fields[i].1, below) by {
                assert(tree_in(fields[i].1, below) is Some);
                lemma_deeper(fields[i].1, below, under);
            }
            assert(tree_in(value, more)->0->Object_0 =~= tree_in(value, levels)->0->Object_0);
        },
        _ => {},
    }
}

/// More levels than any value in memory has.
pub const ANY_DEPTH: u64 = 0xffff_ffff_ffff_ffff;

impl Json {
    /// The tree that a `serde_json::Value` stands for, or `None` where it is more than
    /// `levels` deep.
    pub fn from_value(value: &serde_json::Value, levels: u64) -> (r: Option<Json>)
        ensures
            r is Some <==> tree_in(*value, levels as nat) is Some,
            r is Some ==> tree_in(*value, levels as nat) == Some(r->0@),
        decreases levels,
    {
        if levels == 0 {
            return None;
        }
        let below: u64 = levels - 1;
        match open_value(value) {
            Node::Null => Some(Json::Null),
            Node::Bool(b) => Some(Json::Bool(b)),
            Node::Number(n) => {
                let numeral = match unsigned_of(n) {
                    Some(u) => Numeral::Unsigned(u),
                    None => match signed_of(n) {
                        Some(i) => Numeral::Negative(i),
                        None => Numeral::Real(n.clone()),
                    },
                };
                Some(Json::Number(numeral))
            },
            Node::Text(s) => Some(Json::Text(s.clone())),
            Node::Array(items) => {
                let mut out: Vec<Json> = Vec::new();
                let mut i: usize = 0;
                while i < items.len()
                    invariant
                        i <= items@.len(),
                        below == levels - 1,
                        json_node(*value) == NodeView::Array(items@),
                        out@.len() == i,
                        forall|k: int|
                            0 <= k < i ==> tree_in(#[trigger] items@[k], below as nat) == Some(
                                out@[k]@,
                            ),
                    decreases items@.len() - i,
                {
                    match Json::from_value(&items[i], below) {
                        Some(j) => {
                            out.push(j);
                        },
                        None => {
                            assert(tree_in(items@[i as int], below as nat) is None);
                            return None;
                        },
                    }
                    i = i + 1;
                }
                let r = Json::Array(out);
                assert(r@->Array_0 =~= tree_in(*value, levels as nat)->0->Array_0);
                Some(r)
            },
            Node::Object(fields) => {
                let mut out: Vec<(String, Json)> = Vec::new();
                let ghost seen = json_node(*value)->Object_0;
                let mut i: usize = 0;
                while i < fields.len()
                    invariant
                        i <= fields@.len(),
                        below == levels - 1,
                        json_node(*value) == NodeView::Object(seen),
                        out@.len() == i,
                        seen.len() == fields@.len(),
                        forall|k: int|
                            0 <= k < fields@.len() ==> #[trigger] seen[k] == (
                            fields@[k].0@, *fields@[k].1),
                        forall|k: int|
                            0 <= k < i ==> tree_in((#[trigger] seen[k]).1, below as nat) == Some(
                                out@[k].1@,
                            ) && out@[k].0@ == seen[k].0,
                    decreases fields@.len() - i,
                {
                    match Json::from_value(fields[i].1, below) {
                        Some(j) => {
                            out.push((fields[i].0.clone(), j));
                        },
                        None => {
                            assert(tree_in(seen[i as int].1, below as nat) is None);
                            return None;
                        },
                    }
                    i = i + 1;
                }
                let r = Json::Object(out);
                assert(r@->Object_0 =~= tree_in(*value, levels as nat)->0->Object_0);
                Some(r)
            },
        }
    }

    /// The `serde_json::Value` that stands for the tree. A tree in the form that
    /// `serde_json` keeps comes back from the value unchanged.
    pub fn to_value(&self) -> (r: serde_json::Value)
        ensures
            r == value_of(self@),
            forall|levels: nat|
                #[trigger] plain(self@, levels) ==> tree_in(r, levels) == Some(self@),
        decreases self,
    {
        match self {
            Json::Null => build_value(Parts::Null),
            Json::Bool(b) => build_value(Parts::Bool(*b)),
            Json::Number(n) => build_value(
                Parts::Number(
                    match n {
                        Numeral::Unsigned(u) => number_from_u64(*u),
                        Numeral::Negative(i) => number_from_i64(*i),
                        Numeral::Real(n) => n.clone(),
                    },
                ),
            ),
            Json::Text(s) => build_value(Parts::Text(s.clone())),
            Json::Array(items) => {
                let mut out: Vec<serde_json::Value> = Vec::new();
                let mut i: usize = 0;
                while i < items.len()
                    invariant
                        i <= items@.len(),
                        *self == Json::Array(*items),
                        out@.len() == i,
                        forall|k: int| 0 <= k < i ==> #[trigger] out@[k] == value_of(items@[k]@),
                        forall|k: int, levels: nat|
                            0 <= k < i && #[trigger] plain(items@[k]@, levels) ==> tree_in(
                                out@[k],
                                levels,
                            ) == Some(items@[k]@),
                    decreases items@.len() - i,
                {
                    assert(decreases_to!(*self => self->Array_0));
                    assert(decreases_to!(items@ => items@[i as int]));
                    out.push(items[i].to_value());
                    i = i + 1;
                }
                assert(out@ =~= level_of(self@)->Array_0);
                let ghost built = out@;
                let r = build_value(Parts::Array(out));
                assert forall|levels: nat| #[trigger] plain(self@, levels) implies tree_in(
                    r,
                    levels,
                ) == Some(self@) by {
                    let below = (levels - 1) as nat;
                    assert forall|k: int| 0 <= k < built.len() implies tree_in(
                        #[trigger] built[k],
                        below,
                    ) == Some(items@[k]@) by {
                        assert(plain(self@->Array_0[k], below));
                        assert(plain(items@[k]@, below));
                    }
                    assert(tree_in(r, levels)->0->Array_0 =~= self@->Array_0);
                }
                r
            },
            Json::Object(fields) => {
                let mut out: Vec<(String, serde_json::Value)> = Vec::new();
                let mut i: usize = 0;
                while i < fields.len()
                    invariant
                        i <= fields@.len(),
                        *self == Json::Object(*fields),
                        out@.len() == i,
                        forall|k: int|
                            0 <= k < i ==> (#[trigger] out@[k]).0@ == fields@[k].0@ && out@[k].1
                                == value_of(fields@[k].1@),
                        forall|k: int, levels: nat|
                            0 <= k < i && #[trigger] plain(fields@[k].1@, levels) ==> tree_in(
                                out@[k].1,
                                levels,
                            ) == Some(fields@[k].1@),
                    decreases fields@.len() - i,
                {
                    assert(decreases_to!(*self => self->Object_0));
                    assert(decreases_to!(fields@ => fields@[i as int]));
                    assert(decreases_to!(fields@[i as int] => fields@[i as int].1));
                    out.push((fields[i].0.clone(), fields[i].1.to_value()));
                    i = i + 1;
                }
                let parts = Parts::Object(out);
                assert(parts@->Object_0 =~= level_of(self@)->Object_0);
                let ghost built = parts@->Object_0;
                let r = build_value(parts);
                assert forall|levels: nat| #[trigger] plain(self@, levels) implies tree_in(
                    r,
                    levels,
                ) == Some(self@) by {
                    let below = (levels - 1) as nat;
                    let all = self@->Object_0;
                    assert forall|i: int, j: int| 0 <= i < j < built.len() implies table::before(
                        #[trigger] built[i].0,
                        #[trigger] built[j].0,
                    ) by {
                        assert(table::before(all[i].0, all[j].0));
                    }
                    assert forall|k: int| 0 <= k < built.len() implies tree_in(
                        (#[trigger] built[k]).1,
                        below,
                    ) == Some(fields@[k].1@) by {
                        assert(plain(all[k].1, below));
                        assert(plain(fields@[k].1@, below));
                    }
                    assert(tree_in(r, levels)->0->Object_0 =~= all);
                }
                r
            },
        }
    }
}

/// What `parse_json` reads out of a text.
pub open spec fn parsed_tree(text: Seq<char>) -> Option<Tree> {
    match json_parsed(text) {
        Some(value) => tree_in(value, ANY_DEPTH as nat),
        None => None,
    }
}

/// What `print_json` writes for a tree.
pub open spec fn printed_tree(tree: Tree) -> Seq<char> {
    json_printed(value_of(tree))
}

/// Reads a JSON text; `None` where `serde_json` refuses it, or finds more levels than memory
/// holds.
pub fn parse_json(text: &str) -> (r: Option<Json>)
    ensures
        r is Some <==> parsed_tree(text@) is Some,
        r is Some ==> parsed_tree(text@) == Some(r->0@),
{
    match parse_value(text) {
        Some(value) => Json::from_value(&value, ANY_DEPTH),
        None => None,
    }
}

/// A tree that is read back from its text as it is.
pub open spec fn readable(tree: Tree) -> bool {
    plain(tree, PARSED_DEPTH as nat) && ordinary(tree, PARSED_DEPTH as nat)
}

/// Writes a tree as JSON text. Reading an ordinary tree's text gives the tree back.
pub fn print_json(json: &Json) -> (r: String)
    ensures
        r@ == printed_tree(json@),
        readable(json@) ==> parsed_tree(r@) == Some(json@),
{
    let value = json.to_value();
    let r = print_value(&value);
    proof {
        if readable(json@) {
            assert(plain(json@, PARSED_DEPTH as nat));
            lemma_deeper(json_parsed(r@)->0, PARSED_DEPTH as nat, ANY_DEPTH as nat);
        }
    }
    r
}

// ---------------------------------------------------------------------------
// Laws
// ---------------------------------------------------------------------------

/// Of the fields with one key the first counts, and only an object has fields.
pub proof fn first_field_counts(fields: Seq<(Seq<char>, Tree)>, key: Seq<char>, at: int)
    requires
        0 <= at < fields.len(),
        fields[at].0 == key,
        forall|i: int| 0 <= i < at ==> (#[trigger] fields[i]).0 != key,
    ensures
        Tree::Object(fields).get(key) == Some(fields[at].1),
    decreases at,
{
    if at > 0 {
        let rest = fields.drop_first();
        assert(fields[0].0 != key);
        assert forall|i: int| 0 <= i < at - 1 implies (#[trigger] rest[i]).0 != key by {
            assert(rest[i] == fields[i + 1]);
        }
        first_field_counts(rest, key, at - 1);
    }
}

/// A key that no field has leads nowhere, and neither does any key where there is no
/// object.
pub proof fn missing_field_is_none(tree: Tree, key: Seq<char>)
    requires
        tree matches Tree::Object(fields) ==> forall|i: int|
            0 <= i < fields.len() ==> (#[trigger] fields[i]).0 != key,
    ensures
        tree.get(key) is None,
        tree.text_at(key) is None,
        tree.unsigned_at(key) is None,
        tree.items_at(key) is None,
        tree.text_or_empty(key).len() == 0,
{
    match tree {
        Tree::Object(fields) => {
            lemma_no_such_field(fields, key);
        },
        _ => {},
    }
}

proof fn lemma_no_such_field(fields: Seq<(Seq<char>, Tree)>, key: Seq<char>)
    requires
        forall|i: int| 0 <= i < fields.len() ==> (#[trigger] fields[i]).0 != key,
    ensures
        field(fields, key) is None,
    decreases fields.len(),
{
    if fields.len() > 0 {
        let rest = fields.drop_first();
        assert(fields[0].0 != key);
        assert forall|i: int| 0 <= i < rest.len() implies (#[trigger] rest[i]).0 != key by {
            assert(rest[i] == fields[i + 1]);
        }
        lemma_no_such_field(rest, key);
    }
}

/// A field is read as what it is: a text as a text, a whole number from zero up as a
/// number, an array as its items, and as nothing else.
pub proof fn fields_are_read_as_what_they_are(tree: Tree, key: Seq<char>, value: Tree)
    requires
        tree.get(key) == Some(value),
    ensures
        forall|s: Seq<char>| #![auto] value == Tree::Text(s) <==> tree.text_at(key) == Some(s),
        forall|n: u64|
            #![auto]
            value == Tree::Number(Numeral::Unsigned(n)) <==> tree.unsigned_at(key) == Some(n),
        forall|v: Seq<Tree>| #![auto] value == Tree::Array(v) <==> tree.items_at(key) == Some(v),
        forall|s: Seq<char>| #![auto] value == Tree::Text(s) ==> tree.text_or_empty(key) == s,
        !(value is Text) ==> tree.text_or_empty(key).len() == 0,
{
}

/// The head of an array is its first item.
pub proof fn head_is_the_first_item(first: Tree, more: Seq<Tree>)
    ensures
        Tree::Array(seq![first] + more).head() == Some(first),
        Tree::Array(Seq::empty()).head() is None,
{
}

/// A field that is pushed behind others is found by its key, unless one of the others has
/// that key; the others are found as before.
pub proof fn pushed_field_is_found(
    fields: Seq<(Seq<char>, Tree)>,
    key: Seq<char>,
    value: Tree,
    asked: Seq<char>,
)
    ensures
        Tree::Object(fields.push((key, value))).get(asked) == (match Tree::Object(fields).get(
            asked,
        ) {
            Some(t) => Some(t),
            None => if key == asked {
                Some(value)
            } else {
                None
            },
        }),
    decreases fields.len(),
{
    let all = fields.push((key, value));
    if fields.len() > 0 {
        let rest = fields.drop_first();
        assert(all.drop_first() =~= rest.push((key, value)));
        pushed_field_is_found(rest, key, value, asked);
    } else {
        assert(all.drop_first() =~= Seq::<(Seq<char>, Tree)>::empty());
        assert(field(all.drop_first(), asked) is None);
    }
}

/// What a single field holds is found by its key.
pub proof fn lemma_one_field(key: Seq<char>, value: Tree)
    ensures
        Tree::Object(no_fields().push((key, value))).get(key) == Some(value),
{
    first_field_counts(no_fields().push((key, value)), key, 0);
}

/// What two fields hold is found by their keys.
pub proof fn lemma_two_fields(a: Seq<char>, x: Tree, b: Seq<char>, y: Tree)
    requires
        a != b,
    ensures
        Tree::Object(no_fields().push((a, x)).push((b, y))).get(a) == Some(x),
        Tree::Object(no_fields().push((a, x)).push((b, y))).get(b) == Some(y),
{
    let fields = no_fields().push((a, x)).push((b, y));
    first_field_counts(fields, a, 0);
    first_field_counts(fields, b, 1);
}

/// What three fields hold is found by their keys.
pub proof fn lemma_three_fields(
    a: Seq<char>,
    x: Tree,
    b: Seq<char>,
    y: Tree,
    c: Seq<char>,
    z: Tree,
)
    requires
        a != b,
        a != c,
        b != c,
    ensures
        Tree::Object(no_fields().push((a, x)).push((b, y)).push((c, z))).get(a) == Some(x),
        Tree::Object(no_fields().push((a, x)).push((b, y)).push((c, z))).get(b) == Some(y),
        Tree::Object(no_fields().push((a, x)).push((b, y)).push((c, z))).get(c) == Some(z),
{
    let fields = no_fields().push((a, x)).push((b, y)).push((c, z));
    first_field_counts(fields, a, 0);
    first_field_counts(fields, b, 1);
    first_field_counts(fields, c, 2);
}

/// A `serde_json::Value` is read as what it is, level by level.
pub proof fn values_are_read_as_what_they_are(value: serde_json::Value, levels: nat)
    requires
        levels > 0,
    ensures
        json_node(value) == NodeView::Null ==> tree_in(value, levels) == Some(Tree::Null),
        json_node(value) matches NodeView::Bool(b) ==> tree_in(value, levels) == Some(
            Tree::Bool(b),
        ),
        json_node(value) matches NodeView::Text(s) ==> tree_in(value, levels) == Some(
            Tree::Text(s),
        ),
        json_node(value) matches NodeView::Number(n) ==> tree_in(value, levels) is Some && (
        number_u64(n) is Some ==> tree_in(value, levels)->0.unsigned() == number_u64(n)) && (
        number_u64(n) is None ==> tree_in(value, levels)->0.unsigned() is None),
        json_node(value) is Array && tree_in(value, levels) is Some ==> {
            let items = json_node(value)->Array_0;
            let read = tree_in(value, levels)->0.items();
            &&& read is Some
            &&& read->0.len() == items.len()
            &&& forall|i: int|
                0 <= i < items.len() ==> Some(#[trigger] read->0[i]) == tree_in(
                    items[i],
                    (levels - 1) as nat,
                )
        },
        json_node(value) is Object && tree_in(value, levels) is Some ==> {
            let fields = json_node(value)->Object_0;
            let read = tree_in(value, levels)->0;
            &&& read is Object
            &&& read->Object_0.len() == fields.len()
            &&& forall|i: int|
                0 <= i < fields.len() ==> (#[trigger] read->Object_0[i]).0 == fields[i].0 && Some(
                    read->Object_0[i].1,
                ) == tree_in(fields[i].1, (levels - 1) as nat)
        },
{
}

/// A tree is built as what it is, level by level.
pub proof fn trees_are_built_as_what_they_are(tree: Tree)
    ensures
        tree == Tree::Null ==> level_of(tree) == NodeView::Null,
        tree matches Tree::Bool(b) ==> level_of(tree) == NodeView::Bool(b),
        tree matches Tree::Text(s) ==> level_of(tree) == NodeView::Text(s),
        tree is Array ==> {
            let items = tree->Array_0;
            let made = level_of(tree)->Array_0;
            &&& level_of(tree) is Array
            &&& made.len() == items.len()
            &&& forall|i: int|
                0 <= i < items.len() ==> #[trigger] made[i] == json_built(level_of(items[i]))
        },
        tree is Object ==> {
            let fields = tree->Object_0;
            let made = level_of(tree)->Object_0;
            &&& level_of(tree) is Object
            &&& made.len() == fields.len()
            &&& forall|i: int|
                0 <= i < fields.len() ==> #[trigger] made[i] == (
                fields[i].0, json_built(level_of(fields[i].1)))
        },
{
}

/// A text that `serde_json` reads is read whole, as long as it is not more than 127 levels
/// deep, and what `serde_json` refuses is refused.
pub proof fn texts_are_read_whole(text: Seq<char>)
    ensures
        json_parsed(text) is None ==> parsed_tree(text) is None,
        json_parsed(text) is Some && tree_in(json_parsed(text)->0, 127) is Some ==> parsed_tree(
            text,
        ) == tree_in(json_parsed(text)->0, 127),
{
    if json_parsed(text) is Some && tree_in(json_parsed(text)->0, 127) is Some {
        lemma_deeper(json_parsed(text)->0, 127, ANY_DEPTH as nat);
    }
}

/// A number is read by what `serde_json` can hold it as: a whole number from zero up, one
/// below zero, or as it is; and it is built as what it is.
pub proof fn numbers_are_read_as_what_they_are(n: serde_json::Number, u: u64, i: i64)
    ensures
        number_u64(n) == Some(u) ==> numeral(n) == Numeral::Unsigned(u),
        number_u64(n) is None && number_i64(n) == Some(i) ==> numeral(n) == Numeral::Negative(i),
        number_u64(n) is None && number_i64(n) is None ==> numeral(n) == Numeral::Real(n),
        number_in(Numeral::Unsigned(u)) == number_of_u64(u),
        number_in(Numeral::Negative(i)) == number_of_i64(i),
        number_in(Numeral::Real(n)) == n,
{
}

} // verus!
