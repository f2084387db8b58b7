//! JSON values as plain data.

use vstd::prelude::*;
use vstd::string::*;
use crate::scan;
use crate::text::{opt_str_view, opt_view};

verus! {

broadcast use vstd::string::group_string_axioms;

/// A JSON value. A number is held as the text of its floating-point value.
#[derive(Debug)]
pub enum Json {
    Null,
    Bool(bool),
    Number(Option<String>),
    Text(String),
    List(Vec<Json>),
    Object(Vec<(String, Json)>),
}

/// What a JSON value holds.
pub enum JsonTree {
    Null,
    Bool(bool),
    Number(Option<Seq<char>>),
    Text(Seq<char>),
    List(Seq<JsonTree>),
    Object(Seq<(Seq<char>, JsonTree)>),
}

impl Json {
    /// What the value holds.
    pub open spec fn tree(self) -> JsonTree
        decreases self,
    {
        match self {
            Json::Null => JsonTree::Null,
            Json::Bool(b) => JsonTree::Bool(b),
            Json::Number(n) => JsonTree::Number(opt_view(n)),
            Json::Text(s) => JsonTree::Text(s@),
            Json::List(items) => JsonTree::List(
                Seq::new(
                    items@.len(),
                    |i: int|
                        if 0 <= i < items@.len() {
                            items@[i].tree()
                        } else {
                            JsonTree::Null
                        },
                ),
            ),
            Json::Object(entries) => JsonTree::Object(
                Seq::new(
                    entries@.len(),
                    |i: int|
                        if 0 <= i < entries@.len() {
                            (entries@[i].0@, entries@[i].1.tree())
                        } else {
                            (Seq::empty(), JsonTree::Null)
                        },
                ),
            ),
        }
    }
}

// ---------------------------------------------------------------------------
// Parsing
// ---------------------------------------------------------------------------

/// A JSON value as the JSON parser returns it.
#[verifier::external_type_specification]
#[verifier::external_body]
pub struct ExValue(serde_json::Value);

/// What a parsed JSON value holds.
pub uninterp spec fn json_contents(value: serde_json::Value) -> JsonTree;

/// The JSON value that a text writes.
pub uninterp spec fn parsed_json(text: Seq<char>) -> Option<JsonTree>;

/// `serde_json::from_str` into a JSON value: what the text writes, if it writes
/// one value and nothing more.
#[verifier::external_body]
fn parse_value(text: &str) -> (r: Option<serde_json::Value>)
    ensures
        parsed_json(text@) == (match r {
            Some(value) => Some(json_contents(value)),
            None => None,
        }),
{
    serde_json::from_str(text).ok()
}

/// The outermost layer of a parsed JSON value.
enum Layer<'a> {
    Null,
    Bool(bool),
    Number(Option<String>),
    Text(String),
    List(&'a Vec<serde_json::Value>),
    Object(Vec<(&'a String, &'a serde_json::Value)>),
}

/// The variants of `serde_json::Value`: which of them a value is, and what it
/// holds, for a number the text of `Number::as_f64`.
#[verifier::external_body]
fn outer_layer<'a>(value: &'a serde_json::Value) -> (r: Layer<'a>)
    ensures
        match r {
            Layer::Null => json_contents(*value) == JsonTree::Null,
            Layer::Bool(b) => json_contents(*value) == JsonTree::Bool(b),
            Layer::Number(n) => json_contents(*value) == JsonTree::Number(opt_view(n)),
            Layer::Text(t) => json_contents(*value) == JsonTree::Text(t@),
            Layer::List(items) => {
                &&& json_contents(*value) is List
                &&& json_contents(*value)->List_0.len() == items@.len()
                &&& forall|i: int|
                    0 <= i < items@.len() ==> json_contents(#[trigger] items@[i]) == json_contents(
                        *value,
                    )->List_0[i]
            },
            Layer::Object(entries) => {
                &&& json_contents(*value) is Object
                &&& json_contents(*value)->Object_0.len() == entries@.len()
                &&& forall|i: int|
                    0 <= i < entries@.len() ==> (
                        (#[trigger] entries@[i]).0@,
                        json_contents(*entries@[i].1),
                    ) == json_contents(*value)->Object_0[i]
            },
        },
{
    match value {
        serde_json::Value::Null => Layer::Null,
        serde_json::Value::Bool(b) => Layer::Bool(*b),
        serde_json::Value::Number(n) => Layer::Number(n.as_f64().map(|x| x.to_string())),
        serde_json::Value::String(s) => Layer::Text(s.clone()),
        serde_json::Value::Array(items) => Layer::List(items),
        serde_json::Value::Object(map) => Layer::Object(map.iter().collect()),
    }
}

/// A parsed JSON value as plain data.
fn to_json(value: &serde_json::Value) -> (r: Json)
    ensures
        r.tree() == json_contents(*value),
    decreases json_contents(*value),
{
    match outer_layer(value) {
        Layer::Null => Json::Null,
        Layer::Bool(b) => Json::Bool(b),
        Layer::Number(n) => Json::Number(n),
        Layer::Text(t) => Json::Text(t),
        Layer::List(items) => {
            let ghost trees = json_contents(*value)->List_0;
            let mut out: Vec<Json> = Vec::new();
            let mut i: usize = 0;
            while i < items.len()
                invariant
                    i <= items@.len(),
                    out@.len() == i,
                    json_contents(*value) is List,
                    trees == json_contents(*value)->List_0,
                    trees.len() == items@.len(),
                    forall|k: int|
                        0 <= k < items@.len() ==> json_contents(#[trigger] items@[k]) == trees[k],
                    forall|k: int| 0 <= k < i ==> (#[trigger] out@[k]).tree() == trees[k],
                decreases items@.len() - i,
            {
                assert(json_contents(items@[i as int]) == trees[i as int]);
                out.push(to_json(&items[i]));
                i += 1;
            }
            let r: Json = Json::List(out);
            assert(r.tree()->List_0 =~= trees);
            r
        },
        Layer::Object(entries) => {
            let ghost trees = json_contents(*value)->Object_0;
            let mut out: Vec<(String, Json)> = Vec::new();
            let mut i: usize = 0;
            while i < entries.len()
                invariant
                    i <= entries@.len(),
                    out@.len() == i,
                    json_contents(*value) is Object,
                    trees == json_contents(*value)->Object_0,
                    trees.len() == entries@.len(),
                    forall|k: int|
                        0 <= k < entries@.len() ==> (
                            (#[trigger] entries@[k]).0@,
                            json_contents(*entries@[k].1),
                        ) == trees[k],
                    forall|k: int|
                        0 <= k < i ==> ((#[trigger] out@[k]).0@, out@[k].1.tree()) == trees[k],
                decreases entries@.len() - i,
            {
                let (key, item): (&String, &serde_json::Value) = entries[i];
                assert(json_contents(*item) == trees[i as int].1);
                let converted: Json = to_json(item);
                out.push((key.clone(), converted));
                i += 1;
            }
            let r: Json = Json::Object(out);
            assert(r.tree()->Object_0 =~= trees);
            r
        },
    }
}

/// The JSON value that a text writes.
pub fn parse(value: &str) -> (r: Option<Json>)
    ensures
        parsed_json(value@) == (match r {
            Some(json) => Some(json.tree()),
            None => None,
        }),
{
    match parse_value(value) {
        Some(parsed) => Some(to_json(&parsed)),
        None => None,
    }
}

// ---------------------------------------------------------------------------
// Access
// ---------------------------------------------------------------------------

/// The value of the first entry named `key` among the entries from `at` on.
pub open spec fn entry(entries: Seq<(Seq<char>, JsonTree)>, key: Seq<char>, at: int) -> Option<
    JsonTree,
>
    decreases entries.len() - at,
{
    if at < 0 || at >= entries.len() {
        None
    } else if entries[at].0 == key {
        Some(entries[at].1)
    } else {
        entry(entries, key, at + 1)
    }
}

impl JsonTree {
    /// The member `key` of an object.
    pub open spec fn member(self, key: Seq<char>) -> Option<JsonTree> {
        match self {
            JsonTree::Object(entries) => entry(entries, key, 0),
            _ => None,
        }
    }

    /// The text of a value that is a text.
    pub open spec fn text(self) -> Option<Seq<char>> {
        match self {
            JsonTree::Text(t) => Some(t),
            _ => None,
        }
    }

    /// The items of a value that is a list.
    pub open spec fn items(self) -> Option<Seq<JsonTree>> {
        match self {
            JsonTree::List(items) => Some(items),
            _ => None,
        }
    }

    /// The text at a member.
    pub open spec fn text_at(self, key: Seq<char>) -> Option<Seq<char>> {
        match self.member(key) {
            Some(t) => t.text(),
            None => None,
        }
    }

    /// The items at a member.
    pub open spec fn items_at(self, key: Seq<char>) -> Option<Seq<JsonTree>> {
        match self.member(key) {
            Some(t) => t.items(),
            None => None,
        }
    }
}

/// What an optional JSON value holds.
pub open spec fn opt_tree(json: Option<&Json>) -> Option<JsonTree> {
    match json {
        Some(j) => Some(j.tree()),
        None => None,
    }
}

impl Json {
    /// The member `key` of an object.
    pub fn get(&self, key: &str) -> (r: Option<&Json>)
        ensures
            opt_tree(r) == self.tree().member(key@),
    {
        match self {
            Json::Object(entries) => {
                let ghost trees = self.tree()->Object_0;
                let mut i: usize = 0;
                while i < entries.len()
                    invariant
                        i <= entries@.len(),
                        self.tree() == JsonTree::Object(trees),
                        trees.len() == entries@.len(),
                        forall|k: int|
                            0 <= k < entries@.len() ==> trees[k] == (
                                (#[trigger] entries@[k]).0@,
                                entries@[k].1.tree(),
                            ),
                        entry(trees, key@, 0) == entry(trees, key@, i as int),
                    decreases entries@.len() - i,
                {
                    assert(trees[i as int] == (entries@[i as int].0@, entries@[i as int].1.tree()));
                    if scan::same(entries[i].0.as_str(), key) {
                        return Some(&entries[i].1);
                    }
                    i += 1;
                }
                None
            },
            _ => None,
        }
    }

    /// The text of a value that is a text.
    pub fn as_text(&self) -> (r: Option<&str>)
        ensures
            opt_str_view(r) == self.tree().text(),
    {
        match self {
            Json::Text(t) => Some(t.as_str()),
            _ => None,
        }
    }

    /// The text at a member.
    pub fn get_text(&self, key: &str) -> (r: Option<&str>)
        ensures
            opt_str_view(r) == self.tree().text_at(key@),
    {
        match self.get(key) {
            Some(json) => json.as_text(),
            None => None,
        }
    }

    /// The items of a value that is a list.
    pub fn as_list(&self) -> (r: Option<&Vec<Json>>)
        ensures
            match r {
                Some(items) => {
                    &&& self.tree().items() is Some
                    &&& self.tree().items()->0 == trees(items@)
                },
                None => self.tree().items() is None,
            },
    {
        match self {
            Json::List(items) => {
                assert(self.tree()->List_0 =~= trees(items@));
                Some(items)
            },
            _ => None,
        }
    }

    /// The items at a member.
    pub fn get_list(&self, key: &str) -> (r: Option<&Vec<Json>>)
        ensures
            match r {
                Some(items) => {
                    &&& self.tree().items_at(key@) is Some
                    &&& self.tree().items_at(key@)->0 == trees(items@)
                },
                None => self.tree().items_at(key@) is None,
            },
    {
        match self.get(key) {
            Some(json) => json.as_list(),
            None => None,
        }
    }
}

/// What each value of a list holds.
pub open spec fn trees(items: Seq<Json>) -> Seq<JsonTree> {
    items.map_values(|j: Json| j.tree())
}

// ---------------------------------------------------------------------------
// Laws
// ---------------------------------------------------------------------------

/// An object's member is the value of its first entry with that key; without such an
/// entry there is none, and only objects have members.
pub proof fn law_the_first_entry_of_a_key_counts(
    entries: Seq<(Seq<char>, JsonTree)>,
    key: Seq<char>,
    i: int,
)
    ensures
        0 <= i < entries.len() && entries[i].0 == key && (forall|j: int|
            0 <= j < i ==> (#[trigger] entries[j]).0 != key) ==> JsonTree::Object(entries).member(
            key,
        ) == Some(entries[i].1),
        (forall|j: int| 0 <= j < entries.len() ==> (#[trigger] entries[j]).0 != key)
            ==> JsonTree::Object(entries).member(key) is None,
        forall|t: JsonTree| !(t is Object) ==> (#[trigger] t.member(key)) is None,
{
    if 0 <= i < entries.len() && entries[i].0 == key && (forall|j: int|
        0 <= j < i ==> (#[trigger] entries[j]).0 != key) {
        lemma_first_entry(entries, key, 0, i);
    }
    if forall|j: int| 0 <= j < entries.len() ==> (#[trigger] entries[j]).0 != key {
        lemma_no_entry(entries, key, 0);
    }
}

/// The first entry with a key, from a position on.
proof fn lemma_first_entry(
    entries: Seq<(Seq<char>, JsonTree)>,
    key: Seq<char>,
    at: int,
    i: int,
)
    requires
        0 <= at <= i < entries.len(),
        entries[i].0 == key,
        forall|j: int| at <= j < i ==> (#[trigger] entries[j]).0 != key,
    ensures
        entry(entries, key, at) == Some(entries[i].1),
    decreases i - at,
{
    if at < i {
        lemma_first_entry(entries, key, at + 1, i);
    }
}

/// Entries of which none has the key.
proof fn lemma_no_entry(entries: Seq<(Seq<char>, JsonTree)>, key: Seq<char>, at: int)
    requires
        0 <= at,
        forall|j: int| 0 <= j < entries.len() ==> (#[trigger] entries[j]).0 != key,
    ensures
        entry(entries, key, at) is None,
    decreases entries.len() - at,
{
    if at < entries.len() {
        lemma_no_entry(entries, key, at + 1);
    }
}

/// Only a text has text, and only a list has items; a member has them as the value
/// there has them.
pub proof fn law_members_have_what_their_values_have(
    t: JsonTree,
    key: Seq<char>,
    s: Seq<char>,
    items: Seq<JsonTree>,
)
    ensures
        t.text_at(key) == Some(s) <==> t.member(key) == Some(JsonTree::Text(s)),
        t.items_at(key) == Some(items) <==> t.member(key) == Some(JsonTree::List(items)),
        t.text_at(key) is None <==> t.member(key) is None || !(t.member(key)->0 is Text),
        t.items_at(key) is None <==> t.member(key) is None || !(t.member(key)->0 is List),
        t.text() == Some(s) <==> t == JsonTree::Text(s),
        t.items() == Some(items) <==> t == JsonTree::List(items),
{
}

/// A value holds what its variant says: lists and objects keep every item, in order.
pub proof fn law_values_hold_what_they_are(j: Json, i: int)
    ensures
        j is Null <==> j.tree() is Null,
        j matches Json::Bool(b) ==> j.tree() == JsonTree::Bool(b),
        j matches Json::Number(n) ==> j.tree() == JsonTree::Number(opt_view(n)),
        j matches Json::Text(s) ==> j.tree() == JsonTree::Text(s@),
        j matches Json::List(items) ==> j.tree() is List && j.tree()->List_0.len() == items@.len()
            && (0 <= i < items@.len() ==> j.tree()->List_0[i] == items@[i].tree()),
        j matches Json::Object(entries) ==> j.tree() is Object && j.tree()->Object_0.len()
            == entries@.len() && (0 <= i < entries@.len() ==> j.tree()->Object_0[i] == (
            entries@[i].0@,
            entries@[i].1.tree(),
        )),
{
}

} // verus!
