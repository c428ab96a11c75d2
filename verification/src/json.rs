//! JSON documents as plain values.
use vstd::prelude::*;

use crate::text::same_text;

verus! {

/// A JSON value. Of a number only its value as an unsigned integer is kept, if it has one; the
/// members of an object stand in the order in which the document's map hands them out.
pub enum Json {
    Null,
    Bool(bool),
    Number(Option<u64>),
    Text(String),
    Array(Vec<Json>),
    Object(Vec<(String, Json)>),
}

/// The mathematical form of a JSON value.
pub enum JsonTree {
    Null,
    Bool(bool),
    Number(Option<u64>),
    Text(Seq<char>),
    Array(Seq<JsonTree>),
    Object(Seq<(Seq<char>, JsonTree)>),
}

/// The mathematical form of `json`.
pub open spec fn tree_of(json: Json) -> JsonTree
    decreases json,
{
    match json {
        Json::Null => JsonTree::Null,
        Json::Bool(b) => JsonTree::Bool(b),
        Json::Number(n) => JsonTree::Number(n),
        Json::Text(t) => JsonTree::Text(t@),
        Json::Array(items) => JsonTree::Array(trees_of(items@)),
        Json::Object(members) => JsonTree::Object(members_of(members@)),
    }
}

/// The mathematical form of a list of values.
pub open spec fn trees_of(items: Seq<Json>) -> Seq<JsonTree>
    decreases items,
{
    if items.len() == 0 {
        Seq::empty()
    } else {
        trees_of(items.drop_last()).push(tree_of(items.last()))
    }
}

/// The mathematical form of a list of members.
pub open spec fn members_of(members: Seq<(String, Json)>) -> Seq<(Seq<char>, JsonTree)>
    decreases members,
{
    if members.len() == 0 {
        Seq::empty()
    } else {
        members_of(members.drop_last()).push((members.last().0@, tree_of(members.last().1)))
    }
}

impl View for Json {
    type V = JsonTree;

    open spec fn view(&self) -> JsonTree {
        tree_of(*self)
    }
}

/// The items of the mathematical form are those of the list.
pub proof fn lemma_trees_of(items: Seq<Json>)
    ensures
        trees_of(items).len() == items.len(),
        forall|i: int| 0 <= i < items.len() ==> #[trigger] trees_of(items)[i] == items[i]@,
    decreases items.len(),
{
    if items.len() > 0 {
        lemma_trees_of(items.drop_last());
        assert forall|i: int| 0 <= i < items.len() implies #[trigger] trees_of(items)[i]
            == items[i]@ by {
            if i < items.len() - 1 {
                assert(trees_of(items)[i] == trees_of(items.drop_last())[i]);
                assert(items.drop_last()[i] == items[i]);
            }
        }
    }
}

/// The members of the mathematical form are those of the list.
pub proof fn lemma_members_of(members: Seq<(String, Json)>)
    ensures
        members_of(members).len() == members.len(),
        forall|i: int|
            0 <= i < members.len() ==> #[trigger] members_of(members)[i] == (
                members[i].0@,
                members[i].1@,
            ),
    decreases members.len(),
{
    if members.len() > 0 {
        lemma_members_of(members.drop_last());
        assert forall|i: int| 0 <= i < members.len() implies #[trigger] members_of(members)[i] == (
            members[i].0@,
            members[i].1@,
        ) by {
            if i < members.len() - 1 {
                assert(members_of(members)[i] == members_of(members.drop_last())[i]);
                assert(members.drop_last()[i] == members[i]);
            }
        }
    }
}

/// The index of the first member at or after `from` with the given key, or their number.
pub open spec fn key_index(members: Seq<(Seq<char>, JsonTree)>, key: Seq<char>, from: int) -> int
    decreases members.len() - from,
{
    if from >= members.len() {
        members.len() as int
    } else if members[from].0 == key {
        from
    } else {
        key_index(members, key, from + 1)
    }
}

impl JsonTree {
    /// The value of the member `key` of an object.
    pub open spec fn member(self, key: Seq<char>) -> Option<JsonTree> {
        match self {
            JsonTree::Object(members) => {
                let at = key_index(members, key, 0);
                if at < members.len() {
                    Some(members[at].1)
                } else {
                    None
                }
            },
            _ => None,
        }
    }

    /// The characters of a string value.
    pub open spec fn text(self) -> Option<Seq<char>> {
        match self {
            JsonTree::Text(t) => Some(t),
            _ => None,
        }
    }

    /// The characters of the member `key`, where that is a string.
    pub open spec fn member_text(self, key: Seq<char>) -> Option<Seq<char>> {
        match self.member(key) {
            Some(value) => value.text(),
            None => None,
        }
    }
}

impl Json {
    /// The value of the member `key`, if this is an object that has one.
    pub fn get(&self, key: &str) -> (r: Option<&Json>)
        ensures
            match r {
                Some(value) => self@.member(key@) == Some(value@),
                None => self@.member(key@) is None,
            },
    {
        match self {
            Json::Object(members) => {
                proof {
                    lemma_members_of(members@);
                }
                let ghost all = members_of(members@);
                let mut i: usize = 0;
                while i < members.len()
                    invariant
                        i <= members@.len(),
                        all == members_of(members@),
                        all.len() == members@.len(),
                        forall|k: int|
                            0 <= k < members@.len() ==> #[trigger] all[k] == (
                                members@[k].0@,
                                members@[k].1@,
                            ),
                        key_index(all, key@, i as int) == key_index(all, key@, 0),
                        self@ == JsonTree::Object(all),
                    decreases members@.len() - i,
                {
                    proof {
                        assert(all[i as int] == (members@[i as int].0@, members@[i as int].1@));
                    }
                    if same_text(members[i].0.as_str(), key) {
                        return Some(&members[i].1);
                    }
                    i += 1;
                }
                None
            },
            _ => None,
        }
    }

    /// The characters of a string value.
    pub fn as_str(&self) -> (r: Option<&str>)
        ensures
            match r {
                Some(t) => self@.text() == Some(t@),
                None => self@.text() is None,
            },
    {
        match self {
            Json::Text(t) => Some(t.as_str()),
            _ => None,
        }
    }

    /// The characters of the member `key`, where that is a string.
    pub fn get_str(&self, key: &str) -> (r: Option<&str>)
        ensures
            match r {
                Some(t) => self@.member_text(key@) == Some(t@),
                None => self@.member_text(key@) is None,
            },
    {
        match self.get(key) {
            Some(value) => value.as_str(),
            None => None,
        }
    }
}

/// The outside crate's JSON value, which holds a [`JsonTree`].
#[verifier::external_type_specification]
#[verifier::external_body]
pub struct ExValue(serde_json::Value);

/// The outside crate's parse error.
#[verifier::external_type_specification]
#[verifier::external_body]
pub struct ExJsonError(serde_json::Error);

/// What a `serde_json::Value` holds.
pub uninterp spec fn value_tree(value: serde_json::Value) -> JsonTree;

/// What `serde_json::from_slice` reads from the bytes of a document; `None` where it refuses them.
pub uninterp spec fn json_document(bytes: Seq<u8>) -> Option<JsonTree>;

/// One level of a `serde_json::Value`.
pub enum Shape<'a> {
    Null,
    Bool(bool),
    Number(Option<u64>),
    Text(&'a String),
    Array(&'a Vec<serde_json::Value>),
    Object(Vec<(&'a String, &'a serde_json::Value)>),
}

/// What the items of an array hold.
pub open spec fn value_trees(items: Seq<serde_json::Value>) -> Seq<JsonTree> {
    Seq::new(items.len(), |i: int| value_tree(items[i]))
}

/// What the members of an object hold.
pub open spec fn value_members(members: Seq<(&String, &serde_json::Value)>) -> Seq<
    (Seq<char>, JsonTree),
> {
    Seq::new(members.len(), |i: int| (members[i].0@, value_tree(*members[i].1)))
}

/// `serde_json::from_slice::<serde_json::Value>`: reads a document. The result depends on the
/// bytes alone.
#[verifier::external_body]
fn parse_value(bytes: &[u8]) -> (r: Result<serde_json::Value, serde_json::Error>)
    ensures
        match r {
            Ok(value) => json_document(bytes@) == Some(value_tree(value)),
            Err(_) => json_document(bytes@) is None,
        },
{
    serde_json::from_slice::<serde_json::Value>(bytes)
}

/// Tells the variants of `serde_json::Value` apart: the result is the outermost level of what the
/// value holds. Of a number it takes `Number::as_u64`; of an object the members of its map in the
/// order in which `Map::iter` hands them out.
#[verifier::external_body]
fn shape_of(value: &serde_json::Value) -> (r: Shape<'_>)
    ensures
        value_tree(*value) == match r {
            Shape::Null => JsonTree::Null,
            Shape::Bool(b) => JsonTree::Bool(b),
            Shape::Number(n) => JsonTree::Number(n),
            Shape::Text(t) => JsonTree::Text(t@),
            Shape::Array(items) => JsonTree::Array(value_trees(items@)),
            Shape::Object(members) => JsonTree::Object(value_members(members@)),
        },
{
    match value {
        serde_json::Value::Null => Shape::Null,
        serde_json::Value::Bool(b) => Shape::Bool(*b),
        serde_json::Value::Number(n) => Shape::Number(n.as_u64()),
        serde_json::Value::String(t) => Shape::Text(t),
        serde_json::Value::Array(items) => Shape::Array(items),
        serde_json::Value::Object(map) => Shape::Object(map.iter().collect()),
    }
}

/// The plain form of an outside JSON value.
pub fn json_of(value: &serde_json::Value) -> (r: Json)
    ensures
        r@ == value_tree(*value),
    decreases value_tree(*value),
{
    match shape_of(value) {
        Shape::Null => Json::Null,
        Shape::Bool(b) => Json::Bool(b),
        Shape::Number(n) => Json::Number(n),
        Shape::Text(t) => Json::Text(t.clone()),
        Shape::Array(items) => {
            let mut list: Vec<Json> = Vec::new();
            let mut i: usize = 0;
            while i < items.len()
                invariant
                    i <= items@.len(),
                    value_tree(*value) == JsonTree::Array(value_trees(items@)),
                    trees_of(list@) == value_trees(items@).take(i as int),
                decreases items@.len() - i,
            {
                proof {
                    assert(value_trees(items@)[i as int] == value_tree(items@[i as int]));
                    let tree = value_tree(*value);
                    assert(decreases_to!(tree => tree->Array_0));
                    assert(decreases_to!(tree->Array_0 => tree->Array_0[i as int]));
                }
                let item = json_of(&items[i]);
                let ghost before = list@;
                list.push(item);
                proof {
                    assert(list@.drop_last() == before);
                }
                i += 1;
            }
            proof {
                assert(value_trees(items@).take(items@.len() as int) == value_trees(items@));
            }
            Json::Array(list)
        },
        Shape::Object(members) => {
            let mut list: Vec<(String, Json)> = Vec::new();
            let mut i: usize = 0;
            while i < members.len()
                invariant
                    i <= members@.len(),
                    value_tree(*value) == JsonTree::Object(value_members(members@)),
                    members_of(list@) == value_members(members@).take(i as int),
                decreases members@.len() - i,
            {
                proof {
                    assert(value_members(members@)[i as int].1 == value_tree(*members@[i as int].1));
                    let tree = value_tree(*value);
                    assert(decreases_to!(tree => tree->Object_0));
                    assert(decreases_to!(tree->Object_0 => tree->Object_0[i as int]));
                    assert(decreases_to!(tree->Object_0[i as int] => tree->Object_0[i as int].1));
                }
                let item = json_of(members[i].1);
                let ghost before = list@;
                list.push((members[i].0.clone(), item));
                proof {
                    assert(list@.drop_last() == before);
                }
                i += 1;
            }
            proof {
                assert(value_members(members@).take(members@.len() as int) == value_members(
                    members@,
                ));
            }
            Json::Object(list)
        },
    }
}

/// Reads a JSON document.
pub fn parse_json(bytes: &[u8]) -> (r: Option<Json>)
    ensures
        match r {
            Some(json) => json_document(bytes@) == Some(json@),
            None => json_document(bytes@) is None,
        },
{
    match parse_value(bytes) {
        Ok(value) => Some(json_of(&value)),
        Err(_) => None,
    }
}

/// A member of an object is found under its name, wherever it stands, unless an earlier one has the
/// same name; what is not an object has no members.
pub proof fn members_are_found_under_their_names(
    before: Seq<(Seq<char>, JsonTree)>,
    key: Seq<char>,
    value: JsonTree,
    behind: Seq<(Seq<char>, JsonTree)>,
)
    requires
        forall|i: int| 0 <= i < before.len() ==> (#[trigger] before[i]).0 != key,
    ensures
        JsonTree::Object(before + seq![(key, value)] + behind).member(key) == Some(value),
        JsonTree::Object(before).member(key) is None,
        !(value is Object) ==> value.member(key) is None,
        JsonTree::Text(key).text() == Some(key),
        !(value is Text) ==> value.text() is None,
        JsonTree::Object(before + seq![(key, value)] + behind).member_text(key) == value.text(),
{
    let all = before + seq![(key, value)] + behind;
    let at = before.len() as int;
    assert(all[at] == (key, value));
    assert forall|i: int| 0 <= i < at implies (#[trigger] all[i]).0 != key by {
        assert(all[i] == before[i]);
    }
    lemma_key_index(all, key, 0, at);
    lemma_key_index(before, key, 0, at);
}

proof fn lemma_key_index(members: Seq<(Seq<char>, JsonTree)>, key: Seq<char>, from: int, at: int)
    requires
        0 <= from <= at <= members.len(),
        forall|i: int| from <= i < at ==> (#[trigger] members[i]).0 != key,
    ensures
        key_index(members, key, from) == key_index(members, key, at),
    decreases at - from,
{
    if from < at {
        lemma_key_index(members, key, from + 1, at);
    }
}

/// A value is seen whole, with all its items and members in order.
pub proof fn values_are_seen_whole(
    flag: bool,
    number: Option<u64>,
    text: String,
    items: Vec<Json>,
    members: Vec<(String, Json)>,
)
    ensures
        Json::Null@ == JsonTree::Null,
        Json::Bool(flag)@ == JsonTree::Bool(flag),
        Json::Number(number)@ == JsonTree::Number(number),
        Json::Text(text)@ == JsonTree::Text(text@),
        Json::Array(items)@ matches JsonTree::Array(trees) && trees.len() == items@.len() && forall|
            i: int,
        |
            0 <= i < items@.len() ==> #[trigger] trees[i] == items@[i]@,
        Json::Object(members)@ matches JsonTree::Object(trees) && trees.len() == members@.len()
            && forall|i: int|
            0 <= i < members@.len() ==> #[trigger] trees[i] == (members@[i].0@, members@[i].1@),
{
    lemma_trees_of(items@);
    lemma_members_of(members@);
}

} // verus!
