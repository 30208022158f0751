//! JSON documents: the text is parsed by `serde_json`, and the rest of the crate works on the
//! plain tree `Json`.

use crate::text;
use vstd::prelude::*;
use vstd::string::*;

verus! {

/// `serde_json::Value`, carried through unopened except by `open`.
#[verifier::external_type_specification]
#[verifier::external_body]
pub struct ExJsonValue(serde_json::Value);

/// A JSON value as a mathematical tree. An object is the sequence of its entries in the order in
/// which the parser walks them; a number is its printed text, together with its value where that
/// is a non-negative integer of 64 bits.
pub enum JsonTree {
    Null,
    Bool(bool),
    Number(Option<u64>, Seq<char>),
    Text(Seq<char>),
    Array(Seq<JsonTree>),
    Object(Seq<(Seq<char>, JsonTree)>),
}

/// What a `serde_json::Value` holds.
pub uninterp spec fn json_tree(value: serde_json::Value) -> JsonTree;

/// What `serde_json::from_str` makes of a text: the value that it denotes, or the text of the
/// parse error.
pub uninterp spec fn parsed_json(text: Seq<char>) -> Result<JsonTree, Seq<char>>;

/// One level of a JSON value, its parts still unopened.
pub enum JsonNode<'a> {
    Null,
    Bool(bool),
    Number(Option<u64>, String),
    Text(String),
    Array(&'a Vec<serde_json::Value>),
    Object(Vec<(&'a String, &'a serde_json::Value)>),
}

/// The trees of a list of values.
pub open spec fn json_trees(values: Seq<serde_json::Value>) -> Seq<JsonTree> {
    Seq::new(values.len(), |i: int| json_tree(values[i]))
}

/// The trees of the entries of an object.
pub open spec fn entry_trees(entries: Seq<(&String, &serde_json::Value)>) -> Seq<(Seq<char>, JsonTree)> {
    Seq::new(entries.len(), |i: int| (entries[i].0@, json_tree(*entries[i].1)))
}

impl<'a> JsonNode<'a> {
    /// The tree that the node is the top level of.
    pub open spec fn tree(self) -> JsonTree {
        match self {
            JsonNode::Null => JsonTree::Null,
            JsonNode::Bool(b) => JsonTree::Bool(b),
            JsonNode::Number(n, text) => JsonTree::Number(n, text@),
            JsonNode::Text(s) => JsonTree::Text(s@),
            JsonNode::Array(items) => JsonTree::Array(json_trees(items@)),
            JsonNode::Object(entries) => JsonTree::Object(entry_trees(entries@)),
        }
    }
}

/// Opens one level of a `serde_json::Value`: which variant it is, and what that holds. A number comes
/// as `Number::as_u64` and as the text that its `Display` prints, an object as the entries of
/// `Map::iter` in their order. What is claimed is that the opened level, with what its parts hold,
/// makes up what the value holds.
#[verifier::external_body]
fn open(value: &serde_json::Value) -> (node: JsonNode<'_>)
    ensures
        node.tree() == json_tree(*value),
{
    match value {
        serde_json::Value::Null => JsonNode::Null,
        serde_json::Value::Bool(b) => JsonNode::Bool(*b),
        serde_json::Value::Number(n) => JsonNode::Number(n.as_u64(), n.to_string()),
        serde_json::Value::String(s) => JsonNode::Text(s.clone()),
        serde_json::Value::Array(items) => JsonNode::Array(items),
        serde_json::Value::Object(entries) => JsonNode::Object(entries.iter().collect()),
    }
}

/// `serde_json::from_str` into a `serde_json::Value`, with the text that the `Display` of its error
/// prints. What is claimed is that what the value holds, or the text of the error, depends on nothing
/// but the text that is parsed; which texts denote which values is left to `serde_json`.
#[verifier::external_body]
pub(crate) fn parse_value(text: &str) -> (result: Result<serde_json::Value, String>)
    ensures
        match result {
            Ok(value) => parsed_json(text@) == Ok::<JsonTree, Seq<char>>(json_tree(value)),
            Err(message) => parsed_json(text@) == Err::<JsonTree, Seq<char>>(message@),
        },
{
    serde_json::from_str(text).map_err(|err| err.to_string())
}

/// What `format!("{:?}", ..)` prints for a list of values.
pub uninterp spec fn shown_list(items: Seq<JsonTree>) -> Seq<char>;

/// `format!("{:?}", ..)` on a list of `serde_json::Value`: the text depends on nothing but what the
/// values hold.
#[verifier::external_body]
pub(crate) fn show_list(items: &Vec<serde_json::Value>) -> (shown: String)
    ensures
        shown@ == shown_list(json_trees(items@)),
{
    format!("{:?}", items)
}

/// A JSON value.
#[derive(Debug)]
pub enum Json {
    Null,
    Bool(bool),
    Number(Option<u64>, String),
    Text(String),
    Array(Vec<Json>),
    Object(Vec<(String, Json)>),
}

impl View for Json {
    type V = JsonTree;

    open spec fn view(&self) -> JsonTree
        decreases self,
    {
        match self {
            Json::Null => JsonTree::Null,
            Json::Bool(b) => JsonTree::Bool(*b),
            Json::Number(n, text) => JsonTree::Number(*n, text@),
            Json::Text(s) => JsonTree::Text(s@),
            Json::Array(items) => JsonTree::Array(
                Seq::new(items@.len(), |i: int| if 0 <= i < items@.len() { items@[i].view() } else { JsonTree::Null }),
            ),
            Json::Object(entries) => JsonTree::Object(
                Seq::new(
                    entries@.len(),
                    |i: int|
                        if 0 <= i < entries@.len() {
                            (entries@[i].0@, entries@[i].1.view())
                        } else {
                            (seq![], JsonTree::Null)
                        },
                ),
            ),
        }
    }
}

/// The plain tree of a parsed value.
pub(crate) fn import(value: &serde_json::Value) -> (json: Json)
    ensures
        json@ == json_tree(*value),
    decreases json_tree(*value),
{
    match open(value) {
        JsonNode::Null => Json::Null,
        JsonNode::Bool(b) => Json::Bool(b),
        JsonNode::Number(n, text) => Json::Number(n, text),
        JsonNode::Text(s) => Json::Text(s),
        JsonNode::Array(items) => {
            let mut out: Vec<Json> = Vec::new();
            let ghost trees = json_trees(items@);
            for i in 0..items.len()
                invariant
                    json_tree(*value) == JsonTree::Array(trees),
                    trees == json_trees(items@),
                    out@.len() == i,
                    forall|j: int| 0 <= j < i ==> (#[trigger] out@[j])@ == trees[j],
            {
                assert(trees[i as int] == json_tree(items@[i as int]));
                assert(decreases_to!(json_tree(*value) => json_tree(*value)->Array_0));
                assert(decreases_to!(trees => trees[i as int]));
                out.push(import(&items[i]));
            }
            let json = Json::Array(out);
            assert(json@->Array_0 =~= trees);
            json
        },
        JsonNode::Object(entries) => {
            let mut out: Vec<(String, Json)> = Vec::new();
            let ghost trees = entry_trees(entries@);
            for i in 0..entries.len()
                invariant
                    json_tree(*value) == JsonTree::Object(trees),
                    trees == entry_trees(entries@),
                    out@.len() == i,
                    forall|j: int| 0 <= j < i ==> (#[trigger] out@[j]).0@ == trees[j].0 && out@[j].1@ == trees[j].1,
            {
                assert(trees[i as int] == (entries@[i as int].0@, json_tree(*entries@[i as int].1)));
                assert(decreases_to!(json_tree(*value) => json_tree(*value)->Object_0));
                assert(decreases_to!(trees => trees[i as int]));
                assert(decreases_to!(trees[i as int] => trees[i as int].1));
                let key: String = entries[i].0.clone();
                out.push((key, import(entries[i].1)));
            }
            let json = Json::Object(out);
            assert(json@->Object_0 =~= trees);
            json
        },
    }
}

/// The value of the first entry with the given key.
pub open spec fn lookup(entries: Seq<(Seq<char>, JsonTree)>, key: Seq<char>) -> Option<JsonTree>
    decreases entries.len(),
{
    if entries.len() == 0 {
        None
    } else if entries[0].0 == key {
        Some(entries[0].1)
    } else {
        lookup(entries.skip(1), key)
    }
}

impl JsonTree {
    /// The value under a key, where this is an object that has one.
    pub open spec fn get(self, key: Seq<char>) -> Option<JsonTree> {
        match self {
            JsonTree::Object(entries) => lookup(entries, key),
            _ => None,
        }
    }

    /// The text that this is, if it is one.
    pub open spec fn as_text(self) -> Option<Seq<char>> {
        match self {
            JsonTree::Text(s) => Some(s),
            _ => None,
        }
    }

    /// The non-negative integer of 64 bits that this is, if it is one.
    pub open spec fn as_u64(self) -> Option<u64> {
        match self {
            JsonTree::Number(n, _) => n,
            _ => None,
        }
    }

    /// The items of the array that this is, if it is one.
    pub open spec fn as_array(self) -> Option<Seq<JsonTree>> {
        match self {
            JsonTree::Array(items) => Some(items),
            _ => None,
        }
    }

    /// The entries of the object that this is, if it is one.
    pub open spec fn as_object(self) -> Option<Seq<(Seq<char>, JsonTree)>> {
        match self {
            JsonTree::Object(entries) => Some(entries),
            _ => None,
        }
    }

    /// The text under a key.
    pub open spec fn text_at(self, key: Seq<char>) -> Option<Seq<char>> {
        match self.get(key) {
            Some(value) => value.as_text(),
            None => None,
        }
    }
}

/// The trees of a list of values.
pub open spec fn trees(items: Seq<Json>) -> Seq<JsonTree> {
    Seq::new(items.len(), |i: int| items[i]@)
}

/// The trees of the entries of an object.
pub open spec fn named_trees(entries: Seq<(String, Json)>) -> Seq<(Seq<char>, JsonTree)> {
    Seq::new(entries.len(), |i: int| (entries[i].0@, entries[i].1@))
}

proof fn lemma_array(items: Vec<Json>)
    ensures
        Json::Array(items)@ == JsonTree::Array(trees(items@)),
{
    reveal_with_fuel(<Json as View>::view, 2);
    let json = Json::Array(items);
    let seen = json@->Array_0;
    assert(seen.len() == items@.len());
    assert forall|i: int| 0 <= i < items@.len() implies seen[i] == #[trigger] trees(items@)[i] by {}
    assert(seen =~= trees(items@));
}

proof fn lemma_object(entries: Vec<(String, Json)>)
    ensures
        Json::Object(entries)@ == JsonTree::Object(named_trees(entries@)),
{
    reveal_with_fuel(<Json as View>::view, 2);
    let json = Json::Object(entries);
    let seen = json@->Object_0;
    assert(seen.len() == entries@.len());
    assert forall|i: int| 0 <= i < entries@.len() implies seen[i] == #[trigger] named_trees(entries@)[i] by {}
    assert(seen =~= named_trees(entries@));
}

impl Json {
    /// The value under a key, where this is an object that has one.
    pub fn get(&self, key: &str) -> (found: Option<&Json>)
        ensures
            match found {
                Some(value) => self@.get(key@) == Some(value@),
                None => self@.get(key@) is None,
            },
    {
        let entries = match self.as_object() {
            Some(entries) => entries,
            None => {
                return None;
            },
        };
        let ghost all = named_trees(entries@);
        assert(all.skip(0) =~= all);
        for i in 0..entries.len()
            invariant
                all == named_trees(entries@),
                self@ == JsonTree::Object(all),
                lookup(all, key@) == lookup(all.skip(i as int), key@),
        {
            assert(all.skip(i as int)[0] == all[i as int]);
            assert(all.skip(i as int).skip(1) =~= all.skip(i + 1));
            if text::same_text(entries[i].0.as_str(), key) {
                return Some(&entries[i].1);
            }
        }
        None
    }

    /// The text that this is, if it is one.
    pub fn as_str(&self) -> (found: Option<&str>)
        ensures
            match found {
                Some(s) => self@.as_text() == Some(s@),
                None => self@.as_text() is None,
            },
    {
        match self {
            Json::Text(s) => Some(s.as_str()),
            _ => None,
        }
    }

    /// The non-negative integer of 64 bits that this is, if it is one.
    pub fn as_u64(&self) -> (found: Option<u64>)
        ensures
            found == self@.as_u64(),
    {
        match self {
            Json::Number(n, _) => *n,
            _ => None,
        }
    }

    /// The items of the array that this is, if it is one.
    pub fn as_array(&self) -> (found: Option<&Vec<Json>>)
        ensures
            match found {
                Some(items) => self@.as_array() == Some(trees(items@)),
                None => self@.as_array() is None,
            },
    {
        match self {
            Json::Array(items) => {
                proof {
                    lemma_array(*items);
                }
                Some(items)
            },
            _ => None,
        }
    }

    /// The entries of the object that this is, if it is one.
    pub fn as_object(&self) -> (found: Option<&Vec<(String, Json)>>)
        ensures
            match found {
                Some(entries) => self@.as_object() == Some(named_trees(entries@)),
                None => self@.as_object() is None,
            },
    {
        match self {
            Json::Object(entries) => {
                proof {
                    lemma_object(*entries);
                }
                Some(entries)
            },
            _ => None,
        }
    }

    /// The text under a key.
    pub fn text_at(&self, key: &str) -> (found: Option<&str>)
        ensures
            match found {
                Some(s) => self@.text_at(key@) == Some(s@),
                None => self@.text_at(key@) is None,
            },
    {
        match self.get(key) {
            Some(value) => value.as_str(),
            None => None,
        }
    }
}

/// The value under a key of an unopened object.
pub(crate) fn value_at<'a>(value: &'a serde_json::Value, key: &str) -> (found: Option<&'a serde_json::Value>)
    ensures
        match found {
            Some(under) => json_tree(*value).get(key@) == Some(json_tree(*under)),
            None => json_tree(*value).get(key@) is None,
        },
{
    match open(value) {
        JsonNode::Object(entries) => {
            let ghost all = entry_trees(entries@);
            assert(all.skip(0) =~= all);
            for i in 0..entries.len()
                invariant
                    all == entry_trees(entries@),
                    json_tree(*value) == JsonTree::Object(all),
                    lookup(all, key@) == lookup(all.skip(i as int), key@),
            {
                assert(all.skip(i as int)[0] == all[i as int]);
                assert(all.skip(i as int).skip(1) =~= all.skip(i + 1));
                if text::same_text(entries[i].0.as_str(), key) {
                    return Some(entries[i].1);
                }
            }
            None
        },
        _ => None,
    }
}

/// The items of an unopened array.
pub(crate) fn value_items(value: &serde_json::Value) -> (found: Option<&Vec<serde_json::Value>>)
    ensures
        match found {
            Some(items) => json_tree(*value).as_array() == Some(json_trees(items@)),
            None => json_tree(*value).as_array() is None,
        },
{
    match open(value) {
        JsonNode::Array(items) => Some(items),
        _ => None,
    }
}

/// A text parsed as JSON, as a plain tree.
pub fn parse_json(text: &str) -> (result: Result<Json, String>)
    ensures
        match result {
            Ok(json) => parsed_json(text@) == Ok::<JsonTree, Seq<char>>(json@),
            Err(message) => parsed_json(text@) == Err::<JsonTree, Seq<char>>(message@),
        },
{
    match parse_value(text) {
        Ok(value) => Ok(import(&value)),
        Err(message) => Err(message),
    }
}

/// A lookup gives the value of the first entry with the key, and nothing exactly where no entry has
/// it.
pub proof fn law_lookup_gives_the_first_entry(entries: Seq<(Seq<char>, JsonTree)>, key: Seq<char>) -> (k: int)
    ensures
        match lookup(entries, key) {
            Some(value) => {
                &&& 0 <= k < entries.len()
                &&& entries[k] == (key, value)
                &&& forall|j: int| 0 <= j < k ==> (#[trigger] entries[j]).0 != key
            },
            None => forall|j: int| 0 <= j < entries.len() ==> (#[trigger] entries[j]).0 != key,
        },
    decreases entries.len(),
{
    if entries.len() == 0 || entries[0].0 == key {
        0
    } else {
        let rest = entries.skip(1);
        let k = law_lookup_gives_the_first_entry(rest, key);
        assert forall|j: int| 1 <= j < entries.len() implies #[trigger] entries[j] == rest[j - 1] by {}
        if lookup(rest, key) is Some {
            assert(entries[k + 1] == rest[k]);
        }
        k + 1
    }
}

} // verus!
