//! The token that ends a turn in a chat, as the files of a tokenizer have it.

use crate::json;
use crate::json::{Json, JsonTree};
use crate::text;
use vstd::prelude::*;
use vstd::string::*;

verus! {

/// The text of the token that ends a turn: given as a text, or as an object with the text as its
/// content.
pub open spec fn eos_text(root: JsonTree) -> Option<Seq<char>> {
    match root.get("eos_token"@) {
        Some(JsonTree::Text(s)) => Some(s),
        Some(JsonTree::Object(entries)) => JsonTree::Object(entries).text_at("content"@),
        _ => None,
    }
}

/// The id under which a map from ids to tokens has the token: that of the first entry with the
/// token as its content whose key is a number.
pub open spec fn decoder_id(entries: Seq<(Seq<char>, JsonTree)>, token: Seq<char>) -> Option<u64>
    decreases entries.len(),
{
    if entries.len() == 0 {
        None
    } else if entries[0].1.text_at("content"@) == Some(token) && text::unsigned_value(entries[0].0) is Some {
        text::unsigned_value(entries[0].0)
    } else {
        decoder_id(entries.skip(1), token)
    }
}

/// The number under the key for ids.
pub open spec fn id_of(entry: JsonTree) -> Option<u64> {
    match entry.get("id"@) {
        Some(value) => value.as_u64(),
        None => None,
    }
}

/// The id that a list of tokens gives the token: that of the first entry with the token as its
/// content and a number as its id.
pub open spec fn listed_id(entries: Seq<JsonTree>, token: Seq<char>) -> Option<u64>
    decreases entries.len(),
{
    if entries.len() == 0 {
        None
    } else if entries[0].text_at("content"@) == Some(token) && id_of(entries[0]) is Some {
        id_of(entries[0])
    } else {
        listed_id(entries.skip(1), token)
    }
}

/// The id in the list of added tokens.
pub open spec fn added_id(root: JsonTree, token: Seq<char>) -> Option<u64> {
    match root.get("added_tokens"@) {
        Some(JsonTree::Array(entries)) => listed_id(entries, token),
        _ => None,
    }
}

/// The id in the map of added tokens.
pub open spec fn mapped_id(root: JsonTree, token: Seq<char>) -> Option<u64> {
    match root.get("added_tokens_decoder"@) {
        Some(JsonTree::Object(entries)) => decoder_id(entries, token),
        _ => None,
    }
}

/// The id of the token that ends a turn. It is looked for in the map and then in the list of added
/// tokens of the tokenizer configuration, and then in the list of the tokenizer itself.
pub open spec fn eos_id(root: JsonTree, tokenizer: Option<JsonTree>) -> Option<u64> {
    match eos_text(root) {
        None => None,
        Some(token) => match (mapped_id(root, token), added_id(root, token), tokenizer) {
            (Some(id), _, _) => Some(id),
            (None, Some(id), _) => Some(id),
            (None, None, Some(tokenizer)) => added_id(tokenizer, token),
            (None, None, None) => None,
        },
    }
}

/// The last 32 bits of an id.
pub open spec fn short(id: Option<u64>) -> Option<u32> {
    match id {
        Some(id) => Some((id % 0x1_0000_0000) as u32),
        None => None,
    }
}

/// The tree of a text, where it is JSON.
pub open spec fn tree_of(contents: Option<Seq<char>>) -> Option<JsonTree> {
    match contents {
        Some(contents) => match json::parsed_json(contents) {
            Ok(tree) => Some(tree),
            Err(_) => None,
        },
        None => None,
    }
}

fn is_token(entry: &Json, token: &str) -> (same: bool)
    ensures
        same == (entry@.text_at("content"@) == Some(token@)),
{
    match entry.text_at("content") {
        Some(content) => text::same_text(content, token),
        None => false,
    }
}

fn find_mapped(root: &Json, token: &str) -> (id: Option<u64>)
    ensures
        id == mapped_id(root@, token@),
{
    let entries = match root.get("added_tokens_decoder") {
        Some(value) => match value.as_object() {
            Some(entries) => entries,
            None => {
                return None;
            },
        },
        None => {
            return None;
        },
    };
    let ghost all = json::named_trees(entries@);
    assert(all.skip(0) =~= all);
    for i in 0..entries.len()
        invariant
            all == json::named_trees(entries@),
            mapped_id(root@, token@) == decoder_id(all, token@),
            decoder_id(all, token@) == decoder_id(all.skip(i as int), token@),
    {
        assert(all.skip(i as int)[0] == all[i as int]);
        assert(all.skip(i as int).skip(1) =~= all.skip(i + 1));
        if is_token(&entries[i].1, token) {
            let id: Option<u64> = text::parse_unsigned(entries[i].0.as_str());
            if id.is_some() {
                return id;
            }
        }
    }
    None
}

fn find_added(root: &Json, token: &str) -> (id: Option<u64>)
    ensures
        id == added_id(root@, token@),
{
    let entries = match root.get("added_tokens") {
        Some(value) => match value.as_array() {
            Some(entries) => entries,
            None => {
                return None;
            },
        },
        None => {
            return None;
        },
    };
    let ghost all = json::trees(entries@);
    assert(all.skip(0) =~= all);
    for i in 0..entries.len()
        invariant
            all == json::trees(entries@),
            added_id(root@, token@) == listed_id(all, token@),
            listed_id(all, token@) == listed_id(all.skip(i as int), token@),
    {
        assert(all.skip(i as int)[0] == all[i as int]);
        assert(all.skip(i as int).skip(1) =~= all.skip(i + 1));
        if is_token(&entries[i], token) {
            if let Some(value) = entries[i].get("id") {
                let id: Option<u64> = value.as_u64();
                if id.is_some() {
                    return id;
                }
            }
        }
    }
    None
}

fn shorten(id: u64) -> (low: u32)
    ensures
        Some(low) == short(Some(id)),
{
    assert(id as u32 == id % 0x1_0000_0000) by (bit_vector);
    #[verifier::truncate]
    (id as u32)
}

fn find_eos_text(root: &Json) -> (token: Option<&str>)
    ensures
        text::opt_text(token) == eos_text(root@),
{
    match root.get("eos_token") {
        Some(value) => match value.as_str() {
            Some(s) => Some(s),
            None => if value.as_object().is_some() {
                value.text_at("content")
            } else {
                None
            },
        },
        None => None,
    }
}

/// The id of the token that ends a turn, from the configuration of a tokenizer and the tokenizer
/// itself.
pub fn chat_eos_of(root: &Json, tokenizer: Option<&Json>) -> (id: Option<u32>)
    ensures
        id == short(
            eos_id(
                root@,
                match tokenizer {
                    Some(tokenizer) => Some(tokenizer@),
                    None => None,
                },
            ),
        ),
{
    let token = match find_eos_text(root) {
        Some(token) => token,
        None => {
            return None;
        },
    };
    if let Some(id) = find_mapped(root, token) {
        return Some(shorten(id));
    }
    if let Some(id) = find_added(root, token) {
        return Some(shorten(id));
    }
    match tokenizer {
        Some(tokenizer) => match find_added(tokenizer, token) {
            Some(id) => Some(shorten(id)),
            None => None,
        },
        None => None,
    }
}

/// The id of the token that ends a turn, from the texts of `tokenizer_config.json` and of
/// `tokenizer.json`, as far as these are there. A text that is no JSON counts as missing.
pub fn load_chat_eos(tokenizer_config: Option<&str>, tokenizer: Option<&str>) -> (id: Option<u32>)
    ensures
        id == match tree_of(text::opt_text(tokenizer_config)) {
            Some(root) => short(eos_id(root, tree_of(text::opt_text(tokenizer)))),
            None => None,
        },
{
    let root = match tokenizer_config {
        Some(contents) => match json::parse_json(contents) {
            Ok(root) => root,
            Err(_) => {
                return None;
            },
        },
        None => {
            return None;
        },
    };
    match tokenizer {
        Some(contents) => match json::parse_json(contents) {
            Ok(tree) => chat_eos_of(&root, Some(&tree)),
            Err(_) => chat_eos_of(&root, None),
        },
        None => chat_eos_of(&root, None),
    }
}

/// The id in a map is the number that the key of an entry for the token denotes, and no earlier entry
/// for the token has a number as its key. There is none exactly where no entry for the token has.
pub proof fn law_mapped_id_is_that_of_the_first_entry(entries: Seq<(Seq<char>, JsonTree)>, token: Seq<char>) -> (k: int)
    ensures
        match decoder_id(entries, token) {
            Some(id) => {
                &&& 0 <= k < entries.len()
                &&& entries[k].1.text_at("content"@) == Some(token)
                &&& text::unsigned_value(entries[k].0) == Some(id)
                &&& forall|j: int|
                    0 <= j < k ==> (#[trigger] entries[j]).1.text_at("content"@) != Some(token)
                        || text::unsigned_value(entries[j].0) is None
            },
            None => forall|j: int|
                0 <= j < entries.len() ==> (#[trigger] entries[j]).1.text_at("content"@) != Some(token)
                    || text::unsigned_value(entries[j].0) is None,
        },
    decreases entries.len(),
{
    if entries.len() == 0 || (entries[0].1.text_at("content"@) == Some(token) && text::unsigned_value(
        entries[0].0,
    ) is Some) {
        0
    } else {
        let rest = entries.skip(1);
        let k = law_mapped_id_is_that_of_the_first_entry(rest, token);
        assert forall|j: int| 1 <= j < entries.len() implies #[trigger] entries[j] == rest[j - 1] by {}
        if decoder_id(rest, token) is Some {
            assert(entries[k + 1] == rest[k]);
        }
        k + 1
    }
}

/// The id in a list is the one that an entry for the token gives, and no earlier entry for the token
/// gives one. There is none exactly where no entry for the token gives one.
pub proof fn law_listed_id_is_that_of_the_first_entry(entries: Seq<JsonTree>, token: Seq<char>) -> (k: int)
    ensures
        match listed_id(entries, token) {
            Some(id) => {
                &&& 0 <= k < entries.len()
                &&& entries[k].text_at("content"@) == Some(token)
                &&& entries[k].get("id"@) matches Some(JsonTree::Number(value, _)) && value == Some(id)
                &&& forall|j: int|
                    0 <= j < k ==> (#[trigger] entries[j]).text_at("content"@) != Some(token) || !(entries[j].get(
                        "id"@,
                    ) matches Some(JsonTree::Number(value, _)) && value is Some)
            },
            None => forall|j: int|
                0 <= j < entries.len() ==> (#[trigger] entries[j]).text_at("content"@) != Some(token) || !(
                entries[j].get("id"@) matches Some(JsonTree::Number(value, _)) && value is Some),
        },
    decreases entries.len(),
{
    if entries.len() == 0 || (entries[0].text_at("content"@) == Some(token) && id_of(entries[0]) is Some) {
        0
    } else {
        let rest = entries.skip(1);
        let k = law_listed_id_is_that_of_the_first_entry(rest, token);
        assert forall|j: int| 1 <= j < entries.len() implies #[trigger] entries[j] == rest[j - 1] by {}
        if listed_id(rest, token) is Some {
            assert(entries[k + 1] == rest[k]);
        }
        k + 1
    }
}

/// The token is the text under `eos_token`, or the content of the object there. Its id comes from the
/// map of the configuration, else from the list there, else from the list of the tokenizer, and from
/// nowhere else; without a token there is none.
pub proof fn law_sources_of_the_id_have_their_order(root: JsonTree, tokenizer: Option<JsonTree>, token: Seq<char>)
    ensures
        root.get("eos_token"@) == Some(JsonTree::Text(token)) ==> eos_text(root) == Some(token),
        root.get("eos_token"@) matches Some(JsonTree::Object(entries)) ==> eos_text(root) == match json::lookup(
            entries,
            "content"@,
        ) {
            Some(JsonTree::Text(content)) => Some(content),
            _ => None,
        },
        eos_text(root) is Some ==> (root.get("eos_token"@) matches Some(value) && (value is Text || value is Object)),
        eos_text(root) is None ==> eos_id(root, tokenizer) is None,
        eos_text(root) == Some(token) ==> {
            let mapped = match root.get("added_tokens_decoder"@) {
                Some(JsonTree::Object(entries)) => decoder_id(entries, token),
                _ => None,
            };
            let added = match root.get("added_tokens"@) {
                Some(JsonTree::Array(entries)) => listed_id(entries, token),
                _ => None,
            };
            &&& mapped is Some ==> eos_id(root, tokenizer) == mapped
            &&& mapped is None && added is Some ==> eos_id(root, tokenizer) == added
            &&& mapped is None && added is None ==> match tokenizer {
                Some(tokenizer) => match tokenizer.get("added_tokens"@) {
                    Some(JsonTree::Array(entries)) => eos_id(root, Some(tokenizer)) == listed_id(entries, token),
                    _ => eos_id(root, Some(tokenizer)) is None,
                },
                None => eos_id(root, tokenizer) is None,
            }
        },
{
}

/// An id of 32 bits is kept as it is; of a longer one the lower 32 bits are.
pub proof fn law_ids_are_kept_in_32_bits(id: u64)
    ensures
        id <= u32::MAX ==> short(Some(id)) == Some(id as u32),
        short(Some(id)) matches Some(low) && (id - low) % 0x1_0000_0000 == 0,
        short(None) is None,
{
}

} // verus!
