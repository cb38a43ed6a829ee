//! JSON text that is not spelled as this library writes it: spaces between
//! the tokens, the keys of an object in another order, other escapes in a
//! string, keys that the library does not know. Such text is read by
//! `serde_json`, and what it read is taken apart here.

use vstd::prelude::*;
use vstd::string::*;
use serde_json::Value;
use crate::models::files::{NewRFile, NewRFileView};
use crate::protocol::message::{RMessage, RMessageType, RMessageView};
use crate::protocol::wire::descriptors_view;

verus! {

/// `serde_json::Value`, carried through as it is: what it holds is read
/// through the functions below only.
#[verifier::external_type_specification]
#[verifier::external_body]
pub struct ExValue(serde_json::Value);

/// A JSON value as plain values. `Other` stands for what the library reads
/// nowhere: `true`, `false`, and a number with a fraction or an exponent.
pub enum RJson {
    Null,
    Int(int),
    Text(Seq<char>),
    List(Seq<RJson>),
    Object(Map<Seq<char>, RJson>),
    Other,
}

/// What a value of `serde_json` holds.
pub uninterp spec fn json_contents(value: Value) -> RJson;

/// The JSON value that bytes spell, if they are JSON text.
pub uninterp spec fn json_parsed(bytes: Seq<u8>) -> Option<RJson>;

/// What the values of a list hold.
pub open spec fn all_contents(items: Seq<Value>) -> Seq<RJson> {
    items.map_values(|v: Value| json_contents(v))
}

/// The value under a key of an object.
pub open spec fn member(tree: RJson, key: Seq<char>) -> Option<RJson> {
    match tree {
        RJson::Object(members) => if members.dom().contains(key) {
            Some(members[key])
        } else {
            None
        },
        _ => None,
    }
}

/// The integer that a value is, where it is one that fits 64 bits.
pub open spec fn int_of(tree: RJson) -> Option<i64> {
    match tree {
        RJson::Int(n) => if i64::MIN <= n <= i64::MAX {
            Some(n as i64)
        } else {
            None
        },
        _ => None,
    }
}

/// The text that a value is, where it is a string.
pub open spec fn text_of_json(tree: RJson) -> Option<Seq<char>> {
    match tree {
        RJson::Text(text) => Some(text),
        _ => None,
    }
}

/// Reads JSON text, with `serde_json::from_slice` into a `Value`: `None`
/// where the bytes are no JSON text, else the value that they spell.
#[verifier::external_body]
pub(crate) fn json_parse(bytes: &[u8]) -> (r: Option<Value>)
    ensures
        match r {
            Some(value) => json_parsed(bytes@) == Some(json_contents(value)),
            None => json_parsed(bytes@) is None,
        },
{
    serde_json::from_slice::<Value>(bytes).ok()
}

/// The value under a key, with `Value::get`: `None` where the value is no
/// object or has no such key.
#[verifier::external_body]
pub(crate) fn json_get<'a>(value: &'a Value, key: &str) -> (r: Option<&'a Value>)
    ensures
        match r {
            Some(found) => member(json_contents(*value), key@) == Some(json_contents(*found)),
            None => member(json_contents(*value), key@) is None,
        },
{
    value.get(key)
}

/// The text of a string, with `Value::as_str`: `None` where the value is no
/// string.
#[verifier::external_body]
pub(crate) fn json_text(value: &Value) -> (r: Option<String>)
    ensures
        match r {
            Some(text) => text_of_json(json_contents(*value)) == Some(text@),
            None => text_of_json(json_contents(*value)) is None,
        },
{
    value.as_str().map(|text| text.to_string())
}

/// Whether the value is `null`, with `Value::is_null`.
#[verifier::external_body]
pub(crate) fn json_is_null(value: &Value) -> (r: bool)
    ensures
        r == (json_contents(*value) is Null),
{
    value.is_null()
}

/// The integer that a number is, with `Value::as_i64`: `None` where the
/// value is no integer that fits 64 bits.
#[verifier::external_body]
pub(crate) fn json_int(value: &Value) -> (r: Option<i64>)
    ensures
        r == int_of(json_contents(*value)),
{
    value.as_i64()
}

/// The items of an array, with `Value::as_array`: `None` where the value is
/// no array.
#[verifier::external_body]
pub(crate) fn json_list(value: &Value) -> (r: Option<&Vec<Value>>)
    ensures
        match r {
            Some(items) => json_contents(*value) == RJson::List(all_contents(items@)),
            None => !(json_contents(*value) is List),
        },
{
    value.as_array()
}

/// The string under a key of an object.
pub open spec fn text_member(tree: RJson, key: Seq<char>) -> Option<Seq<char>> {
    match member(tree, key) {
        Some(found) => text_of_json(found),
        None => None,
    }
}

/// The 32-bit integer under a key of an object.
pub open spec fn i32_member(tree: RJson, key: Seq<char>) -> Option<i32> {
    match member(tree, key) {
        Some(RJson::Int(n)) => if i32::MIN <= n <= i32::MAX {
            Some(n as i32)
        } else {
            None
        },
        _ => None,
    }
}

/// Whether a value is an integer from 0 to 255.
pub open spec fn is_byte(tree: RJson) -> bool {
    tree matches RJson::Int(n) && 0 <= n <= 255
}

/// The byte that a value is.
pub open spec fn byte_of(tree: RJson) -> u8 {
    match tree {
        RJson::Int(n) => n as u8,
        _ => 0,
    }
}

/// The bytes that the items of an array are, where each is a byte.
pub open spec fn byte_items(items: Seq<RJson>) -> Option<Seq<u8>> {
    if forall|i: int| 0 <= i < items.len() ==> is_byte(#[trigger] items[i]) {
        Some(Seq::new(items.len(), |i: int| byte_of(items[i])))
    } else {
        None
    }
}

/// The payload that a value is: none for `null`, the bytes for an array of
/// bytes.
pub open spec fn tree_payload(tree: RJson) -> Option<Option<Seq<u8>>> {
    match tree {
        RJson::Null => Some(None),
        RJson::List(items) => match byte_items(items) {
            Some(bytes) => Some(Some(bytes)),
            None => None,
        },
        _ => None,
    }
}

/// The message that a value is: an object with the name of a kind under
/// `kind` and, under `payload`, a payload or nothing at all. Other keys are
/// passed over.
pub open spec fn tree_message(tree: RJson) -> Option<RMessageView> {
    match text_member(tree, "kind"@) {
        Some(tag) => match RMessageType::parse(tag) {
            Some(kind) => match member(tree, "payload"@) {
                Some(found) => match tree_payload(found) {
                    Some(data) => Some(RMessageView { kind, data }),
                    None => None,
                },
                None => Some(RMessageView { kind, data: None }),
            },
            None => None,
        },
        None => None,
    }
}

/// The uid that a value is: an object with a string under `uid`.
pub open spec fn tree_uid(tree: RJson) -> Option<Seq<char>> {
    text_member(tree, "uid"@)
}

/// The file description that a value is: an object with a string or a
/// 32-bit integer, as the field asks, under the name of each of the nine
/// fields. Other keys are passed over.
pub open spec fn tree_file(tree: RJson) -> Option<NewRFileView> {
    if text_member(tree, "uid"@) is Some && text_member(tree, "node"@) is Some && text_member(
        tree,
        "folder"@,
    ) is Some && text_member(tree, "filename"@) is Some && i32_member(tree, "size"@) is Some
        && text_member(tree, "status"@) is Some && i32_member(tree, "created_at"@) is Some
        && i32_member(tree, "modified_at"@) is Some && i32_member(tree, "updated_at"@) is Some {
        Some(
            NewRFileView {
                uid: text_member(tree, "uid"@).unwrap(),
                node: text_member(tree, "node"@).unwrap(),
                folder: text_member(tree, "folder"@).unwrap(),
                filename: text_member(tree, "filename"@).unwrap(),
                size: i32_member(tree, "size"@).unwrap(),
                status: text_member(tree, "status"@).unwrap(),
                created_at: i32_member(tree, "created_at"@).unwrap(),
                modified_at: i32_member(tree, "modified_at"@).unwrap(),
                updated_at: i32_member(tree, "updated_at"@).unwrap(),
            },
        )
    } else {
        None
    }
}

/// The file descriptions that the items of an array are, where each is
/// one.
pub open spec fn file_items(items: Seq<RJson>) -> Option<Seq<NewRFileView>> {
    if forall|i: int| 0 <= i < items.len() ==> tree_file(#[trigger] items[i]) is Some {
        Some(Seq::new(items.len(), |i: int| tree_file(items[i]).unwrap()))
    } else {
        None
    }
}

/// The list of file descriptions that a value is: an array of them.
pub open spec fn tree_files(tree: RJson) -> Option<Seq<NewRFileView>> {
    match tree {
        RJson::List(items) => file_items(items),
        _ => None,
    }
}

/// The string under a key.
fn text_at(value: &Value, key: &str) -> (r: Option<String>)
    ensures
        match r {
            Some(text) => text_member(json_contents(*value), key@) == Some(text@),
            None => text_member(json_contents(*value), key@) is None,
        },
{
    match json_get(value, key) {
        Some(found) => json_text(found),
        None => None,
    }
}

/// The 32-bit integer under a key.
fn i32_at(value: &Value, key: &str) -> (r: Option<i32>)
    ensures
        r == i32_member(json_contents(*value), key@),
{
    match json_get(value, key) {
        Some(found) => match json_int(found) {
            Some(n) => {
                if -2147483648 <= n && n <= 2147483647 {
                    Some(n as i32)
                } else {
                    None
                }
            },
            None => None,
        },
        None => None,
    }
}

/// The bytes that the items of an array are.
pub fn bytes_from_json(items: &Vec<Value>) -> (r: Option<Vec<u8>>)
    ensures
        match r {
            Some(bytes) => byte_items(all_contents(items@)) == Some(bytes@),
            None => byte_items(all_contents(items@)) is None,
        },
{
    let ghost all = all_contents(items@);
    let mut out: Vec<u8> = Vec::new();
    let mut i: usize = 0;
    while i < items.len()
        invariant
            i <= items.len(),
            all == all_contents(items@),
            out.len() == i,
            forall|j: int| 0 <= j < i ==> is_byte(#[trigger] all[j]) && out@[j] == byte_of(all[j]),
        decreases items.len() - i,
    {
        assert(all[i as int] == json_contents(items@[i as int]));
        match json_int(&items[i]) {
            Some(n) => {
                if 0 <= n && n <= 255 {
                    out.push(n as u8);
                } else {
                    assert(!is_byte(all[i as int]));
                    return None;
                }
            },
            None => {
                assert(!is_byte(all[i as int]));
                return None;
            },
        }
        i += 1;
    }
    assert(out@ =~= Seq::new(all.len(), |i: int| byte_of(all[i])));
    Some(out)
}

/// The message that a value of `serde_json` is.
pub fn message_from_json(value: &Value) -> (r: Option<RMessage>)
    ensures
        match r {
            Some(message) => tree_message(json_contents(*value)) == Some(message@),
            None => tree_message(json_contents(*value)) is None,
        },
{
    let tag = match text_at(value, "kind") {
        Some(tag) => tag,
        None => {
            return None;
        },
    };
    let kind = match RMessageType::from_tag(tag.as_str()) {
        Some(kind) => kind,
        None => {
            return None;
        },
    };
    match json_get(value, "payload") {
        Some(found) => {
            if json_is_null(found) {
                Some(RMessage { _type: kind, data: None })
            } else {
                match json_list(found) {
                    Some(items) => match bytes_from_json(items) {
                        Some(bytes) => Some(RMessage { _type: kind, data: Some(bytes) }),
                        None => None,
                    },
                    None => None,
                }
            }
        },
        None => Some(RMessage { _type: kind, data: None }),
    }
}

/// The uid that a value of `serde_json` is.
pub fn uid_from_json(value: &Value) -> (r: Option<String>)
    ensures
        match r {
            Some(uid) => tree_uid(json_contents(*value)) == Some(uid@),
            None => tree_uid(json_contents(*value)) is None,
        },
{
    text_at(value, "uid")
}

/// The file description that a value of `serde_json` is.
pub fn file_from_json(value: &Value) -> (r: Option<NewRFile>)
    ensures
        match r {
            Some(file) => tree_file(json_contents(*value)) == Some(file@),
            None => tree_file(json_contents(*value)) is None,
        },
{
    let uid = match text_at(value, "uid") {
        Some(found) => found,
        None => {
            return None;
        },
    };
    let node = match text_at(value, "node") {
        Some(found) => found,
        None => {
            return None;
        },
    };
    let folder = match text_at(value, "folder") {
        Some(found) => found,
        None => {
            return None;
        },
    };
    let filename = match text_at(value, "filename") {
        Some(found) => found,
        None => {
            return None;
        },
    };
    let size = match i32_at(value, "size") {
        Some(found) => found,
        None => {
            return None;
        },
    };
    let status = match text_at(value, "status") {
        Some(found) => found,
        None => {
            return None;
        },
    };
    let created_at = match i32_at(value, "created_at") {
        Some(found) => found,
        None => {
            return None;
        },
    };
    let modified_at = match i32_at(value, "modified_at") {
        Some(found) => found,
        None => {
            return None;
        },
    };
    let updated_at = match i32_at(value, "updated_at") {
        Some(found) => found,
        None => {
            return None;
        },
    };
    Some(NewRFile { uid, node, folder, filename, size, status, created_at, modified_at, updated_at })
}

/// The list of file descriptions that a value of `serde_json` is.
pub fn files_from_json(value: &Value) -> (r: Option<Vec<NewRFile>>)
    ensures
        match r {
            Some(files) => tree_files(json_contents(*value)) == Some(descriptors_view(files@)),
            None => tree_files(json_contents(*value)) is None,
        },
{
    let items = match json_list(value) {
        Some(items) => items,
        None => {
            return None;
        },
    };
    let ghost all = all_contents(items@);
    let mut out: Vec<NewRFile> = Vec::new();
    let mut i: usize = 0;
    while i < items.len()
        invariant
            i <= items.len(),
            all == all_contents(items@),
            json_contents(*value) == RJson::List(all),
            out.len() == i,
            forall|j: int| 0 <= j < i ==> tree_file(#[trigger] all[j]) == Some(out@[j]@),
        decreases items.len() - i,
    {
        assert(all[i as int] == json_contents(items@[i as int]));
        match file_from_json(&items[i]) {
            Some(file) => {
                out.push(file);
            },
            None => {
                assert(tree_file(all[i as int]) is None);
                return None;
            },
        }
        i += 1;
    }
    assert(descriptors_view(out@) =~= Seq::new(all.len(), |i: int| tree_file(all[i]).unwrap()));
    Some(out)
}

} // verus!
