//! What goes over the wire, byte for byte.
//!
//! Each value is written in one way, given by a spec function (`envelope`,
//! `uid_json`, `file_json`, `files_json`): compact JSON as the nodes write
//! it. The readers of this module read exactly these bytes back, which is
//! proved, and refuse all others; the codec goes on from a refusal to the
//! reading of other JSON spellings, which stands in the module `tree`.

use vstd::prelude::*;
use vstd::string::*;
use crate::models::utils::text::same_bytes;
use crate::models::files::{NewRFile, NewRFileView};
use crate::protocol::json::{
    after, is_digit, lemma_after, lemma_number_roundtrip, lemma_payload_roundtrip,
    lemma_string_roundtrip, number, parse_number, parse_payload, parse_string, payload, put_number,
    put_payload, put_string, put_text, starts_with, string, take_number, take_payload, take_string,
    take_text, text,
};
use crate::protocol::message::{RMessage, RMessageType, RMessageView};

verus! {

/// How a message of a kind begins on the wire: the opening of the object,
/// the kind, and the key of the payload.
pub open spec fn head(kind: RMessageType) -> Seq<char> {
    match kind {
        RMessageType::OK => "{\"kind\":\"OK\",\"payload\":"@,
        RMessageType::Error => "{\"kind\":\"Error\",\"payload\":"@,
        RMessageType::SyncFiles => "{\"kind\":\"SyncFiles\",\"payload\":"@,
        RMessageType::FileAdded => "{\"kind\":\"FileAdded\",\"payload\":"@,
        RMessageType::UidRequest => "{\"kind\":\"UidRequest\",\"payload\":"@,
        RMessageType::UidResponse => "{\"kind\":\"UidResponse\",\"payload\":"@,
    }
}

/// A message on the wire: a JSON object that holds the kind under `kind`
/// and the payload, `null` or an array of numbers, under `payload`.
pub open spec fn envelope(message: RMessageView) -> Seq<u8> {
    text(head(message.kind)) + payload(message.data) + text("}"@)
}

/// Reads the beginning of a message, and gives its kind and what follows.
pub open spec fn parse_head(s: Seq<u8>) -> Option<(RMessageType, Seq<u8>)> {
    if starts_with(s, text(head(RMessageType::OK))) {
        Some((RMessageType::OK, s.skip(text(head(RMessageType::OK)).len() as int)))
    } else if starts_with(s, text(head(RMessageType::Error))) {
        Some((RMessageType::Error, s.skip(text(head(RMessageType::Error)).len() as int)))
    } else if starts_with(s, text(head(RMessageType::SyncFiles))) {
        Some((RMessageType::SyncFiles, s.skip(text(head(RMessageType::SyncFiles)).len() as int)))
    } else if starts_with(s, text(head(RMessageType::FileAdded))) {
        Some((RMessageType::FileAdded, s.skip(text(head(RMessageType::FileAdded)).len() as int)))
    } else if starts_with(s, text(head(RMessageType::UidRequest))) {
        Some((RMessageType::UidRequest, s.skip(text(head(RMessageType::UidRequest)).len() as int)))
    } else if starts_with(s, text(head(RMessageType::UidResponse))) {
        Some((RMessageType::UidResponse, s.skip(text(head(RMessageType::UidResponse)).len() as int)))
    } else {
        None
    }
}

/// Reads a whole message.
pub open spec fn parse_envelope(s: Seq<u8>) -> Option<RMessageView> {
    match parse_head(s) {
        Some((kind, rest)) => match parse_payload(rest) {
            Some((data, end)) => if end == text("}"@) {
                Some(RMessageView { kind, data })
            } else {
                None
            },
            None => None,
        },
        None => None,
    }
}

/// The two bytes that tell the beginnings of the six kinds apart.
pub open spec fn marks(kind: RMessageType) -> (u8, u8) {
    match kind {
        RMessageType::OK => (79u8, 112u8),
        RMessageType::Error => (69u8, 34u8),
        RMessageType::SyncFiles => (83u8, 105u8),
        RMessageType::FileAdded => (70u8, 100u8),
        RMessageType::UidRequest => (85u8, 113u8),
        RMessageType::UidResponse => (85u8, 115u8),
    }
}

/// Where the beginning of a kind holds its two marks.
pub proof fn lemma_head_marks(kind: RMessageType)
    ensures
        text(head(kind)).len() > 14,
        text(head(kind))[9] == marks(kind).0,
        text(head(kind))[14] == marks(kind).1,
{
    reveal_strlit("{\"kind\":\"OK\",\"payload\":");
    reveal_strlit("{\"kind\":\"Error\",\"payload\":");
    reveal_strlit("{\"kind\":\"SyncFiles\",\"payload\":");
    reveal_strlit("{\"kind\":\"FileAdded\",\"payload\":");
    reveal_strlit("{\"kind\":\"UidRequest\",\"payload\":");
    reveal_strlit("{\"kind\":\"UidResponse\",\"payload\":");
    vstd::utf8::is_ascii_chars_encode_utf8(head(kind));
}

/// No message of one kind begins as one of another kind does.
pub proof fn lemma_head_apart(kind: RMessageType, other: RMessageType, rest: Seq<u8>)
    requires
        kind != other,
    ensures
        !starts_with(text(head(kind)) + rest, text(head(other))),
{
    lemma_head_marks(kind);
    lemma_head_marks(other);
    let s = text(head(kind)) + rest;
    let p = text(head(other));
    if starts_with(s, p) {
        assert(s.take(p.len() as int)[9] == s[9]);
        assert(s.take(p.len() as int)[14] == s[14]);
        assert(s[9] == text(head(kind))[9]);
        assert(s[14] == text(head(kind))[14]);
    }
}

/// Reading the beginning of a written message gives its kind.
pub proof fn lemma_head_roundtrip(kind: RMessageType, rest: Seq<u8>)
    ensures
        parse_head(text(head(kind)) + rest) == Some((kind, rest)),
{
    let s = text(head(kind)) + rest;
    lemma_after(text(head(kind)), rest);
    if kind != RMessageType::OK {
        lemma_head_apart(kind, RMessageType::OK, rest);
    }
    if kind != RMessageType::Error {
        lemma_head_apart(kind, RMessageType::Error, rest);
    }
    if kind != RMessageType::SyncFiles {
        lemma_head_apart(kind, RMessageType::SyncFiles, rest);
    }
    if kind != RMessageType::FileAdded {
        lemma_head_apart(kind, RMessageType::FileAdded, rest);
    }
    if kind != RMessageType::UidRequest {
        lemma_head_apart(kind, RMessageType::UidRequest, rest);
    }
    if kind != RMessageType::UidResponse {
        lemma_head_apart(kind, RMessageType::UidResponse, rest);
    }
}

/// Reading a written message gives the message back.
pub proof fn lemma_envelope_roundtrip(message: RMessageView)
    ensures
        parse_envelope(envelope(message)) == Some(message),
{
    let tail = payload(message.data) + text("}"@);
    assert(envelope(message) =~= text(head(message.kind)) + tail);
    lemma_head_roundtrip(message.kind, tail);
    lemma_payload_roundtrip(message.data, text("}"@));
}

/// The text with which a message of a kind begins.
fn head_text(kind: RMessageType) -> (r: &'static str)
    ensures
        r@ == head(kind),
{
    match kind {
        RMessageType::OK => "{\"kind\":\"OK\",\"payload\":",
        RMessageType::Error => "{\"kind\":\"Error\",\"payload\":",
        RMessageType::SyncFiles => "{\"kind\":\"SyncFiles\",\"payload\":",
        RMessageType::FileAdded => "{\"kind\":\"FileAdded\",\"payload\":",
        RMessageType::UidRequest => "{\"kind\":\"UidRequest\",\"payload\":",
        RMessageType::UidResponse => "{\"kind\":\"UidResponse\",\"payload\":",
    }
}

/// Writes a message.
pub fn write_envelope(message: &RMessage) -> (r: Vec<u8>)
    ensures
        r@ == envelope(message@),
{
    let mut out: Vec<u8> = Vec::new();
    put_text(&mut out, head_text(message._type));
    put_payload(&mut out, &message.data);
    put_text(&mut out, "}");
    assert(out@ =~= envelope(message@));
    out
}

/// Reads the beginning of a message.
fn take_head(bytes: &Vec<u8>) -> (r: Option<(RMessageType, usize)>)
    ensures
        match r {
            Some((kind, next)) => next <= bytes.len() && parse_head(bytes@) == Some(
                (kind, bytes@.skip(next as int)),
            ),
            None => parse_head(bytes@) is None,
        },
{
    assert(bytes@.skip(0) =~= bytes@);
    if let Some(next) = take_text(bytes, 0, head_text(RMessageType::OK)) {
        return Some((RMessageType::OK, next));
    }
    if let Some(next) = take_text(bytes, 0, head_text(RMessageType::Error)) {
        return Some((RMessageType::Error, next));
    }
    if let Some(next) = take_text(bytes, 0, head_text(RMessageType::SyncFiles)) {
        return Some((RMessageType::SyncFiles, next));
    }
    if let Some(next) = take_text(bytes, 0, head_text(RMessageType::FileAdded)) {
        return Some((RMessageType::FileAdded, next));
    }
    if let Some(next) = take_text(bytes, 0, head_text(RMessageType::UidRequest)) {
        return Some((RMessageType::UidRequest, next));
    }
    if let Some(next) = take_text(bytes, 0, head_text(RMessageType::UidResponse)) {
        return Some((RMessageType::UidResponse, next));
    }
    None
}

/// Whether the input ends with `piece` at `pos`.
pub(crate) fn ends_with_text(bytes: &Vec<u8>, pos: usize, piece: &str) -> (r: bool)
    requires
        pos <= bytes.len(),
    ensures
        r == (bytes@.skip(pos as int) == text(piece@)),
{
    let ghost s = bytes@.skip(pos as int);
    match take_text(bytes, pos, piece) {
        Some(next) => {
            proof {
                assert(s.skip(text(piece@).len() as int).len() == s.len() - text(piece@).len());
                if next == bytes.len() {
                    assert(s.take(text(piece@).len() as int) =~= s);
                }
            }
            next == bytes.len()
        },
        None => {
            proof {
                if s == text(piece@) {
                    assert(s.take(s.len() as int) =~= s);
                }
            }
            false
        },
    }
}

/// Reads a message leniently: what it gives is a candidate, which the
/// caller holds against the input.
pub fn scan_envelope(bytes: &Vec<u8>) -> (r: Option<RMessage>)
    ensures
        match r {
            Some(message) => parse_envelope(bytes@) == Some(message@),
            None => parse_envelope(bytes@) is None,
        },
{
    match take_head(bytes) {
        Some((kind, next)) => match take_payload(bytes, next) {
            Some((data, end)) => {
                if ends_with_text(bytes, end, "}") {
                    Some(RMessage { _type: kind, data })
                } else {
                    None
                }
            },
            None => None,
        },
        None => None,
    }
}

/// Reads a message as it is written: gives it exactly when the input is
/// what writing it gives.
pub fn read_envelope(bytes: &Vec<u8>) -> (r: Option<RMessage>)
    ensures
        match r {
            Some(message) => bytes@ == envelope(message@),
            None => forall|message: RMessageView| bytes@ != envelope(message),
        },
{
    let candidate = scan_envelope(bytes);
    proof {
        assert forall|message: RMessageView| bytes@ == envelope(message) implies parse_envelope(bytes@)
            == Some(message) by {
            lemma_envelope_roundtrip(message);
        }
    }
    match candidate {
        Some(message) => {
            let again = write_envelope(&message);
            if same_bytes(&again, bytes) {
                Some(message)
            } else {
                None
            }
        },
        None => None,
    }
}

/// Reads a key and the string under it.
pub open spec fn text_field(s: Seq<u8>, key: Seq<char>) -> Option<(Seq<char>, Seq<u8>)> {
    match after(s, text(key)) {
        Some(rest) => parse_string(rest),
        None => None,
    }
}

/// Reads a key and the 32-bit number under it.
pub open spec fn int_field(s: Seq<u8>, key: Seq<char>) -> Option<(i32, Seq<u8>)> {
    match after(s, text(key)) {
        Some(rest) => match parse_number(rest) {
            Some((n, end)) => if i32::MIN <= n <= i32::MAX {
                Some((n as i32, end))
            } else {
                None
            },
            None => None,
        },
        None => None,
    }
}

/// Reading a written key and string gives the string and what follows.
pub proof fn lemma_text_field(key: Seq<char>, value: Seq<char>, rest: Seq<u8>)
    ensures
        text_field(text(key) + string(value) + rest, key) == Some((value, rest)),
{
    assert(text(key) + string(value) + rest =~= text(key) + (string(value) + rest));
    lemma_after(text(key), string(value) + rest);
    lemma_string_roundtrip(value, rest);
}

/// Reading a written key and number gives the number and what follows,
/// where what follows does not go on with a digit.
pub proof fn lemma_int_field(key: Seq<char>, value: i32, rest: Seq<u8>)
    requires
        rest.len() == 0 || !is_digit(rest[0]),
    ensures
        int_field(text(key) + number(value as int) + rest, key) == Some((value, rest)),
{
    assert(text(key) + number(value as int) + rest =~= text(key) + (number(value as int) + rest));
    lemma_after(text(key), number(value as int) + rest);
    lemma_number_roundtrip(value as int, rest);
}

/// Reads a key and the string under it at `pos`.
fn take_text_field(bytes: &Vec<u8>, pos: usize, key: &str) -> (r: Option<(String, usize)>)
    requires
        pos <= bytes.len(),
    ensures
        match r {
            Some((value, next)) => pos < next <= bytes.len() && text_field(bytes@.skip(pos as int), key@)
                == Some((value@, bytes@.skip(next as int))),
            None => text_field(bytes@.skip(pos as int), key@) is None,
        },
{
    match take_text(bytes, pos, key) {
        Some(next) => take_string(bytes, next),
        None => None,
    }
}

/// Reads a key and the 32-bit number under it at `pos`.
fn take_int_field(bytes: &Vec<u8>, pos: usize, key: &str) -> (r: Option<(i32, usize)>)
    requires
        pos <= bytes.len(),
    ensures
        match r {
            Some((value, next)) => pos < next <= bytes.len() && int_field(bytes@.skip(pos as int), key@)
                == Some((value, bytes@.skip(next as int))),
            None => int_field(bytes@.skip(pos as int), key@) is None,
        },
{
    match take_text(bytes, pos, key) {
        Some(next) => match take_number(bytes, next) {
            Some((n, end)) => {
                if -2147483648 <= n && n <= 2147483647 {
                    Some((n as i32, end))
                } else {
                    None
                }
            },
            None => None,
        },
        None => None,
    }
}

/// The answer to a request for a uid on the wire: a JSON object that holds
/// the uid under `uid`.
pub open spec fn uid_json(uid: Seq<char>) -> Seq<u8> {
    text("{\"uid\":"@) + string(uid) + text("}"@)
}

/// Reads the answer to a request for a uid.
pub open spec fn parse_uid(s: Seq<u8>) -> Option<Seq<char>> {
    match text_field(s, "{\"uid\":"@) {
        Some((uid, end)) => if end == text("}"@) {
            Some(uid)
        } else {
            None
        },
        None => None,
    }
}

/// Reading a written uid gives the uid back.
pub proof fn lemma_uid_roundtrip(uid: Seq<char>)
    ensures
        parse_uid(uid_json(uid)) == Some(uid),
{
    lemma_text_field("{\"uid\":"@, uid, text("}"@));
}

/// Writes the answer to a request for a uid.
pub fn write_uid(uid: &str) -> (r: Vec<u8>)
    ensures
        r@ == uid_json(uid@),
{
    let mut out: Vec<u8> = Vec::new();
    put_text(&mut out, "{\"uid\":");
    put_string(&mut out, uid);
    put_text(&mut out, "}");
    assert(out@ =~= uid_json(uid@));
    out
}

/// Reads the answer to a request for a uid as it is written: gives the uid
/// exactly when the input is what writing it gives.
pub fn read_uid(bytes: &Vec<u8>) -> (r: Option<String>)
    ensures
        match r {
            Some(uid) => bytes@ == uid_json(uid@),
            None => forall|uid: Seq<char>| bytes@ != uid_json(uid),
        },
{
    proof {
        assert(bytes@.skip(0) =~= bytes@);
        assert forall|uid: Seq<char>| bytes@ == uid_json(uid) implies parse_uid(bytes@) == Some(uid) by {
            lemma_uid_roundtrip(uid);
        }
    }
    match take_text_field(bytes, 0, "{\"uid\":") {
        Some((uid, end)) => {
            if ends_with_text(bytes, end, "}") {
                let again = write_uid(uid.as_str());
                if same_bytes(&again, bytes) {
                    Some(uid)
                } else {
                    None
                }
            } else {
                None
            }
        },
        None => None,
    }
}

/// A request for a uid on the wire: it has nothing to say, and is `null`.
pub open spec fn request_json() -> Seq<u8> {
    text("null"@)
}

/// The description of a file on the wire: a JSON object with its nine
/// fields in the order of the struct.
#[verifier::opaque]
pub open spec fn file_json(file: NewRFileView) -> Seq<u8> {
    text("{\"uid\":"@) + string(file.uid) + text(",\"node\":"@) + string(file.node) + text(
        ",\"folder\":"@,
    ) + string(file.folder) + text(",\"filename\":"@) + string(file.filename) + text(",\"size\":"@)
        + number(file.size as int) + text(",\"status\":"@) + string(file.status) + text(
        ",\"created_at\":"@,
    ) + number(file.created_at as int) + text(",\"modified_at\":"@) + number(file.modified_at as int)
        + text(",\"updated_at\":"@) + number(file.updated_at as int) + text("}"@)
}

/// Reads the description of a file, and gives what follows it.
#[verifier::opaque]
pub open spec fn parse_file(s: Seq<u8>) -> Option<(NewRFileView, Seq<u8>)> {
    match text_field(s, "{\"uid\":"@) {
        Some((uid, s1)) => match text_field(s1, ",\"node\":"@) {
            Some((node, s2)) => match text_field(s2, ",\"folder\":"@) {
                Some((folder, s3)) => match text_field(s3, ",\"filename\":"@) {
                    Some((filename, s4)) => match int_field(s4, ",\"size\":"@) {
                        Some((size, s5)) => match text_field(s5, ",\"status\":"@) {
                            Some((status, s6)) => match int_field(s6, ",\"created_at\":"@) {
                                Some((created_at, s7)) => match int_field(s7, ",\"modified_at\":"@) {
                                    Some((modified_at, s8)) => match int_field(s8, ",\"updated_at\":"@) {
                                        Some((updated_at, s9)) => match after(s9, text("}"@)) {
                                            Some(rest) => Some(
                                                (
                                                    NewRFileView {
                                                        uid,
                                                        node,
                                                        folder,
                                                        filename,
                                                        size,
                                                        status,
                                                        created_at,
                                                        modified_at,
                                                        updated_at,
                                                    },
                                                    rest,
                                                ),
                                            ),
                                            None => None,
                                        },
                                        None => None,
                                    },
                                    None => None,
                                },
                                None => None,
                            },
                            None => None,
                        },
                        None => None,
                    },
                    None => None,
                },
                None => None,
            },
            None => None,
        },
        None => None,
    }
}

/// The first bytes of the pieces that follow a number.
pub proof fn lemma_after_number()
    ensures
        text(",\"status\":"@).len() > 0 && text(",\"status\":"@)[0] == 44,
        text(",\"modified_at\":"@).len() > 0 && text(",\"modified_at\":"@)[0] == 44,
        text(",\"updated_at\":"@).len() > 0 && text(",\"updated_at\":"@)[0] == 44,
        text("}"@) == seq![125u8],
        text("{\"uid\":"@).len() > 0 && text("{\"uid\":"@)[0] == 123,
{
    reveal_strlit(",\"status\":");
    reveal_strlit(",\"modified_at\":");
    reveal_strlit(",\"updated_at\":");
    reveal_strlit("}");
    reveal_strlit("{\"uid\":");
    vstd::utf8::is_ascii_chars_encode_utf8(",\"status\":"@);
    vstd::utf8::is_ascii_chars_encode_utf8(",\"modified_at\":"@);
    vstd::utf8::is_ascii_chars_encode_utf8(",\"updated_at\":"@);
    vstd::utf8::is_ascii_chars_encode_utf8("}"@);
    vstd::utf8::is_ascii_chars_encode_utf8("{\"uid\":"@);
    assert(text("}"@) =~= seq![125u8]);
}

/// Moving a bracket: a key and a value at the end of what was written go
/// to the front of what follows.
pub proof fn lemma_shift(before: Seq<u8>, key: Seq<u8>, value: Seq<u8>, rest: Seq<u8>)
    ensures
        (before + key + value) + rest == before + (key + value + rest),
{
    assert((before + key + value) + rest =~= before + (key + value + rest));
}

/// Moving a bracket: a key and a value are appended to what was written
/// behind some output.
pub proof fn lemma_append(out: Seq<u8>, before: Seq<u8>, key: Seq<u8>, value: Seq<u8>)
    ensures
        (out + before) + key + value == out + (before + key + value),
{
    assert((out + before) + key + value =~= out + (before + key + value));
}

/// Reading a written description gives the description and what follows.
pub proof fn lemma_file_roundtrip(file: NewRFileView, rest: Seq<u8>)
    ensures
        parse_file(file_json(file) + rest) == Some((file, rest)),
        file_json(file).len() > 0,
        file_json(file)[0] == 123,
{
    reveal(file_json);
    reveal(parse_file);
    lemma_after_number();
    let k1 = text("{\"uid\":"@);
    let k2 = text(",\"node\":"@);
    let k3 = text(",\"folder\":"@);
    let k4 = text(",\"filename\":"@);
    let k5 = text(",\"size\":"@);
    let k6 = text(",\"status\":"@);
    let k7 = text(",\"created_at\":"@);
    let k8 = text(",\"modified_at\":"@);
    let k9 = text(",\"updated_at\":"@);
    let v1 = string(file.uid);
    let v2 = string(file.node);
    let v3 = string(file.folder);
    let v4 = string(file.filename);
    let v5 = number(file.size as int);
    let v6 = string(file.status);
    let v7 = number(file.created_at as int);
    let v8 = number(file.modified_at as int);
    let v9 = number(file.updated_at as int);
    let w1 = k1 + v1;
    let w2 = w1 + k2 + v2;
    let w3 = w2 + k3 + v3;
    let w4 = w3 + k4 + v4;
    let w5 = w4 + k5 + v5;
    let w6 = w5 + k6 + v6;
    let w7 = w6 + k7 + v7;
    let w8 = w7 + k8 + v8;
    let w9 = w8 + k9 + v9;
    let s9 = text("}"@) + rest;
    let s8 = k9 + v9 + s9;
    let s7 = k8 + v8 + s8;
    let s6 = k7 + v7 + s7;
    let s5 = k6 + v6 + s6;
    let s4 = k5 + v5 + s5;
    let s3 = k4 + v4 + s4;
    let s2 = k3 + v3 + s3;
    let s1 = k2 + v2 + s2;
    assert(file_json(file) == w9 + text("}"@));
    assert((w9 + text("}"@)) + rest == w9 + s9) by {
        assert((w9 + text("}"@)) + rest =~= w9 + (text("}"@) + rest));
    }
    lemma_shift(w8, k9, v9, s9);
    lemma_shift(w7, k8, v8, s8);
    lemma_shift(w6, k7, v7, s7);
    lemma_shift(w5, k6, v6, s6);
    lemma_shift(w4, k5, v5, s5);
    lemma_shift(w3, k4, v4, s4);
    lemma_shift(w2, k3, v3, s3);
    lemma_shift(w1, k2, v2, s2);
    assert(file_json(file) + rest == k1 + v1 + s1);
    lemma_text_field("{\"uid\":"@, file.uid, s1);
    lemma_text_field(",\"node\":"@, file.node, s2);
    lemma_text_field(",\"folder\":"@, file.folder, s3);
    lemma_text_field(",\"filename\":"@, file.filename, s4);
    assert(s5[0] == 44) by {
        assert(s5[0] == k6[0]);
    }
    lemma_int_field(",\"size\":"@, file.size, s5);
    lemma_text_field(",\"status\":"@, file.status, s6);
    assert(s7[0] == 44) by {
        assert(s7[0] == k8[0]);
    }
    lemma_int_field(",\"created_at\":"@, file.created_at, s7);
    assert(s8[0] == 44) by {
        assert(s8[0] == k9[0]);
    }
    lemma_int_field(",\"modified_at\":"@, file.modified_at, s8);
    assert(s9[0] == 125);
    lemma_int_field(",\"updated_at\":"@, file.updated_at, s9);
    lemma_after(text("}"@), rest);
    assert(file_json(file)[0] == 123) by {
        assert(k1.len() > 0);
        assert((k1 + v1 + s1)[0] == k1[0]);
        assert((file_json(file) + rest)[0] == file_json(file)[0]) by {
            assert(file_json(file).len() >= text("}"@).len());
        }
    }
}

/// Appends the description of a file.
pub fn put_file(out: &mut Vec<u8>, file: &NewRFile)
    ensures
        final(out)@ == old(out)@ + file_json(file@),
{
    reveal(file_json);
    let ghost o = old(out)@;
    let ghost k1 = text("{\"uid\":"@);
    let ghost w1 = k1 + string(file@.uid);
    let ghost w2 = w1 + text(",\"node\":"@) + string(file@.node);
    let ghost w3 = w2 + text(",\"folder\":"@) + string(file@.folder);
    let ghost w4 = w3 + text(",\"filename\":"@) + string(file@.filename);
    let ghost w5 = w4 + text(",\"size\":"@) + number(file@.size as int);
    let ghost w6 = w5 + text(",\"status\":"@) + string(file@.status);
    let ghost w7 = w6 + text(",\"created_at\":"@) + number(file@.created_at as int);
    let ghost w8 = w7 + text(",\"modified_at\":"@) + number(file@.modified_at as int);
    let ghost w9 = w8 + text(",\"updated_at\":"@) + number(file@.updated_at as int);
    put_text(out, "{\"uid\":");
    put_string(out, file.uid.as_str());
    assert(out@ == o + w1) by {
        assert(o + k1 + string(file@.uid) =~= o + w1);
    }
    put_text(out, ",\"node\":");
    put_string(out, file.node.as_str());
    proof {
        lemma_append(o, w1, text(",\"node\":"@), string(file@.node));
    }
    put_text(out, ",\"folder\":");
    put_string(out, file.folder.as_str());
    proof {
        lemma_append(o, w2, text(",\"folder\":"@), string(file@.folder));
    }
    put_text(out, ",\"filename\":");
    put_string(out, file.filename.as_str());
    proof {
        lemma_append(o, w3, text(",\"filename\":"@), string(file@.filename));
    }
    put_text(out, ",\"size\":");
    put_number(out, file.size as i64);
    proof {
        lemma_append(o, w4, text(",\"size\":"@), number(file@.size as int));
    }
    put_text(out, ",\"status\":");
    put_string(out, file.status.as_str());
    proof {
        lemma_append(o, w5, text(",\"status\":"@), string(file@.status));
    }
    put_text(out, ",\"created_at\":");
    put_number(out, file.created_at as i64);
    proof {
        lemma_append(o, w6, text(",\"created_at\":"@), number(file@.created_at as int));
    }
    put_text(out, ",\"modified_at\":");
    put_number(out, file.modified_at as i64);
    proof {
        lemma_append(o, w7, text(",\"modified_at\":"@), number(file@.modified_at as int));
    }
    put_text(out, ",\"updated_at\":");
    put_number(out, file.updated_at as i64);
    proof {
        lemma_append(o, w8, text(",\"updated_at\":"@), number(file@.updated_at as int));
    }
    assert(out@ == o + w9);
    put_text(out, "}");
    assert(out@ == o + file_json(file@)) by {
        assert(file_json(file@) == w9 + text("}"@));
        assert((o + w9) + text("}"@) =~= o + (w9 + text("}"@)));
    }
}

/// Reads the description of a file at `pos`.
pub(crate) fn take_file(bytes: &Vec<u8>, pos: usize) -> (r: Option<(NewRFile, usize)>)
    requires
        pos <= bytes.len(),
    ensures
        match r {
            Some((file, next)) => pos < next <= bytes.len() && parse_file(bytes@.skip(pos as int)) == Some(
                (file@, bytes@.skip(next as int)),
            ),
            None => parse_file(bytes@.skip(pos as int)) is None,
        },
{
    reveal(parse_file);
    let (uid, w1) = match take_text_field(bytes, pos, "{\"uid\":") {
        Some(found) => found,
        None => {
            return None;
        },
    };
    let (node, w2) = match take_text_field(bytes, w1, ",\"node\":") {
        Some(found) => found,
        None => {
            return None;
        },
    };
    let (folder, w3) = match take_text_field(bytes, w2, ",\"folder\":") {
        Some(found) => found,
        None => {
            return None;
        },
    };
    let (filename, w4) = match take_text_field(bytes, w3, ",\"filename\":") {
        Some(found) => found,
        None => {
            return None;
        },
    };
    let (size, w5) = match take_int_field(bytes, w4, ",\"size\":") {
        Some(found) => found,
        None => {
            return None;
        },
    };
    let (status, w6) = match take_text_field(bytes, w5, ",\"status\":") {
        Some(found) => found,
        None => {
            return None;
        },
    };
    let (created_at, w7) = match take_int_field(bytes, w6, ",\"created_at\":") {
        Some(found) => found,
        None => {
            return None;
        },
    };
    let (modified_at, w8) = match take_int_field(bytes, w7, ",\"modified_at\":") {
        Some(found) => found,
        None => {
            return None;
        },
    };
    let (updated_at, w9) = match take_int_field(bytes, w8, ",\"updated_at\":") {
        Some(found) => found,
        None => {
            return None;
        },
    };
    match take_text(bytes, w9, "}") {
        Some(next) => Some(
            (NewRFile { uid, node, folder, filename, size, status, created_at, modified_at, updated_at }, next),
        ),
        None => None,
    }
}

/// Writes the description of a file.
pub fn write_file(file: &NewRFile) -> (r: Vec<u8>)
    ensures
        r@ == file_json(file@),
{
    let mut out: Vec<u8> = Vec::new();
    put_file(&mut out, file);
    assert(out@ =~= file_json(file@));
    out
}

/// Reads the description of a file as it is written: gives it exactly when
/// the input is what writing it gives.
pub fn read_file(bytes: &Vec<u8>) -> (r: Option<NewRFile>)
    ensures
        match r {
            Some(file) => bytes@ == file_json(file@),
            None => forall|file: NewRFileView| bytes@ != file_json(file),
        },
{
    proof {
        assert(bytes@.skip(0) =~= bytes@);
        assert forall|file: NewRFileView| bytes@ == file_json(file) implies parse_file(bytes@) == Some(
            (file, Seq::<u8>::empty()),
        ) by {
            lemma_file_roundtrip(file, Seq::empty());
            assert(file_json(file) + Seq::<u8>::empty() =~= file_json(file));
        }
    }
    match take_file(bytes, 0) {
        Some((file, end)) => {
            if end == bytes.len() {
                assert(bytes@.skip(end as int) =~= Seq::<u8>::empty());
                let again = write_file(&file);
                if same_bytes(&again, bytes) {
                    Some(file)
                } else {
                    None
                }
            } else {
                assert(bytes@.skip(end as int).len() > 0);
                None
            }
        },
        None => None,
    }
}

/// The descriptions of a list behind its first: each with a comma before
/// it.
pub open spec fn more_files(files: Seq<NewRFileView>) -> Seq<u8>
    decreases files.len(),
{
    if files.len() == 0 {
        Seq::empty()
    } else {
        seq![44u8] + file_json(files[0]) + more_files(files.drop_first())
    }
}

/// The descriptions of a list, with commas between them.
pub open spec fn listed(files: Seq<NewRFileView>) -> Seq<u8> {
    if files.len() == 0 {
        Seq::empty()
    } else {
        file_json(files[0]) + more_files(files.drop_first())
    }
}

/// A list of file descriptions on the wire: a JSON array of them.
pub open spec fn files_json(files: Seq<NewRFileView>) -> Seq<u8> {
    text("["@) + listed(files) + text("]"@)
}

/// Reads the descriptions of a list behind those in `acc`, up to the end of
/// the array.
pub open spec fn parse_more_files(s: Seq<u8>, acc: Seq<NewRFileView>) -> Option<Seq<NewRFileView>>
    decreases s.len(),
{
    if s.len() > 0 && s[0] == 44 {
        match parse_file(s.skip(1)) {
            Some((file, rest)) => if rest.len() < s.len() {
                parse_more_files(rest, acc.push(file))
            } else {
                None
            },
            None => None,
        }
    } else if s == text("]"@) {
        Some(acc)
    } else {
        None
    }
}

/// Reads a list of file descriptions.
pub open spec fn parse_files(s: Seq<u8>) -> Option<Seq<NewRFileView>> {
    match after(s, text("["@)) {
        Some(inner) => if inner == text("]"@) {
            Some(Seq::empty())
        } else {
            match parse_file(inner) {
                Some((file, rest)) => parse_more_files(rest, seq![file]),
                None => None,
            }
        },
        None => None,
    }
}

/// The bytes that close a list.
pub proof fn lemma_close_text()
    ensures
        text("]"@) == seq![93u8],
{
    reveal_strlit("]");
    vstd::utf8::is_ascii_chars_encode_utf8("]"@);
    assert(text("]"@) =~= seq![93u8]);
}

/// One more description appends a comma and the description.
pub proof fn lemma_more_files_push(files: Seq<NewRFileView>, file: NewRFileView)
    ensures
        more_files(files.push(file)) == more_files(files) + seq![44u8] + file_json(file),
    decreases files.len(),
{
    if files.len() == 0 {
        assert(files.push(file).drop_first() =~= Seq::<NewRFileView>::empty());
        assert(more_files(files.push(file)) =~= seq![44u8] + file_json(file) + more_files(
            Seq::<NewRFileView>::empty(),
        ));
        assert(more_files(files.push(file)) =~= more_files(files) + seq![44u8] + file_json(file));
    } else {
        lemma_more_files_push(files.drop_first(), file);
        assert(files.push(file).drop_first() =~= files.drop_first().push(file));
        assert(more_files(files.push(file)) =~= more_files(files) + seq![44u8] + file_json(file));
    }
}

/// Reading written descriptions up to the end of the array gives them back.
pub proof fn lemma_more_files_roundtrip(files: Seq<NewRFileView>, acc: Seq<NewRFileView>)
    ensures
        parse_more_files(more_files(files) + text("]"@), acc) == Some(acc + files),
    decreases files.len(),
{
    lemma_close_text();
    let s = more_files(files) + text("]"@);
    if files.len() == 0 {
        assert(s =~= text("]"@));
        assert(acc + files =~= acc);
    } else {
        let more = files.drop_first();
        let then = more_files(more) + text("]"@);
        assert(s =~= seq![44u8] + (file_json(files[0]) + then));
        assert(s.skip(1) =~= file_json(files[0]) + then);
        lemma_file_roundtrip(files[0], then);
        lemma_more_files_roundtrip(more, acc.push(files[0]));
        assert(acc.push(files[0]) + more =~= acc + files);
    }
}

/// Reading a written list gives the list back.
pub proof fn lemma_files_roundtrip(files: Seq<NewRFileView>)
    ensures
        parse_files(files_json(files)) == Some(files),
{
    lemma_close_text();
    let open = text("["@);
    let inner = listed(files) + text("]"@);
    assert(files_json(files) =~= open + inner);
    lemma_after(open, inner);
    if files.len() == 0 {
        assert(inner =~= text("]"@));
        assert(files =~= Seq::<NewRFileView>::empty());
    } else {
        let more = files.drop_first();
        let then = more_files(more) + text("]"@);
        assert(inner =~= file_json(files[0]) + then);
        lemma_file_roundtrip(files[0], then);
        assert(inner[0] == 123) by {
            assert(inner[0] == file_json(files[0])[0]);
        }
        lemma_more_files_roundtrip(more, seq![files[0]]);
        assert(seq![files[0]] + more =~= files);
    }
}

/// The descriptions of a list as plain values.
pub open spec fn descriptors_view(files: Seq<NewRFile>) -> Seq<NewRFileView> {
    files.map_values(|f: NewRFile| f@)
}

/// Writes a list of file descriptions.
pub fn write_files(files: &Vec<NewRFile>) -> (r: Vec<u8>)
    ensures
        r@ == files_json(descriptors_view(files@)),
{
    let ghost all = descriptors_view(files@);
    let ghost open = text("["@);
    let mut out: Vec<u8> = Vec::new();
    put_text(&mut out, "[");
    assert(out@ =~= open);
    if files.len() > 0 {
        put_file(&mut out, &files[0]);
        let mut i: usize = 1;
        let ghost more = all.drop_first();
        assert(more.take(0) =~= Seq::<NewRFileView>::empty());
        assert(out@ =~= open + file_json(all[0]) + more_files(more.take(0)));
        while i < files.len()
            invariant
                1 <= i <= files.len(),
                all == descriptors_view(files@),
                more == all.drop_first(),
                out@ == open + file_json(all[0]) + more_files(more.take(i - 1)),
            decreases files.len() - i,
        {
            out.push(44);
            put_file(&mut out, &files[i]);
            proof {
                lemma_more_files_push(more.take(i - 1), all[i as int]);
                assert(more.take(i as int) =~= more.take(i - 1).push(all[i as int]));
                assert(out@ =~= open + file_json(all[0]) + more_files(more.take(i as int)));
            }
            i += 1;
        }
        assert(more.take(files.len() - 1) =~= more);
        assert(out@ =~= open + listed(all));
    } else {
        assert(out@ =~= open + listed(all));
    }
    put_text(&mut out, "]");
    out
}

/// Reads a list of file descriptions leniently: what it gives is a
/// candidate, which the caller holds against the input.
pub fn scan_files(bytes: &Vec<u8>) -> (r: Option<Vec<NewRFile>>)
    ensures
        match r {
            Some(files) => parse_files(bytes@) == Some(descriptors_view(files@)),
            None => parse_files(bytes@) is None,
        },
{
    assert(bytes@.skip(0) =~= bytes@);
    let start = match take_text(bytes, 0, "[") {
        Some(next) => next,
        None => {
            return None;
        },
    };
    let mut files: Vec<NewRFile> = Vec::new();
    if ends_with_text(bytes, start, "]") {
        assert(descriptors_view(files@) =~= Seq::<NewRFileView>::empty());
        return Some(files);
    }
    let mut i: usize;
    match take_file(bytes, start) {
        Some((file, next)) => {
            assert(descriptors_view(files@.push(file)) =~= seq![file@]);
            files.push(file);
            i = next;
        },
        None => {
            return None;
        },
    }
    let ghost goal = parse_files(bytes@);
    let mut done = false;
    while i < bytes.len() && bytes[i] == 44
        invariant_except_break
            goal == parse_more_files(bytes@.skip(i as int), descriptors_view(files@)),
            !done,
        invariant
            start < i <= bytes.len(),
        ensures
            i <= bytes.len(),
            if done {
                goal is None
            } else {
                goal == parse_more_files(bytes@.skip(i as int), descriptors_view(files@)) && !(i
                    < bytes.len() && bytes@[i as int] == 44)
            },
        decreases bytes.len() - i,
    {
        let ghost here = bytes@.skip(i as int);
        assert(here[0] == 44);
        assert(here.skip(1) =~= bytes@.skip(i + 1));
        match take_file(bytes, i + 1) {
            Some((file, next)) => {
                assert(descriptors_view(files@.push(file)) =~= descriptors_view(files@).push(file@));
                files.push(file);
                i = next;
            },
            None => {
                done = true;
                break ;
            },
        }
    }
    if done {
        return None;
    }
    proof {
        let here = bytes@.skip(i as int);
        if here.len() > 0 {
            assert(here[0] == bytes@[i as int]);
        }
    }
    if ends_with_text(bytes, i, "]") {
        Some(files)
    } else {
        None
    }
}

/// Reads a list of file descriptions as it is written: gives it exactly
/// when the input is what writing it gives.
pub fn read_files(bytes: &Vec<u8>) -> (r: Option<Vec<NewRFile>>)
    ensures
        match r {
            Some(files) => bytes@ == files_json(descriptors_view(files@)),
            None => forall|files: Seq<NewRFileView>| bytes@ != files_json(files),
        },
{
    proof {
        assert forall|files: Seq<NewRFileView>| bytes@ == files_json(files) implies parse_files(bytes@)
            == Some(files) by {
            lemma_files_roundtrip(files);
        }
    }
    match scan_files(bytes) {
        Some(files) => {
            let again = write_files(&files);
            if same_bytes(&again, bytes) {
                Some(files)
            } else {
                None
            }
        },
        None => None,
    }
}

} // verus!
