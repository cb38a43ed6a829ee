use vstd::prelude::*;
use vstd::string::*;
use crate::models::files::{NewRFile, NewRFileView};
use crate::models::nodes::{with_local, RNode, RNodeView};
use crate::models::utils::scan::first_of;
use crate::models::utils::text::{copy_payload, payload_view, same_text};
use crate::protocol::json::text;
use crate::protocol::tree::{
    file_from_json, files_from_json, json_is_null, json_parse, json_parsed, message_from_json,
    tree_file, tree_files, tree_message, tree_uid, uid_from_json, RJson,
};
use crate::protocol::wire::{
    descriptors_view, envelope, file_json, files_json, lemma_envelope_roundtrip,
    lemma_file_roundtrip, lemma_files_roundtrip, lemma_uid_roundtrip, read_envelope, read_file,
    read_files, read_uid, request_json, uid_json, write_envelope, write_file, write_files,
    write_uid,
};
use crate::schema::RDatabase;

verus! {

/// The kind of a wire message.
#[derive(Debug, Clone, Copy, PartialEq, Eq, Structural)]
pub enum RMessageType {
    OK,
    Error,
    SyncFiles,
    FileAdded,
    UidRequest,
    UidResponse,
}

impl RMessageType {
    /// The text under which a kind is stored and sent.
    pub open spec fn tag(self) -> Seq<char> {
        match self {
            RMessageType::OK => "OK"@,
            RMessageType::Error => "Error"@,
            RMessageType::SyncFiles => "SyncFiles"@,
            RMessageType::FileAdded => "FileAdded"@,
            RMessageType::UidRequest => "UidRequest"@,
            RMessageType::UidResponse => "UidResponse"@,
        }
    }

    /// The kind that a text names, if it names one.
    pub open spec fn parse(tag: Seq<char>) -> Option<RMessageType> {
        if tag == "OK"@ {
            Some(RMessageType::OK)
        } else if tag == "Error"@ {
            Some(RMessageType::Error)
        } else if tag == "SyncFiles"@ {
            Some(RMessageType::SyncFiles)
        } else if tag == "FileAdded"@ {
            Some(RMessageType::FileAdded)
        } else if tag == "UidRequest"@ {
            Some(RMessageType::UidRequest)
        } else if tag == "UidResponse"@ {
            Some(RMessageType::UidResponse)
        } else {
            None
        }
    }

    /// The six tags are pairwise different: the text of a kind names that
    /// kind and no other.
    pub proof fn lemma_parse_tag(kind: RMessageType)
        ensures
            Self::parse(kind.tag()) == Some(kind),
    {
        reveal_strlit("OK");
        reveal_strlit("Error");
        reveal_strlit("SyncFiles");
        reveal_strlit("FileAdded");
        reveal_strlit("UidRequest");
        reveal_strlit("UidResponse");
        assert("OK"@.len() == 2);
        assert("Error"@.len() == 5);
        assert("SyncFiles"@.len() == 9);
        assert("FileAdded"@.len() == 9);
        assert("UidRequest"@.len() == 10);
        assert("UidResponse"@.len() == 11);
        assert("SyncFiles"@[0] == 'S');
        assert("FileAdded"@[0] == 'F');
    }

    /// The text of this kind.
    pub fn to_string(&self) -> (r: String)
        ensures
            r@ == self.tag(),
    {
        match self {
            RMessageType::OK => String::from_str("OK"),
            RMessageType::Error => String::from_str("Error"),
            RMessageType::SyncFiles => String::from_str("SyncFiles"),
            RMessageType::FileAdded => String::from_str("FileAdded"),
            RMessageType::UidRequest => String::from_str("UidRequest"),
            RMessageType::UidResponse => String::from_str("UidResponse"),
        }
    }

    /// Reads a kind back from its text.
    pub fn from_tag(tag: &str) -> (r: Option<RMessageType>)
        ensures
            r == Self::parse(tag@),
    {
        if same_text(tag, "OK") {
            Some(RMessageType::OK)
        } else if same_text(tag, "Error") {
            Some(RMessageType::Error)
        } else if same_text(tag, "SyncFiles") {
            Some(RMessageType::SyncFiles)
        } else if same_text(tag, "FileAdded") {
            Some(RMessageType::FileAdded)
        } else if same_text(tag, "UidRequest") {
            Some(RMessageType::UidRequest)
        } else if same_text(tag, "UidResponse") {
            Some(RMessageType::UidResponse)
        } else {
            None
        }
    }
}

/// A wire message: its kind and, for some kinds, a payload.
#[derive(Debug)]
pub struct RMessage {
    pub _type: RMessageType,
    pub data: Option<Vec<u8>>,
}

/// What a wire message holds, as plain values.
pub struct RMessageView {
    pub kind: RMessageType,
    pub data: Option<Seq<u8>>,
}

impl View for RMessage {
    type V = RMessageView;

    open spec fn view(&self) -> RMessageView {
        RMessageView { kind: self._type, data: payload_view(self.data) }
    }
}

impl Clone for RMessage {
    fn clone(&self) -> (r: RMessage)
        ensures
            r@ == self@,
    {
        RMessage { _type: self._type, data: copy_payload(&self.data) }
    }
}

impl RMessage {
    /// Whether the message carries a payload.
    pub fn has_data(self) -> (r: bool)
        ensures
            r == (self@.data is Some),
    {
        self.data.is_some()
    }
}

/// Why bytes could not be read: they are not what writing a value gives.
#[derive(Debug, Clone, Copy, PartialEq, Eq, Structural)]
pub enum RCodecError {
    Malformed,
}

/// A frame of the transport between two nodes.
#[derive(Debug)]
pub enum RFrame {
    Text(String),
    Binary(Vec<u8>),
    Ping(Vec<u8>),
    Pong(Vec<u8>),
    Close,
}

/// A frame as plain values.
pub enum RFrameView {
    Text(Seq<char>),
    Binary(Seq<u8>),
    Ping(Seq<u8>),
    Pong(Seq<u8>),
    Close,
}

impl View for RFrame {
    type V = RFrameView;

    open spec fn view(&self) -> RFrameView {
        match self {
            RFrame::Text(text) => RFrameView::Text(text@),
            RFrame::Binary(data) => RFrameView::Binary(data@),
            RFrame::Ping(data) => RFrameView::Ping(data@),
            RFrame::Pong(data) => RFrameView::Pong(data@),
            RFrame::Close => RFrameView::Close,
        }
    }
}

impl Clone for RFrame {
    fn clone(&self) -> (r: RFrame)
        ensures
            r@ == self@,
    {
        match self {
            RFrame::Text(text) => RFrame::Text(text.clone()),
            RFrame::Binary(data) => RFrame::Binary(data.clone()),
            RFrame::Ping(data) => RFrame::Ping(data.clone()),
            RFrame::Pong(data) => RFrame::Pong(data.clone()),
            RFrame::Close => RFrame::Close,
        }
    }
}

/// The message that bytes stand for. Bytes that are what writing a message
/// gives stand for that message. Any other bytes stand for the message that
/// they spell as JSON text, if they spell one: spaces, the order of the
/// keys, the escapes in strings and keys that are not known make no
/// difference.
pub open spec fn decoded(bytes: Seq<u8>) -> Option<RMessageView> {
    if exists|message: RMessageView| bytes == envelope(message) {
        Some(choose|message: RMessageView| bytes == envelope(message))
    } else {
        match json_parsed(bytes) {
            Some(tree) => tree_message(tree),
            None => None,
        }
    }
}

/// The file description that bytes stand for, if they stand for one: the
/// one that is written as these bytes, or else the one that they spell as
/// JSON text.
pub open spec fn decoded_file(bytes: Seq<u8>) -> Option<NewRFileView> {
    if exists|file: NewRFileView| bytes == file_json(file) {
        Some(choose|file: NewRFileView| bytes == file_json(file))
    } else {
        match json_parsed(bytes) {
            Some(tree) => tree_file(tree),
            None => None,
        }
    }
}

/// The list of file descriptions that bytes stand for, if they stand for
/// one: the one that is written as these bytes, or else the one that they
/// spell as JSON text.
pub open spec fn decoded_files(bytes: Seq<u8>) -> Option<Seq<NewRFileView>> {
    if exists|files: Seq<NewRFileView>| bytes == files_json(files) {
        Some(choose|files: Seq<NewRFileView>| bytes == files_json(files))
    } else {
        match json_parsed(bytes) {
            Some(tree) => tree_files(tree),
            None => None,
        }
    }
}

/// The uid that the bytes of an answer stand for, if they stand for one:
/// the one that is written as these bytes, or else the one that they spell
/// as JSON text.
pub open spec fn decoded_uid(bytes: Seq<u8>) -> Option<Seq<char>> {
    if exists|uid: Seq<char>| bytes == uid_json(uid) {
        Some(choose|uid: Seq<char>| bytes == uid_json(uid))
    } else {
        match json_parsed(bytes) {
            Some(tree) => tree_uid(tree),
            None => None,
        }
    }
}

/// Whether bytes stand for a request for a uid: they are `null` as it is
/// written, or spell `null` as JSON text.
pub open spec fn decoded_request(bytes: Seq<u8>) -> bool {
    bytes == request_json() || json_parsed(bytes) == Some(RJson::Null)
}

/// Round trip: what is written as a message is read back as that message,
/// for each of the six kinds and with or without a payload. So no two
/// messages are written alike.
pub proof fn lemma_decode_encode(message: RMessageView)
    ensures
        decoded(envelope(message)) == Some(message),
        forall|other: RMessageView| envelope(other) == envelope(message) ==> other == message,
{
    assert forall|other: RMessageView| envelope(other) == envelope(message) implies other == message by {
        lemma_envelope_roundtrip(other);
        lemma_envelope_roundtrip(message);
    }
}

/// Round trip of a file description.
pub proof fn lemma_decode_encode_file(file: NewRFileView)
    ensures
        decoded_file(file_json(file)) == Some(file),
        forall|other: NewRFileView| file_json(other) == file_json(file) ==> other == file,
{
    assert forall|other: NewRFileView| file_json(other) == file_json(file) implies other == file by {
        lemma_file_roundtrip(other, Seq::empty());
        lemma_file_roundtrip(file, Seq::empty());
    }
}

/// Round trip of a list of file descriptions.
pub proof fn lemma_decode_encode_files(files: Seq<NewRFileView>)
    ensures
        decoded_files(files_json(files)) == Some(files),
        forall|other: Seq<NewRFileView>| files_json(other) == files_json(files) ==> other == files,
{
    assert forall|other: Seq<NewRFileView>| files_json(other) == files_json(files) implies other
        == files by {
        lemma_files_roundtrip(other);
        lemma_files_roundtrip(files);
    }
}

/// Round trip of the answer to a request for a uid.
pub proof fn lemma_decode_encode_uid(uid: Seq<char>)
    ensures
        decoded_uid(uid_json(uid)) == Some(uid),
        forall|other: Seq<char>| uid_json(other) == uid_json(uid) ==> other == uid,
{
    assert forall|other: Seq<char>| uid_json(other) == uid_json(uid) implies other == uid by {
        lemma_uid_roundtrip(other);
        lemma_uid_roundtrip(uid);
    }
}

/// A value that is written to bytes and read from them.
///
/// Every value is written in one way: compact JSON, the keys in the order
/// of the fields, strings with the shortest escapes. What is written is
/// read back exactly, which is proved. Bytes that are not what writing
/// gives are read as JSON text by `serde_json`, so that other spellings of
/// a value are read as that value too.
pub trait RMessageTrait<T> {
    /// What a value is written as.
    spec fn wire(value: &T) -> Seq<u8>;

    /// What this value is written as.
    spec fn own_wire(&self) -> Seq<u8>;

    /// Whether reading `bytes` gives `value`, or refuses them where `value`
    /// is `None`.
    spec fn reads_as(bytes: Seq<u8>, value: Option<T>) -> bool;

    /// Reads a value: `Ok` exactly when the bytes stand for one, and then
    /// with it.
    fn from_slice(data: Vec<u8>) -> (r: Result<T, RCodecError>)
        ensures
            Self::reads_as(
                data@,
                match r {
                    Ok(value) => Some(value),
                    Err(_) => None,
                },
            ),
    ;

    /// Writes this value. Always `Ok`.
    fn to_slice(&self) -> (r: Result<Vec<u8>, RCodecError>)
        ensures
            r is Ok,
            r.unwrap()@ == self.own_wire(),
    ;
}

impl RMessageTrait<RMessage> for RMessage {
    open spec fn wire(value: &RMessage) -> Seq<u8> {
        envelope(value@)
    }

    open spec fn own_wire(&self) -> Seq<u8> {
        envelope(self@)
    }

    open spec fn reads_as(bytes: Seq<u8>, value: Option<RMessage>) -> bool {
        decoded(bytes) == match value {
            Some(message) => Some(message@),
            None => None,
        }
    }

    fn from_slice(data: Vec<u8>) -> (r: Result<RMessage, RCodecError>) {
        match read_envelope(&data) {
            Some(message) => {
                proof {
                    lemma_decode_encode(message@);
                }
                Ok(message)
            },
            None => match json_parse(data.as_slice()) {
                Some(value) => match message_from_json(&value) {
                    Some(message) => Ok(message),
                    None => Err(RCodecError::Malformed),
                },
                None => Err(RCodecError::Malformed),
            },
        }
    }

    fn to_slice(&self) -> (r: Result<Vec<u8>, RCodecError>) {
        Ok(write_envelope(self))
    }
}

impl RMessageTrait<NewRFile> for NewRFile {
    open spec fn wire(value: &NewRFile) -> Seq<u8> {
        file_json(value@)
    }

    open spec fn own_wire(&self) -> Seq<u8> {
        file_json(self@)
    }

    open spec fn reads_as(bytes: Seq<u8>, value: Option<NewRFile>) -> bool {
        decoded_file(bytes) == match value {
            Some(file) => Some(file@),
            None => None,
        }
    }

    fn from_slice(data: Vec<u8>) -> (r: Result<NewRFile, RCodecError>) {
        match read_file(&data) {
            Some(file) => {
                proof {
                    lemma_decode_encode_file(file@);
                }
                Ok(file)
            },
            None => match json_parse(data.as_slice()) {
                Some(value) => match file_from_json(&value) {
                    Some(file) => Ok(file),
                    None => Err(RCodecError::Malformed),
                },
                None => Err(RCodecError::Malformed),
            },
        }
    }

    fn to_slice(&self) -> (r: Result<Vec<u8>, RCodecError>) {
        Ok(write_file(self))
    }
}

/// The content of an `OK` message: nothing.
#[derive(Debug, Clone, Copy, PartialEq, Eq, Structural)]
pub struct RMOk;

/// The content of an `Error` message.
#[derive(Debug)]
pub struct RMError {
    pub text: String,
}

/// The content of a `SyncFiles` message: the files that a node tracks.
#[derive(Debug)]
pub struct RMSyncFiles {
    pub files: Vec<NewRFile>,
}

/// The content of a `FileAdded` message: the file that a node began to
/// track.
#[derive(Debug)]
pub struct RMFileAdded {
    pub file: NewRFile,
}

/// The content of a `UidRequest` message: nothing.
#[derive(Debug, Clone, Copy, PartialEq, Eq, Structural)]
pub struct RMUidRequest;

/// The content of a `UidResponse` message: the uid of the node that
/// answers.
#[derive(Debug)]
pub struct RMUidRespose {
    pub uid: String,
}

impl RMessageTrait<RMSyncFiles> for RMSyncFiles {
    open spec fn wire(value: &RMSyncFiles) -> Seq<u8> {
        files_json(descriptors_view(value.files@))
    }

    open spec fn own_wire(&self) -> Seq<u8> {
        files_json(descriptors_view(self.files@))
    }

    open spec fn reads_as(bytes: Seq<u8>, value: Option<RMSyncFiles>) -> bool {
        decoded_files(bytes) == match value {
            Some(list) => Some(descriptors_view(list.files@)),
            None => None,
        }
    }

    fn from_slice(data: Vec<u8>) -> (r: Result<RMSyncFiles, RCodecError>) {
        match read_files(&data) {
            Some(files) => {
                proof {
                    lemma_decode_encode_files(descriptors_view(files@));
                }
                Ok(RMSyncFiles { files })
            },
            None => match json_parse(data.as_slice()) {
                Some(value) => match files_from_json(&value) {
                    Some(files) => Ok(RMSyncFiles { files }),
                    None => Err(RCodecError::Malformed),
                },
                None => Err(RCodecError::Malformed),
            },
        }
    }

    fn to_slice(&self) -> (r: Result<Vec<u8>, RCodecError>) {
        Ok(write_files(&self.files))
    }
}

impl RMessageTrait<RMUidRequest> for RMUidRequest {
    open spec fn wire(value: &RMUidRequest) -> Seq<u8> {
        request_json()
    }

    open spec fn own_wire(&self) -> Seq<u8> {
        request_json()
    }

    open spec fn reads_as(bytes: Seq<u8>, value: Option<RMUidRequest>) -> bool {
        decoded_request(bytes) == (value is Some)
    }

    fn from_slice(data: Vec<u8>) -> (r: Result<RMUidRequest, RCodecError>) {
        assert(data@.skip(0) =~= data@);
        if crate::protocol::wire::ends_with_text(&data, 0, "null") {
            Ok(RMUidRequest {  })
        } else {
            match json_parse(data.as_slice()) {
                Some(value) => {
                    if json_is_null(&value) {
                        Ok(RMUidRequest {  })
                    } else {
                        Err(RCodecError::Malformed)
                    }
                },
                None => Err(RCodecError::Malformed),
            }
        }
    }

    fn to_slice(&self) -> (r: Result<Vec<u8>, RCodecError>) {
        let mut out: Vec<u8> = Vec::new();
        crate::protocol::json::put_text(&mut out, "null");
        assert(out@ =~= request_json());
        Ok(out)
    }
}

impl RMessageTrait<RMUidRespose> for RMUidRespose {
    open spec fn wire(value: &RMUidRespose) -> Seq<u8> {
        uid_json(value.uid@)
    }

    open spec fn own_wire(&self) -> Seq<u8> {
        uid_json(self.uid@)
    }

    open spec fn reads_as(bytes: Seq<u8>, value: Option<RMUidRespose>) -> bool {
        decoded_uid(bytes) == match value {
            Some(answer) => Some(answer.uid@),
            None => None,
        }
    }

    fn from_slice(data: Vec<u8>) -> (r: Result<RMUidRespose, RCodecError>) {
        match read_uid(&data) {
            Some(uid) => {
                proof {
                    lemma_decode_encode_uid(uid@);
                }
                Ok(RMUidRespose { uid })
            },
            None => match json_parse(data.as_slice()) {
                Some(value) => match uid_from_json(&value) {
                    Some(uid) => Ok(RMUidRespose { uid }),
                    None => Err(RCodecError::Malformed),
                },
                None => Err(RCodecError::Malformed),
            },
        }
    }

    fn to_slice(&self) -> (r: Result<Vec<u8>, RCodecError>) {
        Ok(write_uid(self.uid.as_str()))
    }
}

/// What a message says, by its kind.
#[derive(Debug)]
pub enum RContentKind {
    OK(RMOk),
    Error(RMError),
    SyncFiles(RMSyncFiles),
    FileAdded(RMFileAdded),
    UidRequest(RMUidRequest),
    UidResponse(RMUidRespose),
}

/// What a message says, as plain values.
pub enum RContentView {
    OK,
    Error(Seq<char>),
    SyncFiles(Seq<NewRFileView>),
    FileAdded(NewRFileView),
    UidRequest,
    UidResponse(Seq<char>),
}

impl View for RContentKind {
    type V = RContentView;

    open spec fn view(&self) -> RContentView {
        match self {
            RContentKind::OK(_) => RContentView::OK,
            RContentKind::Error(e) => RContentView::Error(e.text@),
            RContentKind::SyncFiles(s) => RContentView::SyncFiles(descriptors_view(s.files@)),
            RContentKind::FileAdded(f) => RContentView::FileAdded(f.file@),
            RContentKind::UidRequest(_) => RContentView::UidRequest,
            RContentKind::UidResponse(u) => RContentView::UidResponse(u.uid@),
        }
    }
}

/// What a message says. A message of kind `Error` does not carry the text
/// of the error, so its content has a fixed one; a `UidResponse` is
/// answered from the local node, and is an error where there is none; a
/// `FileAdded` or `SyncFiles` whose payload is missing or is not what it
/// should be is an error.
pub open spec fn content_of(message: RMessageView, local: Option<RNodeView>) -> RContentView {
    match message.kind {
        RMessageType::OK => RContentView::OK,
        RMessageType::Error => RContentView::Error("dada"@),
        RMessageType::UidRequest => RContentView::UidRequest,
        RMessageType::UidResponse => match local {
            Some(node) => RContentView::UidResponse(node.uid),
            None => RContentView::Error("error to fetch local node from db"@),
        },
        RMessageType::FileAdded => match message.data {
            Some(data) => match decoded_file(data) {
                Some(file) => RContentView::FileAdded(file),
                None => RContentView::Error("data is not a file"@),
            },
            None => RContentView::Error("data can't be None"@),
        },
        RMessageType::SyncFiles => match message.data {
            Some(data) => match decoded_files(data) {
                Some(files) => RContentView::SyncFiles(files),
                None => RContentView::Error("data is not a list of files"@),
            },
            None => RContentView::Error("data can't be None"@),
        },
    }
}

impl RMessage {
    /// The frame that carries this message: a binary frame with the message
    /// as written. Always `Ok`.
    pub fn to_ws_message(&self) -> (r: Result<RFrame, RCodecError>)
        ensures
            r is Ok,
            r.unwrap()@ == RFrameView::Binary(envelope(self@)),
    {
        Ok(RFrame::Binary(write_envelope(self)))
    }

    /// What this message says. It never fails: what cannot be read is an
    /// `Error` content.
    pub fn get_content(self, conn: &RDatabase) -> (r: RContentKind)
        ensures
            r@ == content_of(self@, first_of(conn@.nodes, with_local(true))),
    {
        match self._type {
            RMessageType::OK => RContentKind::OK(RMOk {  }),
            RMessageType::FileAdded => {
                match self.data {
                    Some(data) => match NewRFile::from_slice(data) {
                        Ok(file) => RContentKind::FileAdded(RMFileAdded { file }),
                        Err(_) => RContentKind::Error(RMError { text: String::from_str("data is not a file") }),
                    },
                    None => RContentKind::Error(RMError { text: String::from_str("data can't be None") }),
                }
            },
            RMessageType::UidRequest => RContentKind::UidRequest(RMUidRequest {  }),
            RMessageType::UidResponse => {
                match RNode::get_local(conn) {
                    Some(node) => RContentKind::UidResponse(RMUidRespose { uid: node.uid }),
                    None => RContentKind::Error(
                        RMError { text: String::from_str("error to fetch local node from db") },
                    ),
                }
            },
            RMessageType::Error => RContentKind::Error(RMError { text: String::from_str("dada") }),
            RMessageType::SyncFiles => {
                match self.data {
                    Some(data) => match RMSyncFiles::from_slice(data) {
                        Ok(content) => RContentKind::SyncFiles(content),
                        Err(_) => RContentKind::Error(
                            RMError { text: String::from_str("data is not a list of files") },
                        ),
                    },
                    None => RContentKind::Error(RMError { text: String::from_str("data can't be None") }),
                }
            },
        }
    }
}

} // verus!
