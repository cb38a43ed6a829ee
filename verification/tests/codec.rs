use raidx::models::files::NewRFile;
use raidx::protocol::message::{
    RCodecError, RFrame, RMSyncFiles, RMUidRequest, RMUidRespose, RMessage, RMessageTrait, RMessageType,
};
use raidx::protocol::tree::{
    bytes_from_json, file_from_json, files_from_json, message_from_json, uid_from_json,
};

const KINDS: [RMessageType; 6] = [
    RMessageType::OK,
    RMessageType::Error,
    RMessageType::SyncFiles,
    RMessageType::FileAdded,
    RMessageType::UidRequest,
    RMessageType::UidResponse,
];

fn descriptor() -> NewRFile {
    NewRFile {
        uid: "71E98BB3A75A67A45B12CC2346EE5547FC5BE621".to_string(),
        node: "node-1".to_string(),
        folder: "/root".to_string(),
        filename: "a.txt".to_string(),
        size: 10,
        status: "READY".to_string(),
        created_at: 1_700_000_000,
        modified_at: -5,
        updated_at: 0,
    }
}

fn same(a: &NewRFile, b: &NewRFile) -> bool {
    a.uid == b.uid
        && a.node == b.node
        && a.folder == b.folder
        && a.filename == b.filename
        && a.size == b.size
        && a.status == b.status
        && a.created_at == b.created_at
        && a.modified_at == b.modified_at
        && a.updated_at == b.updated_at
}

#[test]
fn kinds_are_written_by_name() {
    let names = ["OK", "Error", "SyncFiles", "FileAdded", "UidRequest", "UidResponse"];
    for (kind, name) in KINDS.iter().zip(names) {
        assert_eq!(kind.to_string(), name);
        assert_eq!(RMessageType::from_tag(name), Some(*kind));
    }
    assert_eq!(RMessageType::from_tag(""), None);
    assert_eq!(RMessageType::from_tag("ok"), None);
    assert_eq!(RMessageType::from_tag("OK "), None);
    assert_eq!(RMessageType::from_tag("UidRespons"), None);
}

#[test]
fn envelope_is_a_json_object() {
    let m = RMessage { _type: RMessageType::OK, data: None };
    assert_eq!(m.to_slice().unwrap(), b"{\"kind\":\"OK\",\"payload\":null}".to_vec());
    let m = RMessage { _type: RMessageType::FileAdded, data: Some(vec![0, 7, 10, 255]) };
    assert_eq!(m.to_slice().unwrap(), b"{\"kind\":\"FileAdded\",\"payload\":[0,7,10,255]}".to_vec());
    let m = RMessage { _type: RMessageType::SyncFiles, data: Some(vec![]) };
    assert_eq!(m.to_slice().unwrap(), b"{\"kind\":\"SyncFiles\",\"payload\":[]}".to_vec());
    let m = RMessage { _type: RMessageType::Error, data: Some(vec![100]) };
    assert_eq!(m.to_slice().unwrap(), b"{\"kind\":\"Error\",\"payload\":[100]}".to_vec());
}

#[test]
fn envelope_round_trip_for_every_kind() {
    let payloads: Vec<Option<Vec<u8>>> = vec![
        None,
        Some(vec![]),
        Some(vec![0]),
        Some(vec![255]),
        Some(vec![1, 2, 3]),
        Some((0..=255).collect()),
        Some(b"{\"uid\":\"abc\"}".to_vec()),
    ];
    for kind in KINDS {
        for data in &payloads {
            let m = RMessage { _type: kind, data: data.clone() };
            let bytes = m.to_slice().unwrap();
            let back = RMessage::from_slice(bytes).unwrap();
            assert_eq!(back._type, kind);
            assert_eq!(&back.data, data);
            assert_eq!(back.clone().has_data(), data.is_some());
        }
    }
}

#[test]
fn envelope_is_what_serde_json_reads_and_writes() {
    for kind in KINDS {
        for data in [None, Some(vec![]), Some(vec![9u8, 200, 0])] {
            let m = RMessage { _type: kind, data: data.clone() };
            let bytes = m.to_slice().unwrap();
            let value: serde_json::Value = serde_json::from_slice(&bytes).unwrap();
            assert_eq!(value["kind"].as_str().unwrap(), kind.to_string());
            match &data {
                None => assert!(value["payload"].is_null()),
                Some(d) => {
                    let items: Vec<u8> = value["payload"]
                        .as_array()
                        .unwrap()
                        .iter()
                        .map(|v| v.as_u64().unwrap() as u8)
                        .collect();
                    assert_eq!(&items, d);
                }
            }
            assert_eq!(serde_json::to_vec(&value).unwrap(), bytes);
        }
    }
}

#[test]
fn malformed_envelopes_are_refused() {
    let bad: Vec<&[u8]> = vec![
        b"",
        b"{}",
        b"null",
        b"[\"OK\",null]",
        b"{\"payload\":null}",
        b"{\"kind\":\"OK\",\"payload\":null",
        b"{\"kind\":\"OK\",\"payload\":null}}",
        b"{\"kind\":\"OK\",\"payload\":null} x",
        b"{\"kind\":\"Nope\",\"payload\":null}",
        b"{\"kind\":\"ok\",\"payload\":null}",
        b"{\"kind\":7,\"payload\":null}",
        b"{\"kind\":null,\"payload\":null}",
        b"{\"kind\":\"OK\",\"payload\":[256]}",
        b"{\"kind\":\"OK\",\"payload\":[-1]}",
        b"{\"kind\":\"OK\",\"payload\":[01]}",
        b"{\"kind\":\"OK\",\"payload\":[-0]}",
        b"{\"kind\":\"OK\",\"payload\":[1,]}",
        b"{\"kind\":\"OK\",\"payload\":[,1]}",
        b"{\"kind\":\"OK\",\"payload\":[1,2}",
        b"{\"kind\":\"OK\",\"payload\":[1.0]}",
        b"{\"kind\":\"OK\",\"payload\":[1,\"2\"]}",
        b"{\"kind\":\"OK\",\"payload\":[[1]]}",
        b"{\"kind\":\"OK\",\"payload\":[99999999999]}",
        b"{\"kind\":\"OK\",\"payload\":\"x\"}",
        b"{\"kind\":\"OK\",\"payload\":true}",
        b"{\"kind\":\"OK\",\"payload\":{}}",
        b"{\"kind\":\"OK\",\"payload\":nul}",
        b"{\"kind\":\"OK\",\"payload\":[}",
        b"{\"kind\":\"OK\" \"payload\":null}",
        b"{kind:\"OK\",payload:null}",
    ];
    for bytes in bad {
        assert_eq!(RMessage::from_slice(bytes.to_vec()).unwrap_err(), RCodecError::Malformed);
    }
}

#[test]
fn other_spellings_of_an_envelope_are_read() {
    let spellings: Vec<&[u8]> = vec![
        b"{\"kind\":\"FileAdded\",\"payload\":[1,2]}",
        b" {\"kind\":\"FileAdded\",\"payload\":[1,2]}",
        b"{\"kind\":\"FileAdded\",\"payload\":[1,2]} ",
        b"{ \"kind\" : \"FileAdded\" , \"payload\" : [ 1 , 2 ] }",
        b"{\n\t\"kind\": \"FileAdded\",\r\n\t\"payload\": [\n1,\n2\n]\n}\n",
        b"{\"payload\":[1,2],\"kind\":\"FileAdded\"}",
        b"{\"kind\":\"File\\u0041dded\",\"payload\":[1,2]}",
        b"{\"\\u006bind\":\"FileAdded\",\"payload\":[1,2]}",
        b"{\"kind\":\"FileAdded\",\"payload\":[1,2],\"extra\":{\"a\":[true,1.5e3,null,\"x\"]}}",
        b"{\"version\":2,\"kind\":\"FileAdded\",\"payload\":[1,2]}",
    ];
    for bytes in spellings {
        let m = RMessage::from_slice(bytes.to_vec()).unwrap();
        assert_eq!(m._type, RMessageType::FileAdded);
        assert_eq!(m.data, Some(vec![1, 2]));
    }
    let none: Vec<&[u8]> = vec![
        b"{\"kind\":\"UidRequest\"}",
        b"{ \"kind\" : \"UidRequest\" , \"payload\" : null }",
        b"{\"payload\":null,\"kind\":\"UidRequest\"}",
    ];
    for bytes in none {
        let m = RMessage::from_slice(bytes.to_vec()).unwrap();
        assert_eq!(m._type, RMessageType::UidRequest);
        assert_eq!(m.data, None);
    }
    let empty = RMessage::from_slice(b"{\"kind\":\"OK\",\"payload\":[ ]}".to_vec()).unwrap();
    assert_eq!(empty.data, Some(vec![]));
    let edge = RMessage::from_slice(b"{\"kind\":\"OK\",\"payload\":[0, 255]}".to_vec()).unwrap();
    assert_eq!(edge.data, Some(vec![0, 255]));
}

#[test]
fn a_value_of_serde_json_is_taken_apart() {
    let value: serde_json::Value =
        serde_json::from_str("{\"payload\": [7, 8, 9], \"kind\": \"SyncFiles\", \"x\": 1}").unwrap();
    let m = message_from_json(&value).unwrap();
    assert_eq!(m._type, RMessageType::SyncFiles);
    assert_eq!(m.data, Some(vec![7, 8, 9]));

    let mut object = serde_json::Map::new();
    object.insert("kind".to_string(), serde_json::Value::from("Error"));
    let m = message_from_json(&serde_json::Value::Object(object.clone())).unwrap();
    assert_eq!(m._type, RMessageType::Error);
    assert_eq!(m.data, None);
    object.insert("payload".to_string(), serde_json::Value::from(vec![1u8, 2]));
    let m = message_from_json(&serde_json::Value::Object(object.clone())).unwrap();
    assert_eq!(m.data, Some(vec![1, 2]));
    object.insert("payload".to_string(), serde_json::Value::from(vec![1i64, 256]));
    assert!(message_from_json(&serde_json::Value::Object(object.clone())).is_none());
    object.insert("payload".to_string(), serde_json::Value::from(1.5));
    assert!(message_from_json(&serde_json::Value::Object(object.clone())).is_none());
    object.insert("payload".to_string(), serde_json::Value::Null);
    object.insert("kind".to_string(), serde_json::Value::from("error"));
    assert!(message_from_json(&serde_json::Value::Object(object)).is_none());
    assert!(message_from_json(&serde_json::Value::Null).is_none());
    assert!(message_from_json(&serde_json::Value::from("OK")).is_none());
    assert!(message_from_json(&serde_json::Value::from(vec![1, 2])).is_none());

    let items = vec![serde_json::Value::from(0), serde_json::Value::from(255)];
    assert_eq!(bytes_from_json(&items), Some(vec![0, 255]));
    assert_eq!(bytes_from_json(&vec![]), Some(vec![]));
    assert_eq!(bytes_from_json(&vec![serde_json::Value::from(-1)]), None);
    assert_eq!(bytes_from_json(&vec![serde_json::Value::from(u64::MAX)]), None);
    assert_eq!(bytes_from_json(&vec![serde_json::Value::from("1")]), None);

    let uid: serde_json::Value = serde_json::from_str("{\"uid\": \"abc\"}").unwrap();
    assert_eq!(uid_from_json(&uid), Some("abc".to_string()));
    assert_eq!(uid_from_json(&serde_json::Value::from("abc")), None);

    let text = String::from_utf8(descriptor().to_slice().unwrap()).unwrap();
    let file: serde_json::Value = serde_json::from_str(&text).unwrap();
    assert!(same(&file_from_json(&file).unwrap(), &descriptor()));
    let list = serde_json::Value::from(vec![file.clone(), file.clone()]);
    assert_eq!(files_from_json(&list).unwrap().len(), 2);
    assert!(files_from_json(&file).is_none());
    assert!(files_from_json(&serde_json::Value::from(vec![file, serde_json::Value::Null])).is_none());
}

#[test]
fn to_ws_message_is_a_binary_frame() {
    let m = RMessage { _type: RMessageType::UidRequest, data: None };
    match m.to_ws_message().unwrap() {
        RFrame::Binary(bytes) => assert_eq!(bytes, m.to_slice().unwrap()),
        other => panic!("not a binary frame: {:?}", other),
    }
}

#[test]
fn uid_response_round_trip() {
    let r = RMUidRespose { uid: "abc".to_string() };
    let bytes = r.to_slice().unwrap();
    assert_eq!(bytes, b"{\"uid\":\"abc\"}".to_vec());
    assert_eq!(RMUidRespose::from_slice(bytes).unwrap().uid, "abc");
    for uid in ["", "a\"b", "back\\slash", "tab\there", "line\nfeed", "\u{1}\u{1f}", "ünïcödé ✓ 🎉", "\u{7f}"] {
        let bytes = RMUidRespose { uid: uid.to_string() }.to_slice().unwrap();
        assert_eq!(RMUidRespose::from_slice(bytes).unwrap().uid, uid);
    }
    assert!(RMUidRespose::from_slice(b"{\"uid\":\"abc\"".to_vec()).is_err());
    assert!(RMUidRespose::from_slice(b"{\"uid\":abc}".to_vec()).is_err());
    assert!(RMUidRespose::from_slice(b"{\"uid\":7}".to_vec()).is_err());
    assert!(RMUidRespose::from_slice(b"{\"Uid\":\"abc\"}".to_vec()).is_err());
    assert!(RMUidRespose::from_slice(b"{\"uid\":\"\\x41\"}".to_vec()).is_err());
    assert!(RMUidRespose::from_slice(b"{\"uid\":\"\\ud800\"}".to_vec()).is_err());
    assert!(RMUidRespose::from_slice(b"{\"uid\":\"\xff\"}".to_vec()).is_err());
    assert!(RMUidRespose::from_slice(b"{\"uid\":\"a\nb\"}".to_vec()).is_err());
    let read = |bytes: &[u8]| RMUidRespose::from_slice(bytes.to_vec()).unwrap().uid;
    assert_eq!(read(b"{\"uid\":\"a\\/b\"}"), "a/b");
    assert_eq!(read(b"{\"uid\":\"\\u0041\\u00e9\"}"), "A\u{e9}");
    assert_eq!(read(b"{\"uid\":\"\\ud83c\\udf89\"}"), "\u{1f389}");
    assert_eq!(read(b"{\"uid\":\"\\u000a\"}"), "\n");
    assert_eq!(read(b" { \"uid\" : \"abc\" } "), "abc");
    assert_eq!(read(b"{\"other\":[1,2],\"uid\":\"abc\"}"), "abc");
}

#[test]
fn strings_are_escaped_as_serde_json_escapes_them() {
    for uid in ["plain", "a\"b", "back\\slash", "\u{8}\u{c}\n\r\t", "\u{0}\u{1}\u{1f}", "ünïcödé ✓ 🎉", "/slash", "\u{7f}"] {
        let bytes = RMUidRespose { uid: uid.to_string() }.to_slice().unwrap();
        let mut expected = b"{\"uid\":".to_vec();
        expected.extend(serde_json::to_vec(&uid).unwrap());
        expected.push(b'}');
        assert_eq!(bytes, expected);
        let value: serde_json::Value = serde_json::from_slice(&bytes).unwrap();
        assert_eq!(value["uid"].as_str().unwrap(), uid);
    }
}

#[test]
fn uid_request_is_null() {
    assert_eq!(RMUidRequest.to_slice().unwrap(), b"null".to_vec());
    assert!(RMUidRequest::from_slice(b"null".to_vec()).is_ok());
    assert!(RMUidRequest::from_slice(b" null\n".to_vec()).is_ok());
    assert!(RMUidRequest::from_slice(b"".to_vec()).is_err());
    assert!(RMUidRequest::from_slice(b"nul".to_vec()).is_err());
    assert!(RMUidRequest::from_slice(b"0".to_vec()).is_err());
    assert!(RMUidRequest::from_slice(b"{}".to_vec()).is_err());
}

#[test]
fn file_description_round_trip() {
    let d = descriptor();
    let bytes = d.to_slice().unwrap();
    let expected = "{\"uid\":\"71E98BB3A75A67A45B12CC2346EE5547FC5BE621\",\"node\":\"node-1\",\
\"folder\":\"/root\",\"filename\":\"a.txt\",\"size\":10,\"status\":\"READY\",\
\"created_at\":1700000000,\"modified_at\":-5,\"updated_at\":0}";
    assert_eq!(bytes, expected.as_bytes().to_vec());
    let back = NewRFile::from_slice(bytes.clone()).unwrap();
    assert!(same(&back, &d));
    let value: serde_json::Value = serde_json::from_slice(&bytes).unwrap();
    assert_eq!(value["filename"].as_str().unwrap(), "a.txt");
    assert_eq!(value["size"].as_i64().unwrap(), 10);
    assert_eq!(value["modified_at"].as_i64().unwrap(), -5);
    let extreme = NewRFile {
        folder: "/tmp/we\"ird\\dir\n".to_string(),
        filename: "ü ✓.txt".to_string(),
        size: i32::MAX,
        created_at: i32::MIN,
        ..descriptor()
    };
    let back = NewRFile::from_slice(extreme.to_slice().unwrap()).unwrap();
    assert!(same(&back, &extreme));
}

#[test]
fn malformed_file_descriptions_are_refused() {
    let good = descriptor().to_slice().unwrap();
    let text = String::from_utf8(good.clone()).unwrap();
    assert!(NewRFile::from_slice(good).is_ok());
    let bad = vec![
        text.replace("\"size\":10", "\"size\":2147483648"),
        text.replace("\"size\":10", "\"size\":-2147483649"),
        text.replace("\"size\":10", "\"size\":010"),
        text.replace("\"size\":10", "\"size\":10.0"),
        text.replace("\"size\":10", "\"size\":\"10\""),
        text.replace("\"size\":10", "\"size\":+10"),
        text.replace("\"size\":10", "\"size\":null"),
        text.replace("\"node\"", "\"nodes\""),
        text.replace("\"node\":\"node-1\"", "\"node\":1"),
        text.replace(",\"status\":\"READY\"", ""),
        text.replace(",\"updated_at\":0", ""),
        format!("{} x", text),
        format!("[{}]", text),
        text[..text.len() - 1].to_string(),
        String::new(),
    ];
    for b in bad {
        assert_eq!(NewRFile::from_slice(b.into_bytes()).unwrap_err(), RCodecError::Malformed);
    }
}

#[test]
fn other_spellings_of_a_file_description_are_read() {
    let text = String::from_utf8(descriptor().to_slice().unwrap()).unwrap();
    let spellings = vec![
        format!("  {}\n", text),
        text.replace(",", " ,\n ").replace(":", " : "),
        text.replace("}", ",\"id\":1,\"sync\":true}"),
        text.replace("{", "{\"id\":1,"),
        text.replace("\"a.txt\"", "\"\\u0061.txt\""),
        text.replace("\"/root\"", "\"\\/root\""),
        "{\"updated_at\":0,\"modified_at\":-5,\"created_at\":1700000000,\"status\":\"READY\",\
\"size\":10,\"filename\":\"a.txt\",\"folder\":\"/root\",\"node\":\"node-1\",\
\"uid\":\"71E98BB3A75A67A45B12CC2346EE5547FC5BE621\"}"
            .to_string(),
    ];
    for spelling in spellings {
        let back = NewRFile::from_slice(spelling.clone().into_bytes()).unwrap();
        assert!(same(&back, &descriptor()), "{}", spelling);
    }
}

#[test]
fn file_list_round_trip() {
    let empty = RMSyncFiles { files: vec![] };
    assert_eq!(empty.to_slice().unwrap(), b"[]".to_vec());
    assert_eq!(RMSyncFiles::from_slice(b"[]".to_vec()).unwrap().files.len(), 0);
    let one = RMSyncFiles { files: vec![descriptor()] };
    let bytes = one.to_slice().unwrap();
    let mut expected = b"[".to_vec();
    expected.extend(descriptor().to_slice().unwrap());
    expected.extend(b"]");
    assert_eq!(bytes, expected);
    let back = RMSyncFiles::from_slice(bytes).unwrap();
    assert_eq!(back.files.len(), 1);
    assert!(same(&back.files[0], &descriptor()));
    let other = NewRFile { uid: "B".to_string(), filename: "b.txt".to_string(), ..descriptor() };
    let third = NewRFile { uid: "C".to_string(), size: -1, ..descriptor() };
    let three = RMSyncFiles { files: vec![descriptor(), other.clone(), third.clone()] };
    let bytes = three.to_slice().unwrap();
    let value: serde_json::Value = serde_json::from_slice(&bytes).unwrap();
    assert_eq!(value.as_array().unwrap().len(), 3);
    let back = RMSyncFiles::from_slice(bytes.clone()).unwrap();
    assert_eq!(back.files.len(), 3);
    assert!(same(&back.files[1], &other));
    assert!(same(&back.files[2], &third));
    let text = String::from_utf8(bytes).unwrap();
    let spaced = RMSyncFiles::from_slice(text.replace("},{", "} ,\n {").into_bytes()).unwrap();
    assert_eq!(spaced.files.len(), 3);
    assert!(same(&spaced.files[2], &third));
    assert_eq!(RMSyncFiles::from_slice(b" [ ] ".to_vec()).unwrap().files.len(), 0);
    assert!(RMSyncFiles::from_slice(text.replace("},{", "},null,{").into_bytes()).is_err());
    assert!(RMSyncFiles::from_slice(format!("{},]", &text[..text.len() - 1]).into_bytes()).is_err());
    assert!(RMSyncFiles::from_slice(text[..text.len() - 1].to_string().into_bytes()).is_err());
    assert!(RMSyncFiles::from_slice(b"[,]".to_vec()).is_err());
    assert!(RMSyncFiles::from_slice(b"null".to_vec()).is_err());
    assert!(RMSyncFiles::from_slice(b"{\"files\":[]}".to_vec()).is_err());
}
