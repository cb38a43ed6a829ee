use raidx::utils::configs::{ErrorRConfigs, RConfig, RConfigNode};

#[test]
fn default_config_serves_on_port_4000() {
    let c = RConfig::get_default("/data/shared".to_string());
    assert_eq!(c.folder_path, "/data/shared");
    assert_eq!(c.server.host, "0.0.0.0");
    assert_eq!(c.server.port, 4000);
    assert!(!c.server.ssl);
    assert_eq!(c.synchronizer.timeout, 2);
    assert_eq!(c.database.path, "/home/roothunter/Dev/raidx/config/raidx.database.db");
    assert!(c.nodes.is_empty());
}

#[test]
fn a_config_that_was_found_is_used() {
    let mut found = RConfig::get_default("/from/file".to_string());
    found.nodes.push(RConfigNode { host: "peer".to_string(), port: 1, ssl: true });
    found.synchronizer.timeout = 30;
    let r = RConfig::load_or_create_default(
        Some(Ok(found)),
        "/ignored".to_string(),
        Err(ErrorRConfigs::Io("not consulted".to_string())),
    )
    .unwrap();
    assert_eq!(r.folder_path, "/from/file");
    assert_eq!(r.nodes.len(), 1);
    assert_eq!(r.synchronizer.timeout, 30);
    let copy = r.clone();
    assert_eq!(copy.nodes[0].host, "peer");
    assert_eq!(copy.nodes[0].port, 1);
    assert!(copy.nodes[0].ssl);
    assert_eq!(copy.database.path, r.database.path);
}

#[test]
fn a_config_that_cannot_be_read_is_an_error() {
    let r = RConfig::load_or_create_default(
        Some(Err(ErrorRConfigs::SerdeJson("expected value".to_string()))),
        "/f".to_string(),
        Ok(()),
    );
    match r {
        Err(ErrorRConfigs::SerdeJson(text)) => assert_eq!(text, "expected value"),
        other => panic!("not a JSON error: {:?}", other),
    }
}

#[test]
fn without_a_file_the_default_is_created() {
    let r = RConfig::load_or_create_default(None, "/fresh".to_string(), Ok(())).unwrap();
    assert_eq!(r.folder_path, "/fresh");
    assert_eq!(r.server.port, 4000);
    assert!(r.nodes.is_empty());
    let failed = RConfig::load_or_create_default(
        None,
        "/fresh".to_string(),
        Err(ErrorRConfigs::Io("read-only".to_string())),
    );
    match failed {
        Err(ErrorRConfigs::Io(text)) => assert_eq!(text, "read-only"),
        other => panic!("not an I/O error: {:?}", other),
    }
}
