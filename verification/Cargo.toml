[package]
name = "raidx"
version = "0.1.0"
edition = "2021"
publish = false

[dependencies]
sha1 = "0.10"
uuid = { version = "1", features = ["v4"] }
serde = { version = "1", features = ["derive"] }
serde_json = "1"
diesel = { version = "2", features = ["sqlite", "returning_clauses_for_sqlite_3_35"] }
websocket = { version = "0.27", default-features = false, features = ["sync"] }
notify = "6"
glob = "0.3"
clap = "4"
env_logger = "0.11"
log = "0.4"
tokio = { version = "1", features = ["rt-multi-thread", "macros"] }
