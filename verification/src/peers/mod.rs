pub mod nodes;
pub mod server;
pub mod synchronizer;
pub mod watcher;
