pub mod files;
pub mod nodes;
pub mod queues;
pub mod utils;
