pub mod json;
pub mod message;
pub mod tree;
pub mod wire;
