pub mod ambient;
pub mod digest;
pub mod error;
pub mod scan;
pub mod text;
