pub mod configs;
