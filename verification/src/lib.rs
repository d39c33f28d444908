pub mod command;
pub mod tape;
pub mod loader;
pub mod engine;
