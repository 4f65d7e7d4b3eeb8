pub mod text;
pub mod json;
pub mod model;
pub mod history;
pub mod memory;
pub mod cache;
pub mod schema;
pub mod request;
pub mod reactions;
pub mod tools;
pub mod registry;
pub mod engine;
pub mod handler;
pub mod sandbox;
pub mod config;
pub mod media;
pub mod prompt;
