pub mod config;
pub mod dispatcher;
pub mod engine;
pub mod executor;
pub mod models;
pub mod msgbus;
pub mod text;
