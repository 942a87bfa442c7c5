pub mod config;
pub mod error;
pub mod gateway;
pub mod json;
pub mod mutation;
pub mod progress;
pub mod ranking;
pub mod shell;
pub mod similarity;
pub mod tags;
pub mod text;
pub mod token;
