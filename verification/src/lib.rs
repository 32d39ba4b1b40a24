//! Turns a Discord thread into a GitHub issue.
pub mod card;
pub mod config;
pub mod discord;
pub mod github;
pub mod http;
pub mod issue;
pub mod json;
pub mod laws;
pub mod llm;
pub mod number;
pub mod reader;
pub mod text;
pub mod transcript;
