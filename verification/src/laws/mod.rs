//! What the library promises as a whole, each promise a theorem over the
//! functions that the contracts of the other modules are written in.

pub mod card;
pub mod config;
pub mod draft;
pub mod github;
pub mod issue;
pub mod models;
pub mod reader;
pub mod rendering;
pub mod requests;
pub mod session;
pub mod text;
pub mod transcript;
