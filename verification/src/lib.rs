pub mod cache;
pub mod dict;
pub mod handlers;
pub mod helpers;
pub mod json;
pub mod llm;
pub mod schema;
pub mod store;
pub mod text;
pub mod web_server;
