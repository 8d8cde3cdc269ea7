//! AgoraLume's verified core: the chat workspace, the multi-agent turn rules,
//! prompt assembly, and the session/token bookkeeping behind the HTTP server.

pub mod text;
pub mod agent;
pub mod models;
pub mod workspace;
pub mod auth;
pub mod chat_log;
pub mod config;
pub mod persist;
pub mod llm_settings;
pub mod api_error;
pub mod sim;
pub mod routes;
pub mod suggest;
pub mod usage;
pub mod contract;
