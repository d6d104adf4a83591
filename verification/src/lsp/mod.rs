//! The language server.

pub mod json;
pub mod json_laws;
pub mod message;
pub mod message_laws;
pub mod path_laws;
pub mod pos;
pub mod query;
pub mod query_laws;
pub mod server;
pub mod server_laws;
pub mod transport;
pub mod uri;
