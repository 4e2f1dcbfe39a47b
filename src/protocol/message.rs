//! Message types for encoding and decoding messages as the PostgreSQL
//! frontend/backend protocol defines them.

pub mod client;
pub mod parsing;
pub mod server;
