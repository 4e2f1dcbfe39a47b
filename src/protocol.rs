//! Everything directly related to the PostgreSQL protocol.

pub mod message;
