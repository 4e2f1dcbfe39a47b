//! A small, runtime-agnostic client for the PostgreSQL frontend/backend
//! protocol (version 3.0).

use vstd::prelude::*;

pub mod connection;
pub mod protocol;
pub mod util;

verus! {

/// The protocol version this client implements, `3.0`: the first 16 bits
/// are the major version, the next 16 the minor version.
pub const PROTOCOL_VERSION: i32 = 0x00030000;

/// The default PostgreSQL server port.
pub const POSTGRES_DEFAULT_PORT: u16 = 5432;

/// `std::io::Error`, carried opaquely in [`Error::NetworkError`]; nothing in
/// this crate looks inside it.
#[verifier::external_type_specification]
#[verifier::external_body]
pub struct ExIoError(std::io::Error);

/// Errors that can occur when using this library.
#[derive(Debug)]
pub enum Error {
    /// Error encoding or decoding a message.
    CodecError(util::CodecError),
    /// Error communicating via network.
    NetworkError(std::io::Error),
    /// Unexpected message flow.
    ProtocolError(connection::ProtocolError),
    /// The server reported an error; its fields are kept.
    ServerError(protocol::message::server::Error),
}

} // verus!
