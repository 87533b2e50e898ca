//! A minimal HTTP/1.1 server core: a case-insensitive header table, a
//! line-oriented request parser, a response serializer, and a connection
//! driver expressed as a pure state machine. All wire-level work is done on
//! plain byte vectors; the surrounding program supplies the transport.

pub mod bytes;
pub mod wire;
pub mod headers;
pub mod status;
pub mod response;
pub mod driver;
pub mod laws;
