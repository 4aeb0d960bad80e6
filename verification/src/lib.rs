//! A client library for Valkey: the RESP wire codec, and for every supported
//! command the request it sends and the meaning of each reply.

pub mod error;
pub mod resp;
pub mod store;
