//! A verified core for a columnar-data streaming service: a catalog of named
//! datasets, a wire codec that frames a schema and a sequence of record
//! batches as self-describing messages, a client-side decoding state machine,
//! and the fixed table of protocol verbs.

pub mod catalog;
pub mod data;
pub mod decode;
pub mod encode;
pub mod error;
pub mod laws;
pub mod server;
pub mod source;
pub mod stream;
pub mod wire;
