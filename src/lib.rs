//! The protocol core of a small HTTP/1.1 server: a request parser, a
//! response model with its serializer, and a router over a file store.

pub mod text;
pub mod headers;
pub mod http;
pub mod handler;
