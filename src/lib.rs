//! Server-side engine of a collaborative plain-text editing service: the
//! project store, commit application, the connection registry with its
//! broadcast fan-out, the directory-tree builder and the request dispatcher.

pub mod client;
pub mod document;
pub mod project;
pub mod server;
pub mod tree;
