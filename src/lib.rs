//! Core of a Wayland display server: the wire codec, the per-client buffers and
//! framing, the object table and the request dispatch for the core interfaces,
//! the decisions of the readiness loop, and the protocol-schema reader and code
//! generator that describe interfaces.

pub mod wire;
pub mod args;
pub mod encode;
pub mod buffer;
pub mod objects;
pub mod object_impls;
pub mod dispatch;
pub mod client;
pub mod server;
pub mod logging;
pub mod schema;
pub mod names;
pub mod codegen;
