//! Core of a tracing/profiling broker: wire codec, span state machine,
//! span tree, file-manager serialization and the operator command layer.
//!
//! Everything here is pure logic over plain values; the surrounding
//! process (network and file I/O, task scheduling) lives outside.

pub mod buffer;
pub mod codec;
pub mod file_manager;
pub mod metadata;
pub mod operator;
pub mod paths;
pub mod server;
pub mod session;
pub mod state;
pub mod tree;
pub mod util;
pub mod values;
