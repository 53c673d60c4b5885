//! Decoding of containers whose payload prefix is masked with a keystream
//! derived from the file's base name.
//!
//! The library holds the pure logic: the key derivation from a base name, the
//! container layout and its stateful unmask transform, and the bookkeeping of a
//! batch of decode tasks run under a bounded concurrency window.

pub mod error;
pub mod batch;
pub mod container;
pub mod mask;
