//! Authenticated file encryption: the on-disk header, its keyslots, the
//! chunked AEAD stream that carries the body, and the operations that act on
//! a header in place.
//!
//! Every function here works on byte buffers that the caller has already
//! read; nothing in this crate opens a file or a terminal.

pub mod bytes;
pub mod erase;
pub mod error;
pub mod file;
pub mod format;
pub mod header;
pub mod keyslot;
pub mod ops;
pub mod primitives;
pub mod prompt;
pub mod secret;
pub mod stream;
