//! A minimal content-addressable object store in the style of a version-control
//! object database: framing, hashing, compression and the tree entry format.
//!
//! Everything here is a function of bytes and strings. The caller owns the
//! filesystem: it hands over what it read and performs the writes described by
//! the values it gets back.

pub mod decimal;
pub mod digest;
pub mod error;
pub mod files;
pub mod hex;
pub mod listing;
pub mod object;
pub mod scan;
pub mod text;
pub mod tree;
pub mod zlib;
