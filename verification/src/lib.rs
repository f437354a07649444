//! Object decoding for a content-addressable pack archive.
//!
//! A pack stores many objects in one byte stream: each record carries a
//! variable-length `(type, size)` header and either a compressed literal
//! payload or a compressed delta against a base object. The base is named
//! either by a backward offset within the same archive or by the
//! identifier of an object that an external source must supply. This
//! crate decodes records, resolves delta chains, and exposes a store that
//! answers "identifier to (type, content)".

pub mod errors;
pub mod objects;
pub mod id;
pub mod packindex;
pub mod header;
pub mod inflate;
pub mod delta;
pub mod pack;
