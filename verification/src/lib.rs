//! Document-state and encoding logic of an editor buffer subsystem:
//! enumerations shared across the subsystem, the code-page / charset-alias
//! table, byte-order-mark detection, UTF-8 classification, UTF-16 <-> UTF-8
//! conversion, and per-document buffer state with its manager.

pub mod types;
pub mod encoding_mapper;
pub mod utf_convert;
pub mod buffer;
