//! Decoders for two binary container formats used to distribute game assets:
//! RMAN release manifests (content-addressed bundles, chunks, files and
//! directories behind a zstd-compressed body) and WAD archives (a flat,
//! version-dependent table of compressed file entries).
//!
//! Every decoder is a pure function of an immutable byte buffer; every read
//! is bounds-checked and every failure is a typed error.

pub mod cursor;
mod error;
pub mod rman;
pub mod table;
pub mod wad;

pub use cursor::{read_bytes, read_i32, read_tag, read_u16, read_u32, read_u64, read_u8};
pub use error::DecodeError;
pub use table::{parse_long_vector, parse_vector, parse_vtable, read_indirect_string, TableRef};
