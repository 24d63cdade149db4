//! Log tokenization core: a deterministic 32-bit hash that turns format
//! strings into compact tokens, the binary layout of the database entries
//! that map tokens back to their strings, the wire encoding of runtime
//! arguments, and the generator interface a format-string parser drives to
//! produce both.

pub mod encode;
pub mod entry;
pub mod error;
pub mod generator;
pub mod hash;
pub mod varint;
