//! A compact, self-describing binary serialization format for structured,
//! typed, optionally annotated data: the value encoder (type descriptors,
//! inline and variable-length lengths, two-pass buffering for containers and
//! annotations) and the stream-scoped symbol table subsystem (detection of
//! symbol-table structures, pending changes, atomic commit before the next
//! top-level item).

pub mod encoding;
pub mod types;
pub mod raw_reader;
pub mod decoding;
pub mod encoder;
pub mod decoder;
pub mod symbol_table;
pub mod system_reader;
pub mod bigint;
pub mod laws;
