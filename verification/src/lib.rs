//! A bidirectional codec between a closed, string-valued enumeration and its
//! textual wire representation.
//!
//! A schema describes each enum member: its identifier, its payload shape, and
//! declared metadata (a rename, any number of aliases, or a catch-all marker).
//! [`extract::extract`] normalises raw member descriptions into descriptors,
//! [`compile::compile`] validates them and builds an immutable
//! [`codec::CodecTable`], and the table's `decode` / `encode` methods translate
//! between text and [`codec::Variant`] values. Decoding is total: text that
//! matches no wire name or alias is absorbed verbatim by the designated
//! catch-all variant.

pub mod codec;
pub mod compile;
pub mod extract;
pub mod laws;
pub mod schema;
