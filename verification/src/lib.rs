//! A manual, schema-free binary serialization protocol.
//!
//! Values are laid out in a flat byte buffer: fixed-width integers as
//! little-endian bytes, variable-size data behind a word-sized (8 byte)
//! length prefix, optional values behind a one-byte presence tag, and
//! containers as a length prefix followed by the concatenation of their
//! elements' encodings.  Decoding walks the buffer with a cursor and
//! returns, for every value, the index of the first byte it did not
//! consume, so that several values can be packed back to back and
//! decoded in sequence.
//!
//! The two capabilities are [`ser::SerializerData`] (value to bytes) and
//! [`des::DeserializerData`] (bytes to value).  Composite types get codec
//! support by hand: their encode appends each field's bytes in a fixed
//! order and their decode reads the fields back in that same order,
//! threading the returned cursor forward.  Both halves agreeing on the
//! field order is a correctness contract on the implementer; it is not
//! enforced structurally.

pub mod des;
pub mod laws;
pub mod ser;
