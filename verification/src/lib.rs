//! Binary codec for remote-desktop protocol data units.
//!
//! Every wire structure implements [`codec::PduParsing`]: it decodes from a
//! [`reader::ByteReader`], encodes onto a byte vector, and reports its exact
//! encoded length. The contracts are stated over byte sequences.

pub mod error;
pub mod wire;
pub mod reader;
pub mod codec;
pub mod geometry;
pub mod suppress_output;
pub mod security_data;
pub mod server_security;
