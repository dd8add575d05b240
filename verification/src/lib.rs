//! Canonical binary encoder for the fixed little-endian wire format of a
//! distributed storage cluster's messaging protocol.
//!
//! Every participating type implements [`primitives::Serialize`]: append the
//! value's canonical byte representation to a caller-supplied buffer. Larger
//! encodings are built from smaller ones by concatenation (fixed-shape
//! composites), length-prefix-then-concatenate (text, sequences, mappings),
//! and presence-flag-then-value (optionals).

pub mod le_bytes;
pub mod primitives;
pub mod containers;
pub mod laws;
