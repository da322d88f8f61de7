//! A Merkelized list: an append-oriented sequence of byte values whose
//! contents are committed to by a single list hash, with proofs of
//! existence for single positions and ranges, and proofs of absence.

pub mod hash;
pub mod model;
pub mod key;
pub mod index;
pub mod list_proof;
