//! Decoding and encoding of shielded key records in legacy wallet files,
//! together with the byte-level primitives they are built from and a
//! format-independent wallet model.

pub mod primitives;
pub mod error;
pub mod walletzkey;
pub mod wallet;
