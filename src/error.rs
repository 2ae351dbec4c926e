//! What can go wrong while decoding a wallet.

use vstd::prelude::*;

verus! {

/// The part of a record that could not be decoded.
#[derive(Clone, Copy, Debug, PartialEq, Eq, Structural)]
pub enum Field {
    Version,
    KeyType,
    Locked,
    SpendingKey,
    ViewingKey,
    HdKeyNum,
    EncKey,
    Nonce,
    KeyCount,
    TrailingBytes,
}

#[derive(Clone, Copy, Debug, PartialEq, Eq, Structural)]
pub enum WalletError {
    /// A version marker above the highest one understood.
    UnsupportedVersion(u32),
    /// A key-kind discriminant outside the known kinds.
    UnknownKeyKind(u32),
    /// A field whose bytes are truncated or malformed.
    EncodingError(Field),
}

} // verus!
