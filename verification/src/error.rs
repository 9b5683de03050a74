use vstd::prelude::*;

verus! {

/// Errors raised while building key indices, deriving keys from seeds,
/// and decoding serialized extended keys.
#[derive(Debug, Clone, Copy, PartialEq, Eq, Structural)]
pub enum Error {
    /// A numeric index lies outside the 31-bit range that a key index admits.
    KeyIndexOutOfRange,
    /// The requested derivation kind is not supported by the curve family,
    /// e.g. a non-hardened child on an EdDSA-only key tree.
    UnsupportedKeyIndex,
    /// A serialized key buffer has the wrong length or holds an invalid key.
    DeserializationError,
}

} // verus!
