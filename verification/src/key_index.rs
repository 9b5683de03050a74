use vstd::prelude::*;

use crate::error::Error;

verus! {

/// First index of the hardened range: 2^31.
pub const HARDENED_KEY_START_INDEX: u32 = 0x8000_0000;

/// A derivation index: a 31-bit value plus a hardened flag.
///
/// Normal indices occupy `[0, 2^31)`; hardened indices are stored as the
/// normal value plus `2^31`, and are displayed and parsed as the normal
/// value with a hardened marker.
#[derive(Debug, Clone, Copy, PartialEq, Eq, Structural)]
pub enum KeyIndex {
    Normal(u32),
    Hardened(u32),
}

impl KeyIndex {
    /// The range invariant: a normal index is below 2^31, a hardened
    /// index is at or above it.
    pub open spec fn is_valid_spec(self) -> bool {
        match self {
            KeyIndex::Normal(i) => i < HARDENED_KEY_START_INDEX,
            KeyIndex::Hardened(i) => i >= HARDENED_KEY_START_INDEX,
        }
    }

    /// The raw 32-bit value as stored, hardened offset included.
    pub open spec fn spec_raw_index(self) -> u32 {
        match self {
            KeyIndex::Normal(i) => i,
            KeyIndex::Hardened(i) => i,
        }
    }

    /// The index with the hardened offset removed.
    pub open spec fn spec_normalize_index(self) -> u32
        recommends
            self.is_valid_spec(),
    {
        match self {
            KeyIndex::Normal(i) => i,
            KeyIndex::Hardened(i) => (i - HARDENED_KEY_START_INDEX) as u32,
        }
    }

    pub fn raw_index(&self) -> (r: u32)
        ensures
            r == self.spec_raw_index(),
    {
        match *self {
            KeyIndex::Normal(i) => i,
            KeyIndex::Hardened(i) => i,
        }
    }

    pub fn normalize_index(&self) -> (r: u32)
        requires
            self.is_valid_spec(),
        ensures
            r == self.spec_normalize_index(),
    {
        match *self {
            KeyIndex::Normal(i) => i,
            KeyIndex::Hardened(i) => i - HARDENED_KEY_START_INDEX,
        }
    }

    pub fn is_hardened(&self) -> (r: bool)
        ensures
            r == (self is Hardened),
    {
        match *self {
            KeyIndex::Normal(_) => false,
            KeyIndex::Hardened(_) => true,
        }
    }

    pub fn is_valid(&self) -> (r: bool)
        ensures
            r == self.is_valid_spec(),
    {
        match *self {
            KeyIndex::Normal(i) => i < HARDENED_KEY_START_INDEX,
            KeyIndex::Hardened(i) => i >= HARDENED_KEY_START_INDEX,
        }
    }

    /// Builds a normal (non-hardened) index from a raw value.
    ///
    /// Succeeds exactly on values below 2^31; larger values would collide
    /// with the hardened range and are rejected.
    pub fn from_index(index: u32) -> (r: Result<KeyIndex, Error>)
        ensures
            index < HARDENED_KEY_START_INDEX ==> r == Ok::<KeyIndex, Error>(
                KeyIndex::Normal(index),
            ),
            index >= HARDENED_KEY_START_INDEX ==> r == Err::<KeyIndex, Error>(
                Error::KeyIndexOutOfRange,
            ),
    {
        if index < HARDENED_KEY_START_INDEX {
            Ok(KeyIndex::Normal(index))
        } else {
            Err(Error::KeyIndexOutOfRange)
        }
    }

    /// Builds a hardened index from its normalized value.
    ///
    /// Succeeds exactly on values below 2^31, storing the value plus 2^31;
    /// values already in the hardened range are rejected.
    pub fn hardened_from_normalize_index(index: u32) -> (r: Result<KeyIndex, Error>)
        ensures
            index < HARDENED_KEY_START_INDEX ==> r == Ok::<KeyIndex, Error>(
                KeyIndex::Hardened((index + HARDENED_KEY_START_INDEX) as u32),
            ),
            index >= HARDENED_KEY_START_INDEX ==> r == Err::<KeyIndex, Error>(
                Error::KeyIndexOutOfRange,
            ),
            r matches Ok(k) ==> k.is_valid_spec() && k is Hardened
                && k.spec_normalize_index() == index,
    {
        if index < HARDENED_KEY_START_INDEX {
            Ok(KeyIndex::Hardened(index + HARDENED_KEY_START_INDEX))
        } else {
            Err(Error::KeyIndexOutOfRange)
        }
    }
}

} // verus!
