use vstd::prelude::*;

use hmac::Mac;
use vstd::slice::{slice_subrange, slice_to_vec};

use crate::error::Error;
use crate::key_index::KeyIndex;

verus! {

/// The 64-byte tag HMAC-SHA512 computes over a key and a message.
pub uninterp spec fn hmac_sha512_of(key: Seq<u8>, data: Seq<u8>) -> Seq<u8>;

/// Relies on `hmac::Hmac<sha2::Sha512>` (`new_from_slice`, `update`,
/// `finalize`): the tag depends on the key and message bytes alone and is
/// always 64 bytes; `new_from_slice` accepts keys of any length.
#[verifier::external_body]
fn hmac_sha512(key: &[u8], data: &[u8]) -> (r: Vec<u8>)
    ensures
        r@ == hmac_sha512_of(key@, data@),
        r@.len() == 64,
{
    let mut mac = <hmac::Hmac<sha2::Sha512> as hmac::KeyInit>::new_from_slice(key)
        .expect("HMAC accepts keys of any length");
    mac.update(data);
    mac.finalize().into_bytes().to_vec()
}

/// The compressed public key bytes of an Ed25519 secret key.
pub uninterp spec fn ed25519_public_of(sk: Seq<u8>) -> Seq<u8>;

/// Whether 32 bytes decode as a point of the Ed25519 curve.
pub uninterp spec fn ed25519_point_valid(b: Seq<u8>) -> bool;

/// Relies on `ed25519_dalek::SigningKey::from_bytes` and
/// `verifying_key`: the public key depends on the 32 secret bytes alone,
/// is 32 bytes wide, and is the compression of a curve point, so it
/// decodes again.
#[verifier::external_body]
fn ed25519_public(sk: &[u8]) -> (r: Vec<u8>)
    requires
        sk@.len() == 32,
    ensures
        r@ == ed25519_public_of(sk@),
        r@.len() == 32,
        ed25519_point_valid(r@),
{
    let mut bytes = [0u8; 32];
    bytes.copy_from_slice(sk);
    let signing = ed25519_dalek::SigningKey::from_bytes(&bytes);
    signing.verifying_key().to_bytes().to_vec()
}

/// Relies on `ed25519_dalek::VerifyingKey::from_bytes`: it accepts exactly
/// the 32-byte strings that decompress to a curve point.
#[verifier::external_body]
fn ed25519_check_point(b: &[u8]) -> (r: bool)
    requires
        b@.len() == 32,
    ensures
        r == ed25519_point_valid(b@),
{
    let mut bytes = [0u8; 32];
    bytes.copy_from_slice(b);
    ed25519_dalek::VerifyingKey::from_bytes(&bytes).is_ok()
}

/// The fixed HMAC key that separates this curve family's master keys:
/// the ASCII bytes of `ed25519 seed`.
pub open spec fn ed25519_domain_key() -> Seq<u8> {
    seq![101u8, 100u8, 50u8, 53u8, 53u8, 49u8, 57u8, 32u8, 115u8, 101u8, 101u8, 100u8]
}

fn ed25519_domain_key_bytes() -> (r: Vec<u8>)
    ensures
        r@ == ed25519_domain_key(),
{
    let mut v: Vec<u8> = Vec::new();
    v.push(101);
    v.push(100);
    v.push(50);
    v.push(53);
    v.push(53);
    v.push(49);
    v.push(57);
    v.push(32);
    v.push(115);
    v.push(101);
    v.push(101);
    v.push(100);
    proof {
        assert(v@ =~= ed25519_domain_key());
    }
    v
}

/// A 32-bit value in big-endian byte order.
pub open spec fn be_bytes32(x: u32) -> Seq<u8> {
    seq![(x >> 24) as u8, (x >> 16) as u8, (x >> 8) as u8, x as u8]
}

/// Extended private key of the EdDSA curve family: a 32-byte private
/// scalar and a 32-byte chain code. Children carry no reference back to
/// their parent.
#[derive(Debug)]
pub struct SolanaExPrivateKey {
    pub private_key: Vec<u8>,
    pub chain_code: Vec<u8>,
}

/// Extended public key of the EdDSA curve family: the 32-byte compressed
/// point encoding; it never carries private material.
#[derive(Debug)]
pub struct SolanaExPublicKey(pub Vec<u8>);

impl Clone for SolanaExPrivateKey {
    fn clone(&self) -> (r: Self)
        ensures
            r.private_key@ == self.private_key@,
            r.chain_code@ == self.chain_code@,
    {
        SolanaExPrivateKey {
            private_key: slice_to_vec(self.private_key.as_slice()),
            chain_code: slice_to_vec(self.chain_code.as_slice()),
        }
    }
}

impl PartialEq for SolanaExPrivateKey {
    fn eq(&self, other: &Self) -> (r: bool) {
        byte_vec_eq(&self.private_key, &other.private_key) && byte_vec_eq(
            &self.chain_code,
            &other.chain_code,
        )
    }
}

impl Eq for SolanaExPrivateKey {

}

impl vstd::std_specs::cmp::PartialEqSpecImpl for SolanaExPrivateKey {
    open spec fn obeys_eq_spec() -> bool {
        true
    }

    open spec fn eq_spec(&self, other: &SolanaExPrivateKey) -> bool {
        self.private_key@ == other.private_key@ && self.chain_code@ == other.chain_code@
    }
}

impl Clone for SolanaExPublicKey {
    fn clone(&self) -> (r: Self)
        ensures
            r.0@ == self.0@,
    {
        SolanaExPublicKey(slice_to_vec(self.0.as_slice()))
    }
}

impl PartialEq for SolanaExPublicKey {
    fn eq(&self, other: &Self) -> (r: bool) {
        byte_vec_eq(&self.0, &other.0)
    }
}

impl Eq for SolanaExPublicKey {

}

impl vstd::std_specs::cmp::PartialEqSpecImpl for SolanaExPublicKey {
    open spec fn obeys_eq_spec() -> bool {
        true
    }

    open spec fn eq_spec(&self, other: &SolanaExPublicKey) -> bool {
        self.0@ == other.0@
    }
}

fn byte_vec_eq(a: &Vec<u8>, b: &Vec<u8>) -> (r: bool)
    ensures
        r == (a@ == b@),
{
    if a.len() != b.len() {
        return false;
    }
    let n = a.len();
    let mut i: usize = 0;
    while i < n
        invariant
            0 <= i <= n,
            n == a@.len() == b@.len(),
            forall|p: int| 0 <= p < i ==> a@[p] == b@[p],
        decreases n - i,
    {
        if a[i] != b[i] {
            return false;
        }
        i += 1;
    }
    proof {
        assert(a@ =~= b@);
    }
    true
}

/// The 64-byte digest master-key derivation computes from a seed.
pub open spec fn master_key_digest(seed: Seq<u8>) -> Seq<u8> {
    hmac_sha512_of(ed25519_domain_key(), seed)
}

impl SolanaExPrivateKey {
    /// Scalar and chain code both have their fixed 32-byte width.
    pub open spec fn wf(self) -> bool {
        self.private_key@.len() == 32 && self.chain_code@.len() == 32
    }

    /// `self` is the master key of `seed`: its scalar is the left half
    /// and its chain code the right half of the seed's keyed digest.
    pub open spec fn is_master_key_of(self, seed: Seq<u8>) -> bool {
        &&& self.private_key@ == master_key_digest(seed).subrange(0, 32)
        &&& self.chain_code@ == master_key_digest(seed).subrange(32, 64)
    }

    /// The 64-byte digest hardened child derivation computes under this
    /// key: keyed by the chain code, over a zero byte, the parent scalar
    /// and the big-endian raw index.
    pub open spec fn child_digest(self, index: KeyIndex) -> Seq<u8> {
        hmac_sha512_of(
            self.chain_code@,
            seq![0u8] + self.private_key@ + be_bytes32(index.spec_raw_index()),
        )
    }

    /// `child` is the child of `self` under `index`.
    pub open spec fn is_child_key_of(self, child: SolanaExPrivateKey, index: KeyIndex) -> bool {
        &&& child.private_key@ == self.child_digest(index).subrange(0, 32)
        &&& child.chain_code@ == self.child_digest(index).subrange(32, 64)
    }

    /// Derives the master key of a seed. The derivation is keyed hashing
    /// alone, so it is deterministic: the same seed always yields the
    /// same scalar and chain code. An invalid candidate scalar would be a
    /// hard failure, never retried; for this curve family every 32-byte
    /// candidate is a valid key, so derivation succeeds for every seed.
    pub fn new_master_key(seed: &[u8]) -> (r: Result<SolanaExPrivateKey, Error>)
        ensures
            r matches Ok(k) && k.wf() && k.is_master_key_of(seed@),
    {
        let domain_key = ed25519_domain_key_bytes();
        let mut digest = hmac_sha512(domain_key.as_slice(), seed);
        let chain_code = digest.split_off(32);
        Ok(SolanaExPrivateKey { private_key: digest, chain_code })
    }

    /// Derives a hardened child key. This curve family has no
    /// public-key-only derivation, so a non-hardened index is rejected
    /// with `UnsupportedKeyIndex` rather than silently hardened.
    pub fn derive_private_key(&self, key_index: KeyIndex) -> (r: Result<SolanaExPrivateKey, Error>)
        requires
            self.wf(),
            key_index.is_valid_spec(),
        ensures
            key_index is Hardened ==> (r matches Ok(k) && k.wf() && self.is_child_key_of(
                k,
                key_index,
            )),
            key_index is Normal ==> r == Err::<SolanaExPrivateKey, Error>(
                Error::UnsupportedKeyIndex,
            ),
    {
        if !key_index.is_hardened() {
            return Err(Error::UnsupportedKeyIndex);
        }
        let raw = key_index.raw_index();
        let mut data: Vec<u8> = Vec::new();
        data.push(0u8);
        let mut i: usize = 0;
        let n = self.private_key.len();
        while i < n
            invariant
                0 <= i <= n == self.private_key@.len(),
                data@ == seq![0u8] + self.private_key@.subrange(0, i as int),
            decreases n - i,
        {
            data.push(self.private_key[i]);
            proof {
                assert(data@ =~= seq![0u8] + self.private_key@.subrange(0, i + 1));
            }
            i += 1;
        }
        proof {
            assert(self.private_key@.subrange(0, n as int) =~= self.private_key@);
        }
        data.push((raw >> 24) as u8);
        data.push((raw >> 16) as u8);
        data.push((raw >> 8) as u8);
        data.push(raw as u8);
        proof {
            assert(data@ =~= seq![0u8] + self.private_key@ + be_bytes32(
                key_index.spec_raw_index(),
            ));
        }
        let mut digest = hmac_sha512(self.chain_code.as_slice(), data.as_slice());
        let chain_code = digest.split_off(32);
        Ok(SolanaExPrivateKey { private_key: digest, chain_code })
    }

    /// The serialized form: the raw scalar followed by the chain code,
    /// with no checksum and no version bytes.
    pub open spec fn spec_serialize(self) -> Seq<u8> {
        self.private_key@ + self.chain_code@
    }

    pub fn serialize(&self) -> (r: Vec<u8>)
        ensures
            r@ == self.spec_serialize(),
    {
        let mut buf = slice_to_vec(self.private_key.as_slice());
        let n = self.chain_code.len();
        let mut i: usize = 0;
        while i < n
            invariant
                0 <= i <= n == self.chain_code@.len(),
                buf@ == self.private_key@ + self.chain_code@.subrange(0, i as int),
            decreases n - i,
        {
            buf.push(self.chain_code[i]);
            proof {
                assert(buf@ =~= self.private_key@ + self.chain_code@.subrange(0, i + 1));
            }
            i += 1;
        }
        proof {
            assert(self.chain_code@.subrange(0, n as int) =~= self.chain_code@);
        }
        buf
    }

    /// Splits a 64-byte buffer back into scalar and chain code; any other
    /// length is rejected.
    pub fn deserialize(data: &[u8]) -> (r: Result<SolanaExPrivateKey, Error>)
        ensures
            data@.len() == 64 ==> (r matches Ok(k) && k.wf() && k.private_key@ == data@.subrange(
                0,
                32,
            ) && k.chain_code@ == data@.subrange(32, 64)),
            data@.len() != 64 ==> r == Err::<SolanaExPrivateKey, Error>(
                Error::DeserializationError,
            ),
    {
        if data.len() != 64 {
            return Err(Error::DeserializationError);
        }
        let private_key = slice_to_vec(slice_subrange(data, 0, 32));
        let chain_code = slice_to_vec(slice_subrange(data, 32, 64));
        Ok(SolanaExPrivateKey { private_key, chain_code })
    }
}

impl SolanaExPublicKey {
    /// A 32-byte encoding that decodes as a curve point.
    pub open spec fn wf(self) -> bool {
        self.0@.len() == 32 && ed25519_point_valid(self.0@)
    }

    /// The public key of an extended private key, by point
    /// multiplication on the private scalar.
    pub fn from_private_key(key: &SolanaExPrivateKey) -> (r: Result<SolanaExPublicKey, Error>)
        requires
            key.wf(),
        ensures
            r matches Ok(p) && p.wf() && p.0@ == ed25519_public_of(key.private_key@),
    {
        let bytes = ed25519_public(key.private_key.as_slice());
        Ok(SolanaExPublicKey(bytes))
    }

    /// The serialized form: the raw compressed point encoding alone.
    pub open spec fn spec_serialize(self) -> Seq<u8> {
        self.0@
    }

    pub fn serialize(&self) -> (r: Vec<u8>)
        ensures
            r@ == self.spec_serialize(),
    {
        slice_to_vec(self.0.as_slice())
    }

    /// Accepts exactly a 32-byte encoding of a curve point; everything
    /// else is rejected.
    pub fn deserialize(data: &[u8]) -> (r: Result<SolanaExPublicKey, Error>)
        ensures
            data@.len() == 32 && ed25519_point_valid(data@) ==> (r matches Ok(p) && p.wf() && p.0@
                == data@),
            !(data@.len() == 32 && ed25519_point_valid(data@)) ==> r == Err::<
                SolanaExPublicKey,
                Error,
            >(Error::DeserializationError),
    {
        if data.len() != 32 {
            return Err(Error::DeserializationError);
        }
        if !ed25519_check_point(data) {
            return Err(Error::DeserializationError);
        }
        Ok(SolanaExPublicKey(slice_to_vec(data)))
    }
}

/// Master key derivation is deterministic: two master keys of the same
/// seed agree byte for byte on scalar and chain code.
pub proof fn lemma_master_key_deterministic(
    k1: SolanaExPrivateKey,
    k2: SolanaExPrivateKey,
    seed: Seq<u8>,
)
    requires
        k1.is_master_key_of(seed),
        k2.is_master_key_of(seed),
    ensures
        k1.private_key@ == k2.private_key@,
        k1.chain_code@ == k2.chain_code@,
{
}

/// Serializing a well-formed private key and splitting the 64 bytes again
/// recovers exactly its scalar and chain code, which is what
/// `deserialize` returns for that buffer.
pub proof fn lemma_private_key_round_trip(k: SolanaExPrivateKey)
    requires
        k.wf(),
    ensures
        k.spec_serialize().len() == 64,
        k.spec_serialize().subrange(0, 32) == k.private_key@,
        k.spec_serialize().subrange(32, 64) == k.chain_code@,
{
    assert(k.spec_serialize().subrange(0, 32) =~= k.private_key@);
    assert(k.spec_serialize().subrange(32, 64) =~= k.chain_code@);
}

/// A well-formed public key serializes to its 32 valid point bytes, so
/// deserializing the serialization succeeds and gives the key back.
pub proof fn lemma_public_key_round_trip(p: SolanaExPublicKey)
    requires
        p.wf(),
    ensures
        p.spec_serialize().len() == 32,
        ed25519_point_valid(p.spec_serialize()),
        p.spec_serialize() == p.0@,
{
}

} // verus!
