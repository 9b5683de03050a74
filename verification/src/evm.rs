use vstd::prelude::*;

use tiny_keccak::Hasher;
use vstd::slice::{slice_subrange, slice_to_vec};

verus! {

/// Errors from EVM key and address derivation.
#[derive(Debug, Clone, Copy, PartialEq, Eq, Structural)]
pub enum EvmError {
    /// The phrase is not a valid English mnemonic.
    InvalidMnemonic,
    /// The derived bytes are not a valid secp256k1 private key.
    InvalidPrivateKey,
}

/// The 32-byte Keccak-256 digest of a byte string.
pub uninterp spec fn keccak256_of(data: Seq<u8>) -> Seq<u8>;

/// Relies on `tiny_keccak::Keccak::v256` (`update`, `finalize`): the
/// 32-byte digest depends on the input bytes alone.
#[verifier::external_body]
fn keccak256(data: &[u8]) -> (r: Vec<u8>)
    ensures
        r@ == keccak256_of(data@),
        r@.len() == 32,
{
    let mut hasher = tiny_keccak::Keccak::v256();
    hasher.update(data);
    let mut out = [0u8; 32];
    hasher.finalize(&mut out);
    out.to_vec()
}

/// Whether a phrase is a valid English BIP-39 mnemonic.
pub uninterp spec fn bip39_phrase_valid(phrase: Seq<char>) -> bool;

/// The 64-byte seed a mnemonic phrase and password stretch to.
pub uninterp spec fn bip39_seed_of(phrase: Seq<char>, password: Seq<char>) -> Seq<u8>;

/// Relies on tiny-bip39's `Mnemonic::from_phrase` with the English word
/// list (accepts exactly the valid phrases) and `Seed::new` (PBKDF2 over
/// the phrase and password, always 64 bytes).
#[verifier::external_body]
fn mnemonic_seed(phrase: &str, password: &str) -> (r: Option<Vec<u8>>)
    ensures
        r is Some <==> bip39_phrase_valid(phrase@),
        r matches Some(v) ==> v@ == bip39_seed_of(phrase@, password@) && v@.len() == 64,
{
    match bip39::Mnemonic::from_phrase(phrase, bip39::Language::English) {
        Ok(m) => Some(bip39::Seed::new(&m, password).as_bytes().to_vec()),
        Err(_) => None,
    }
}

/// Whether 32 bytes are a valid secp256k1 private scalar.
pub uninterp spec fn secp_scalar_valid(sk: Seq<u8>) -> bool;

/// The 65-byte uncompressed public key of a valid secp256k1 scalar.
pub uninterp spec fn secp_public_uncompressed_of(sk: Seq<u8>) -> Seq<u8>;

/// Relies on secp256k1's `SecretKey::from_secret_bytes` (accepts exactly
/// the 32-byte scalars in `[1, order)`), `PublicKey::from_secret_key` and
/// `serialize_uncompressed` (always 65 bytes): the public key depends on
/// the scalar alone.
#[verifier::external_body]
fn secp256k1_public_uncompressed(sk: &[u8]) -> (r: Option<Vec<u8>>)
    requires
        sk@.len() == 32,
    ensures
        r is Some <==> secp_scalar_valid(sk@),
        r matches Some(v) ==> v@ == secp_public_uncompressed_of(sk@) && v@.len() == 65,
{
    let mut bytes = [0u8; 32];
    bytes.copy_from_slice(sk);
    match secp256k1::SecretKey::from_secret_bytes(bytes) {
        Ok(secret) => {
            let public = secp256k1::PublicKey::from_secret_key(&secret);
            Some(public.serialize_uncompressed().to_vec())
        },
        Err(_) => None,
    }
}

pub open spec fn is_hex_digit(c: char) -> bool {
    ('0' <= c && c <= '9') || ('a' <= c && c <= 'f') || ('A' <= c && c <= 'F')
}

pub open spec fn hex_digit_val(c: char) -> nat {
    if '0' <= c && c <= '9' {
        (c as u32 - 48) as nat
    } else if 'a' <= c && c <= 'f' {
        (c as u32 - 87) as nat
    } else {
        (c as u32 - 55) as nat
    }
}

/// A string decodes as hex exactly when its length is even and every
/// character is a hex digit.
pub open spec fn hex_decode_ok(s: Seq<char>) -> bool {
    s.len() % 2 == 0 && forall|i: int| 0 <= i < s.len() ==> is_hex_digit(#[trigger] s[i])
}

/// The bytes a hex string decodes to: one byte per digit pair.
pub open spec fn hex_decoded(s: Seq<char>) -> Seq<u8> {
    Seq::new(
        s.len() / 2,
        |i: int| (hex_digit_val(s[2 * i]) * 16 + hex_digit_val(s[2 * i + 1])) as u8,
    )
}

/// Relies on `hex::decode`: it succeeds exactly on even-length strings of
/// hex digits and yields one byte per digit pair, high digit first.
#[verifier::external_body]
fn hex_decode(s: &str) -> (r: Option<Vec<u8>>)
    ensures
        r is Some <==> hex_decode_ok(s@),
        r matches Some(v) ==> v@ == hex_decoded(s@),
{
    match hex::decode(s) {
        Ok(v) => Some(v),
        Err(_) => None,
    }
}

/// The private key bytes the wallet derives from a mnemonic phrase: the
/// Keccak-256 digest of the phrase's seed with an empty password.
pub open spec fn evm_private_key_of(phrase: Seq<char>) -> Seq<u8> {
    keccak256_of(bip39_seed_of(phrase, Seq::<char>::empty()))
}

/// The 20-byte address of that key: the tail of the Keccak-256 digest of
/// the uncompressed public key without its leading format byte.
pub open spec fn evm_address_of(phrase: Seq<char>) -> Seq<u8> {
    keccak256_of(secp_public_uncompressed_of(evm_private_key_of(phrase)).subrange(1, 65)).subrange(
        12,
        32,
    )
}

/// Derives the private key for an account index from a mnemonic phrase.
/// The index does not enter the digest: every index yields the same key.
pub fn derive_private_key(mnemonic_phrase: &str, account_index: u32) -> (r: Result<
    Vec<u8>,
    EvmError,
>)
    ensures
        !bip39_phrase_valid(mnemonic_phrase@) ==> r == Err::<Vec<u8>, EvmError>(
            EvmError::InvalidMnemonic,
        ),
        bip39_phrase_valid(mnemonic_phrase@) && !secp_scalar_valid(
            evm_private_key_of(mnemonic_phrase@),
        ) ==> r == Err::<Vec<u8>, EvmError>(EvmError::InvalidPrivateKey),
        bip39_phrase_valid(mnemonic_phrase@) && secp_scalar_valid(
            evm_private_key_of(mnemonic_phrase@),
        ) ==> (r matches Ok(v) && v@ == evm_private_key_of(mnemonic_phrase@) && v@.len() == 32),
{
    let seed = match mnemonic_seed(mnemonic_phrase, "") {
        Some(seed) => seed,
        None => {
            return Err(EvmError::InvalidMnemonic);
        },
    };
    proof {
        reveal_strlit("");
        assert(""@ =~= Seq::<char>::empty());
    }
    let key = keccak256(seed.as_slice());
    match secp256k1_public_uncompressed(key.as_slice()) {
        Some(_) => Ok(key),
        None => Err(EvmError::InvalidPrivateKey),
    }
}

/// Derives the Ethereum-style address for an account index: Keccak-256
/// over the public key, last 20 bytes.
pub fn generate_address(mnemonic_phrase: &str, account_index: u32) -> (r: Result<Vec<u8>, EvmError>)
    ensures
        !bip39_phrase_valid(mnemonic_phrase@) ==> r == Err::<Vec<u8>, EvmError>(
            EvmError::InvalidMnemonic,
        ),
        bip39_phrase_valid(mnemonic_phrase@) && !secp_scalar_valid(
            evm_private_key_of(mnemonic_phrase@),
        ) ==> r == Err::<Vec<u8>, EvmError>(EvmError::InvalidPrivateKey),
        bip39_phrase_valid(mnemonic_phrase@) && secp_scalar_valid(
            evm_private_key_of(mnemonic_phrase@),
        ) ==> (r matches Ok(a) && a@ == evm_address_of(mnemonic_phrase@) && a@.len() == 20),
{
    let private_key = match derive_private_key(mnemonic_phrase, account_index) {
        Ok(key) => key,
        Err(e) => {
            return Err(e);
        },
    };
    let public_key = match secp256k1_public_uncompressed(private_key.as_slice()) {
        Some(p) => p,
        None => {
            return Err(EvmError::InvalidPrivateKey);
        },
    };
    let point_bytes = slice_subrange(public_key.as_slice(), 1, 65);
    let digest = keccak256(point_bytes);
    let address = slice_to_vec(slice_subrange(digest.as_slice(), 12, 32));
    Ok(address)
}

/// Derives the addresses of the first `count` account indices. The
/// per-index key does not depend on the index, so all entries agree.
pub fn generate_addresses(mnemonic_phrase: &str, count: u32) -> (r: Result<Vec<Vec<u8>>, EvmError>)
    ensures
        count > 0 && !bip39_phrase_valid(mnemonic_phrase@) ==> r == Err::<Vec<Vec<u8>>, EvmError>(
            EvmError::InvalidMnemonic,
        ),
        count > 0 && bip39_phrase_valid(mnemonic_phrase@) && !secp_scalar_valid(
            evm_private_key_of(mnemonic_phrase@),
        ) ==> r == Err::<Vec<Vec<u8>>, EvmError>(EvmError::InvalidPrivateKey),
        count == 0 || (bip39_phrase_valid(mnemonic_phrase@) && secp_scalar_valid(
            evm_private_key_of(mnemonic_phrase@),
        )) ==> r is Ok,
        r matches Ok(v) ==> v@.len() == count && forall|i: int|
            0 <= i < count ==> (#[trigger] v@[i])@ == evm_address_of(mnemonic_phrase@),
{
    let mut addresses: Vec<Vec<u8>> = Vec::new();
    let mut i: u32 = 0;
    while i < count
        invariant
            0 <= i <= count,
            i > 0 ==> bip39_phrase_valid(mnemonic_phrase@) && secp_scalar_valid(
                evm_private_key_of(mnemonic_phrase@),
            ),
            addresses@.len() == i,
            forall|p: int|
                0 <= p < i ==> (#[trigger] addresses@[p])@ == evm_address_of(mnemonic_phrase@),
        decreases count - i,
    {
        match generate_address(mnemonic_phrase, i) {
            Ok(address) => addresses.push(address),
            Err(e) => {
                return Err(e);
            },
        }
        i += 1;
    }
    Ok(addresses)
}

/// The ERC-20 `balanceOf(address)` selector, padded as the wallet sends
/// it: four selector bytes and twelve zero bytes.
pub open spec fn balance_of_prefix() -> Seq<u8> {
    seq![
        0x70u8,
        0xa0u8,
        0x82u8,
        0x31u8,
        0u8,
        0u8,
        0u8,
        0u8,
        0u8,
        0u8,
        0u8,
        0u8,
        0u8,
        0u8,
        0u8,
        0u8,
    ]
}

/// The ERC-20 `transfer(address,uint256)` selector with the same padding.
pub open spec fn transfer_prefix() -> Seq<u8> {
    seq![
        0xa9u8,
        0x05u8,
        0x9cu8,
        0xbbu8,
        0u8,
        0u8,
        0u8,
        0u8,
        0u8,
        0u8,
        0u8,
        0u8,
        0u8,
        0u8,
        0u8,
        0u8,
    ]
}

/// Builds the call data of an ERC-20 `balanceOf` query: the padded
/// selector followed by the 20 owner-address bytes.
pub fn erc20_balance_of_data(owner_address: &[u8]) -> (r: Vec<u8>)
    requires
        owner_address@.len() == 20,
    ensures
        r@ == balance_of_prefix() + owner_address@,
{
    let lit = "70a08231000000000000000000000000";
    proof {
        reveal_strlit("70a08231000000000000000000000000");
        assert(hex_decode_ok(lit@));
        assert(hex_decoded(lit@) =~= balance_of_prefix());
    }
    let mut data = match hex_decode(lit) {
        Some(v) => v,
        None => {
            proof {
                assert(false);
            }
            Vec::new()
        },
    };
    append_bytes(&mut data, owner_address);
    data
}

/// Builds the call data the wallet sends for an ERC-20 `transfer`: the
/// padded selector, the 20 recipient bytes, 32 zero padding bytes, and
/// the 32-byte big-endian amount.
pub fn erc20_transfer_data(to_address: &[u8], amount_be: &[u8]) -> (r: Vec<u8>)
    requires
        to_address@.len() == 20,
        amount_be@.len() == 32,
    ensures
        r@ == transfer_prefix() + to_address@ + Seq::new(32nat, |i: int| 0u8) + amount_be@,
{
    let lit = "a9059cbb000000000000000000000000";
    proof {
        reveal_strlit("a9059cbb000000000000000000000000");
        assert(hex_decode_ok(lit@));
        assert(hex_decoded(lit@) =~= transfer_prefix());
    }
    let mut data = match hex_decode(lit) {
        Some(v) => v,
        None => {
            proof {
                assert(false);
            }
            Vec::new()
        },
    };
    append_bytes(&mut data, to_address);
    let ghost before_pad = data@;
    let mut z: usize = 0;
    while z < 32
        invariant
            0 <= z <= 32,
            data@.len() == before_pad.len() + z,
            data@.subrange(0, before_pad.len() as int) == before_pad,
            forall|p: int| before_pad.len() <= p < data@.len() ==> data@[p] == 0u8,
        decreases 32 - z,
    {
        data.push(0u8);
        proof {
            assert(data@.subrange(0, before_pad.len() as int) =~= before_pad);
        }
        z += 1;
    }
    proof {
        assert(data@ =~= transfer_prefix() + to_address@ + Seq::new(32nat, |i: int| 0u8));
    }
    append_bytes(&mut data, amount_be);
    data
}

/// Appends all of `src` to `dst`.
fn append_bytes(dst: &mut Vec<u8>, src: &[u8])
    ensures
        final(dst)@ == old(dst)@ + src@,
{
    let n = src.len();
    let mut i: usize = 0;
    while i < n
        invariant
            0 <= i <= n == src@.len(),
            dst@ == old(dst)@ + src@.subrange(0, i as int),
        decreases n - i,
    {
        let b = src[i];
        dst.push(b);
        proof {
            assert(dst@ =~= old(dst)@ + src@.subrange(0, i + 1));
        }
        i += 1;
    }
    proof {
        assert(src@.subrange(0, n as int) =~= src@);
    }
}

} // verus!
