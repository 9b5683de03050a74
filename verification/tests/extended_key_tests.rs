use hdwallet_core::error::Error;
use hdwallet_core::extended_key::{SolanaExPrivateKey, SolanaExPublicKey};
use hdwallet_core::key_index::KeyIndex;

fn get_solana_extended_key() -> Result<SolanaExPrivateKey, Error> {
    let seed_phrase = bip39::Mnemonic::new(bip39::MnemonicType::Words24, bip39::Language::English);
    let seed = bip39::Seed::new(&seed_phrase, "");

    Ok(SolanaExPrivateKey::new_master_key(seed.as_bytes()).expect("master key"))
}

#[test]
fn derive_child_private_key() {
    let master_key = get_solana_extended_key().unwrap();
    // Solana keys are always hardended
    master_key
        .derive_private_key(KeyIndex::hardened_from_normalize_index(0).unwrap())
        .expect("hardended_key");
}

#[test]
fn derive_child_public_key_from_child_private_key() {
    let master_key = get_solana_extended_key().unwrap();

    let child_private_key = master_key
        .derive_private_key(KeyIndex::hardened_from_normalize_index(1).unwrap())
        .unwrap();

    SolanaExPublicKey::from_private_key(&child_private_key).expect("public key");
}

#[test]
fn priv_key_serialize_deserialize() {
    let master_key = get_solana_extended_key().unwrap();
    let buf = master_key.serialize();
    assert_eq!(
        SolanaExPrivateKey::deserialize(&buf).expect("deserialized"),
        master_key
    );
}

#[test]
fn pub_key_serialize_deserialize() {
    let master_key =
        SolanaExPublicKey::from_private_key(&get_solana_extended_key().unwrap()).unwrap();
    let buf = master_key.serialize();
    assert_eq!(
        SolanaExPublicKey::deserialize(&buf).expect("deserialized"),
        master_key
    );
}

#[test]
fn master_key_matches_known_vector() {
    let seed = hex::decode("000102030405060708090a0b0c0d0e0f").unwrap();
    let key = SolanaExPrivateKey::new_master_key(&seed).unwrap();
    assert_eq!(
        hex::encode(&key.private_key),
        "2b4be7f19ee27bbf30c667b642d5f4aa69fd169872f8fc3059c08ebae2eb19e7"
    );
    assert_eq!(
        hex::encode(&key.chain_code),
        "90046a93de5380a72b5e45010748567d5ea02bbf6522f979e05c0d8d8ca9fffb"
    );
}

#[test]
fn master_public_key_matches_known_vector() {
    let seed = hex::decode("000102030405060708090a0b0c0d0e0f").unwrap();
    let key = SolanaExPrivateKey::new_master_key(&seed).unwrap();
    let public = SolanaExPublicKey::from_private_key(&key).unwrap();
    assert_eq!(
        hex::encode(&public.0),
        "a4b2856bfec510abab89753fac1ac0e1112364e7d250545963f135f2a33188ed"
    );
}

#[test]
fn hardened_child_matches_known_vector() {
    let seed = hex::decode("000102030405060708090a0b0c0d0e0f").unwrap();
    let master = SolanaExPrivateKey::new_master_key(&seed).unwrap();
    let child = master
        .derive_private_key(KeyIndex::hardened_from_normalize_index(0).unwrap())
        .unwrap();
    assert_eq!(
        hex::encode(&child.private_key),
        "68e0fe46dfb67e368c75379acec591dad19df3cde26e63b93a8e704f1dade7a3"
    );
    assert_eq!(
        hex::encode(&child.chain_code),
        "8b59aa11380b624e81507a27fedda59fea6d0b779a778918a2fd3590e16e9c69"
    );
}

#[test]
fn master_key_derivation_is_deterministic() {
    let seed = hex::decode("fffcf9f6f3f0edeae7e4e1dedbd8d5d2cfccc9c6c3c0bdbab7b4b1aeaba8a5a2").unwrap();
    let k1 = SolanaExPrivateKey::new_master_key(&seed).unwrap();
    let k2 = SolanaExPrivateKey::new_master_key(&seed).unwrap();
    assert_eq!(k1, k2);
    assert_eq!(k1.serialize(), k2.serialize());
}

#[test]
fn non_hardened_derivation_is_rejected() {
    let seed = hex::decode("000102030405060708090a0b0c0d0e0f").unwrap();
    let master = SolanaExPrivateKey::new_master_key(&seed).unwrap();
    let result = master.derive_private_key(KeyIndex::from_index(0).unwrap());
    assert_eq!(result, Err(Error::UnsupportedKeyIndex));
}

#[test]
fn private_key_deserialize_rejects_wrong_length() {
    assert_eq!(
        SolanaExPrivateKey::deserialize(&[0u8; 63]),
        Err(Error::DeserializationError)
    );
    assert_eq!(
        SolanaExPrivateKey::deserialize(&[0u8; 65]),
        Err(Error::DeserializationError)
    );
}

#[test]
fn public_key_deserialize_rejects_wrong_length() {
    assert_eq!(
        SolanaExPublicKey::deserialize(&[0u8; 31]),
        Err(Error::DeserializationError)
    );
    assert_eq!(
        SolanaExPublicKey::deserialize(&[0u8; 33]),
        Err(Error::DeserializationError)
    );
}

#[test]
fn private_key_round_trip_is_exact() {
    let seed = hex::decode("000102030405060708090a0b0c0d0e0f").unwrap();
    let master = SolanaExPrivateKey::new_master_key(&seed).unwrap();
    let buf = master.serialize();
    assert_eq!(buf.len(), 64);
    let back = SolanaExPrivateKey::deserialize(&buf).unwrap();
    assert_eq!(back.private_key, master.private_key);
    assert_eq!(back.chain_code, master.chain_code);
}
