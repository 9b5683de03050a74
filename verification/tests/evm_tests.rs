use hdwallet_core::evm::{
    derive_private_key, erc20_balance_of_data, erc20_transfer_data, generate_address,
    generate_addresses, EvmError,
};

const PHRASE: &str = "legal winner thank year wave sausage worth useful legal winner thank yellow";

#[test]
fn derive_private_key_is_deterministic() {
    let k1 = derive_private_key(PHRASE, 0).unwrap();
    let k2 = derive_private_key(PHRASE, 0).unwrap();
    assert_eq!(k1.len(), 32);
    assert_eq!(k1, k2);
    // the account index does not enter the digest
    let k3 = derive_private_key(PHRASE, 7).unwrap();
    assert_eq!(k1, k3);
}

#[test]
fn derive_private_key_rejects_invalid_mnemonic() {
    assert_eq!(
        derive_private_key("definitely not a mnemonic", 0),
        Err(EvmError::InvalidMnemonic)
    );
}

#[test]
fn generate_address_is_20_bytes() {
    let address = generate_address(PHRASE, 0).unwrap();
    assert_eq!(address.len(), 20);
    // the address is a digest of the public key, not the key itself
    let key = derive_private_key(PHRASE, 0).unwrap();
    assert_ne!(address.as_slice(), &key[..20]);
}

#[test]
fn generate_addresses_all_agree() {
    let addresses = generate_addresses(PHRASE, 3).unwrap();
    assert_eq!(addresses.len(), 3);
    let first = generate_address(PHRASE, 0).unwrap();
    for address in &addresses {
        assert_eq!(address, &first);
    }
    assert_eq!(generate_addresses(PHRASE, 0).unwrap().len(), 0);
}

#[test]
fn generate_addresses_reports_invalid_mnemonic() {
    assert_eq!(
        generate_addresses("definitely not a mnemonic", 2),
        Err(EvmError::InvalidMnemonic)
    );
}

#[test]
fn balance_of_data_layout() {
    let owner = [0x11u8; 20];
    let data = erc20_balance_of_data(&owner);
    assert_eq!(data.len(), 36);
    assert_eq!(&data[..4], &[0x70, 0xa0, 0x82, 0x31]);
    assert_eq!(&data[4..16], &[0u8; 12]);
    assert_eq!(&data[16..], &owner);
}

#[test]
fn transfer_data_layout() {
    let to = [0x22u8; 20];
    let amount = [0x33u8; 32];
    let data = erc20_transfer_data(&to, &amount);
    assert_eq!(data.len(), 100);
    assert_eq!(&data[..4], &[0xa9, 0x05, 0x9c, 0xbb]);
    assert_eq!(&data[4..16], &[0u8; 12]);
    assert_eq!(&data[16..36], &to);
    assert_eq!(&data[36..68], &[0u8; 32]);
    assert_eq!(&data[68..], &amount);
}
