use hdwallet_core::error::Error;
use hdwallet_core::key_index::KeyIndex;

#[test]
fn from_index_accepts_all_normal_values() {
    assert_eq!(KeyIndex::from_index(0), Ok(KeyIndex::Normal(0)));
    assert_eq!(
        KeyIndex::from_index(0x7FFF_FFFF),
        Ok(KeyIndex::Normal(0x7FFF_FFFF))
    );
    let k = KeyIndex::from_index(42).unwrap();
    assert!(!k.is_hardened());
    assert!(k.is_valid());
    assert_eq!(k.raw_index(), 42);
    assert_eq!(k.normalize_index(), 42);
}

#[test]
fn from_index_rejects_hardened_range() {
    assert_eq!(
        KeyIndex::from_index(0x8000_0000),
        Err(Error::KeyIndexOutOfRange)
    );
    assert_eq!(
        KeyIndex::from_index(u32::MAX),
        Err(Error::KeyIndexOutOfRange)
    );
}

#[test]
fn hardened_from_normalize_index_offsets_the_value() {
    let k = KeyIndex::hardened_from_normalize_index(0).unwrap();
    assert_eq!(k, KeyIndex::Hardened(0x8000_0000));
    assert!(k.is_hardened());
    assert!(k.is_valid());
    assert_eq!(k.normalize_index(), 0);
    let k = KeyIndex::hardened_from_normalize_index(44).unwrap();
    assert_eq!(k, KeyIndex::Hardened(44 + 0x8000_0000));
    assert_eq!(k.normalize_index(), 44);
    assert_eq!(k.raw_index(), 44 + 0x8000_0000);
}

#[test]
fn hardened_from_normalize_index_rejects_high_values() {
    assert_eq!(
        KeyIndex::hardened_from_normalize_index(0x8000_0000),
        Err(Error::KeyIndexOutOfRange)
    );
    assert_eq!(
        KeyIndex::hardened_from_normalize_index(u32::MAX),
        Err(Error::KeyIndexOutOfRange)
    );
}
