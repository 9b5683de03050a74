use hdwallet_core::chain_path::{ChainPath, Error, SubPath};
use hdwallet_core::key_index::KeyIndex;

#[test]
fn test_chain_path_new() {
    // new from a string slice turned into a String
    assert_eq!("m/1", ChainPath::new(String::from("m/1")).to_string());
    // new from a runtime String
    assert_eq!("m/1", ChainPath::new(String::from("m/1")).to_string());
}

#[test]
fn parse_master_and_zero() {
    let path = ChainPath::new(String::from("m/0"));
    let mut it = path.iter();
    assert_eq!(it.next(), Some(Ok(SubPath::Root)));
    assert_eq!(it.next(), Some(Ok(SubPath::Child(KeyIndex::Normal(0)))));
    assert_eq!(it.next(), None);
}

#[test]
fn parse_bip44_style_path() {
    let path = ChainPath::new(String::from("m/44'/60'/0'/0/0"));
    let mut it = path.iter();
    assert_eq!(it.next(), Some(Ok(SubPath::Root)));
    assert_eq!(
        it.next(),
        Some(Ok(SubPath::Child(KeyIndex::Hardened(44 + 0x8000_0000))))
    );
    assert_eq!(
        it.next(),
        Some(Ok(SubPath::Child(KeyIndex::Hardened(60 + 0x8000_0000))))
    );
    assert_eq!(
        it.next(),
        Some(Ok(SubPath::Child(KeyIndex::Hardened(0x8000_0000))))
    );
    assert_eq!(it.next(), Some(Ok(SubPath::Child(KeyIndex::Normal(0)))));
    assert_eq!(it.next(), Some(Ok(SubPath::Child(KeyIndex::Normal(0)))));
    assert_eq!(it.next(), None);
}

#[test]
fn parse_blank_segment() {
    let path = ChainPath::new(String::from("m//1"));
    let mut it = path.iter();
    assert_eq!(it.next(), Some(Ok(SubPath::Root)));
    assert_eq!(it.next(), Some(Err(Error::Blank)));
    assert_eq!(it.next(), Some(Ok(SubPath::Child(KeyIndex::Normal(1)))));
    assert_eq!(it.next(), None);
}

#[test]
fn parse_invalid_segment() {
    let path = ChainPath::new(String::from("m/abc"));
    let mut it = path.iter();
    assert_eq!(it.next(), Some(Ok(SubPath::Root)));
    assert_eq!(it.next(), Some(Err(Error::Invalid)));
    assert_eq!(it.next(), None);
}

#[test]
fn parse_h_marker() {
    let path = ChainPath::new(String::from("m/5H"));
    let mut it = path.iter();
    assert_eq!(it.next(), Some(Ok(SubPath::Root)));
    assert_eq!(
        it.next(),
        Some(Ok(SubPath::Child(KeyIndex::Hardened(5 + 0x8000_0000))))
    );
    assert_eq!(it.next(), None);
}

#[test]
fn parse_out_of_range_index() {
    let path = ChainPath::new(String::from("m/2147483648"));
    let mut it = path.iter();
    assert_eq!(it.next(), Some(Ok(SubPath::Root)));
    assert_eq!(it.next(), Some(Err(Error::KeyIndexOutOfRange)));
}

#[test]
fn parse_out_of_range_hardened_index() {
    let path = ChainPath::new(String::from("m/2147483648'"));
    let mut it = path.iter();
    assert_eq!(it.next(), Some(Ok(SubPath::Root)));
    assert_eq!(it.next(), Some(Err(Error::KeyIndexOutOfRange)));
}

#[test]
fn parse_overflowing_index_is_invalid() {
    // 2^32 does not fit a u32 at all, so the segment is not a number.
    let path = ChainPath::new(String::from("m/4294967296"));
    let mut it = path.iter();
    assert_eq!(it.next(), Some(Ok(SubPath::Root)));
    assert_eq!(it.next(), Some(Err(Error::Invalid)));
}

#[test]
fn parse_empty_path_yields_nothing() {
    let path = ChainPath::new(String::new());
    let mut it = path.iter();
    assert_eq!(it.next(), None);
}

#[test]
fn parse_trailing_separator_is_dropped() {
    let path = ChainPath::new(String::from("m/1/"));
    let mut it = path.iter();
    assert_eq!(it.next(), Some(Ok(SubPath::Root)));
    assert_eq!(it.next(), Some(Ok(SubPath::Child(KeyIndex::Normal(1)))));
    assert_eq!(it.next(), None);
}

#[test]
fn format_round_trip() {
    let text = "m/44'/60'/0'/0/0";
    let path = ChainPath::new(String::from(text));
    assert_eq!(text, path.to_string());
    assert_eq!(String::from(text), path.into_string());
}

#[test]
fn chain_path_from_string_and_eq() {
    let a = ChainPath::from(String::from("m/7"));
    let b = ChainPath::new(String::from("m/7"));
    assert_eq!(a, b);
    assert_eq!(a.clone(), b);
}
