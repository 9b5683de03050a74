use hdwallet_core::account::{
    Bridge, ChainAdapter, ChainError, ChainId, EthereumAdapter, LayerZeroBridge, Transaction,
    UniversalAccount,
};

#[test]
fn new_account_is_empty() {
    let account = UniversalAccount::new(String::from("user123"));
    assert!(account.get_address(&ChainId(String::from("ethereum"))).is_none());
}

#[test]
fn register_chain_adapter_stores_address() {
    let mut account = UniversalAccount::new(String::from("user123"));
    let adapter = Box::new(EthereumAdapter {
        provider_url: String::from("https://ethereum.rpc.example"),
    });
    account.register_chain_adapter(
        ChainId(String::from("ethereum")),
        adapter,
        String::from("0x123"),
    );
    let stored = account.get_address(&ChainId(String::from("ethereum")));
    assert_eq!(stored, Some(&String::from("0x123")));
    assert!(account.get_address(&ChainId(String::from("polygon"))).is_none());
}

#[test]
fn reregistering_a_chain_keeps_the_second_address() {
    let mut account = UniversalAccount::new(String::from("user123"));
    let first = Box::new(EthereumAdapter {
        provider_url: String::from("https://one.example"),
    });
    let second = Box::new(EthereumAdapter {
        provider_url: String::from("https://two.example"),
    });
    account.register_chain_adapter(
        ChainId(String::from("ethereum")),
        first,
        String::from("0xaaa"),
    );
    account.register_chain_adapter(
        ChainId(String::from("ethereum")),
        second,
        String::from("0xbbb"),
    );
    let stored = account.get_address(&ChainId(String::from("ethereum")));
    assert_eq!(stored, Some(&String::from("0xbbb")));
}

#[test]
fn transfer_without_bridges_fails() {
    let account = UniversalAccount::new(String::from("user123"));
    let result = account.cross_chain_transfer(
        &ChainId(String::from("ethereum")),
        &ChainId(String::from("polygon")),
        1_000_000,
        "0x456",
    );
    match result {
        Err(ChainError::BridgeError(msg)) => assert_eq!(msg, "No bridge available"),
        other => panic!("expected a bridge error, got {:?}", other),
    }
}

#[test]
fn transfer_uses_the_first_bridge() {
    let mut account = UniversalAccount::new(String::from("user123"));
    account.register_bridge(Box::new(LayerZeroBridge {
        endpoint: String::from("https://layerzero.example"),
    }));
    let result = account.cross_chain_transfer(
        &ChainId(String::from("ethereum")),
        &ChainId(String::from("polygon")),
        1_000_000,
        "0x456",
    );
    assert_eq!(result.unwrap(), "bridge_tx_hash");
}

#[test]
fn example_adapter_answers() {
    let adapter = EthereumAdapter {
        provider_url: String::from("https://ethereum.rpc.example"),
    };
    let tx = Transaction {
        from: String::from("0x1"),
        to: String::from("0x2"),
        amount: 5,
        data: vec![1, 2, 3],
    };
    assert_eq!(adapter.send_transaction(tx).unwrap(), "tx_hash");
    assert_eq!(adapter.get_balance("0x1").unwrap(), 100);
    assert_eq!(adapter.get_nonce("0x1").unwrap(), 0);
}

#[test]
fn example_bridge_answers() {
    let bridge = LayerZeroBridge {
        endpoint: String::from("https://layerzero.example"),
    };
    let id = bridge
        .transfer(
            &ChainId(String::from("ethereum")),
            &ChainId(String::from("polygon")),
            7,
            "0x456",
        )
        .unwrap();
    assert_eq!(id, "bridge_tx_hash");
    assert!(bridge.verify_transfer(&id).unwrap());
}
