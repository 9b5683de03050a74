use vstd::prelude::*;

use vstd::pervasive::VecAdditionalExecFns;

verus! {

/// Errors from chain interaction and cross-chain routing.
#[derive(Debug)]
pub enum ChainError {
    /// No adapter is registered for the chain.
    UnsupportedChain(String),
    /// The network rejected a transaction; the payload names the cause.
    TransactionError(String),
    /// No bridge is available, or the bridge itself failed.
    BridgeError(String),
}

/// An opaque chain identifier, e.g. `"ethereum"`.
#[derive(Debug)]
pub struct ChainId(pub String);

impl View for ChainId {
    type V = Seq<char>;

    open spec fn view(&self) -> Seq<char> {
        self.0@
    }
}

impl Clone for ChainId {
    fn clone(&self) -> (r: Self)
        ensures
            r@ == self@,
    {
        ChainId(self.0.clone())
    }
}

/// One logical identity: a universal identifier plus the address it uses
/// on each chain, one address per chain.
#[derive(Debug)]
pub struct Account {
    pub universal_id: String,
    pub chain_specific_addresses: Vec<(ChainId, String)>,
}

/// An immutable transaction value; chain context is supplied by the
/// adapter that executes it.
#[derive(Debug)]
pub struct Transaction {
    pub from: String,
    pub to: String,
    pub amount: u128,
    pub data: Vec<u8>,
}

impl Clone for Transaction {
    fn clone(&self) -> (r: Self)
        ensures
            r.from@ == self.from@,
            r.to@ == self.to@,
            r.amount == self.amount,
            r.data@ == self.data@,
    {
        Transaction {
            from: self.from.clone(),
            to: self.to.clone(),
            amount: self.amount,
            data: vstd::slice::slice_to_vec(self.data.as_slice()),
        }
    }
}

/// The capability every supported ledger offers: submitting transactions
/// and reading balance and nonce.
pub trait ChainAdapter {
    fn send_transaction(&self, tx: Transaction) -> Result<String, ChainError>;

    fn get_balance(&self, address: &str) -> Result<u128, ChainError>;

    fn get_nonce(&self, address: &str) -> Result<u64, ChainError>;
}

/// The capability of moving value between two chains and confirming
/// completion later.
pub trait Bridge {
    fn transfer(
        &self,
        from_chain: &ChainId,
        to_chain: &ChainId,
        amount: u128,
        recipient: &str,
    ) -> Result<String, ChainError>;

    fn verify_transfer(&self, tx_hash: &str) -> Result<bool, ChainError>;
}

/// No two entries share a chain identifier.
pub open spec fn keys_unique<T>(entries: Seq<(ChainId, T)>) -> bool {
    forall|i: int, j: int|
        0 <= i < j < entries.len() ==> (#[trigger] entries[i]).0@ != (#[trigger] entries[j]).0@
}

/// The mapping a list of `(chain id, value)` entries stands for; a later
/// entry for the same identifier wins.
pub open spec fn key_map_of<T>(entries: Seq<(ChainId, T)>) -> Map<Seq<char>, T>
    decreases entries.len(),
{
    if entries.len() == 0 {
        Map::empty()
    } else {
        key_map_of(entries.drop_last()).insert(entries.last().0@, entries.last().1)
    }
}

proof fn lemma_key_map_contains<T>(entries: Seq<(ChainId, T)>, k: Seq<char>)
    ensures
        key_map_of(entries).contains_key(k) <==> exists|i: int|
            0 <= i < entries.len() && (#[trigger] entries[i]).0@ == k,
    decreases entries.len(),
{
    if entries.len() > 0 {
        lemma_key_map_contains(entries.drop_last(), k);
        if entries.last().0@ != k {
            if key_map_of(entries).contains_key(k) {
                let i = choose|i: int|
                    0 <= i < entries.drop_last().len() && (#[trigger] entries.drop_last()[i]).0@
                        == k;
                assert(entries[i].0@ == k);
            }
            if exists|i: int| 0 <= i < entries.len() && (#[trigger] entries[i]).0@ == k {
                let i = choose|i: int| 0 <= i < entries.len() && (#[trigger] entries[i]).0@ == k;
                assert(i < entries.len() - 1);
                assert(entries.drop_last()[i].0@ == k);
            }
        } else {
            assert(entries[entries.len() - 1].0@ == k);
        }
    }
}

proof fn lemma_keys_unique_drop<T>(entries: Seq<(ChainId, T)>)
    requires
        keys_unique(entries),
        entries.len() > 0,
    ensures
        keys_unique(entries.drop_last()),
{
    assert forall|p: int, q: int|
        0 <= p < q < entries.drop_last().len() implies (#[trigger] entries.drop_last()[p]).0@
        != (#[trigger] entries.drop_last()[q]).0@ by {
        assert(entries[p].0@ != entries[q].0@);
    }
}

proof fn lemma_key_map_at<T>(entries: Seq<(ChainId, T)>, i: int)
    requires
        keys_unique(entries),
        0 <= i < entries.len(),
    ensures
        key_map_of(entries).contains_key(entries[i].0@),
        key_map_of(entries)[entries[i].0@] == entries[i].1,
    decreases entries.len(),
{
    if i == entries.len() - 1 {
    } else {
        lemma_keys_unique_drop(entries);
        assert(entries.drop_last()[i] == entries[i]);
        lemma_key_map_at(entries.drop_last(), i);
        assert(entries.last().0@ != entries[i].0@);
    }
}

proof fn lemma_key_map_push<T>(entries: Seq<(ChainId, T)>, c: ChainId, v: T)
    ensures
        key_map_of(entries.push((c, v))) == key_map_of(entries).insert(c@, v),
{
    assert(entries.push((c, v)).drop_last() =~= entries);
}

proof fn lemma_key_map_update<T>(entries: Seq<(ChainId, T)>, i: int, c: ChainId, v: T)
    requires
        keys_unique(entries),
        0 <= i < entries.len(),
        entries[i].0@ == c@,
    ensures
        key_map_of(entries.update(i, (c, v))) == key_map_of(entries).insert(c@, v),
    decreases entries.len(),
{
    let up = entries.update(i, (c, v));
    if i == entries.len() - 1 {
        assert(up.drop_last() =~= entries.drop_last());
        assert(key_map_of(up) == key_map_of(entries.drop_last()).insert(c@, v));
        assert(key_map_of(entries).insert(c@, v) == key_map_of(entries.drop_last()).insert(
            entries.last().0@,
            entries.last().1,
        ).insert(c@, v));
        assert(key_map_of(entries.drop_last()).insert(c@, v) =~= key_map_of(
            entries.drop_last(),
        ).insert(entries.last().0@, entries.last().1).insert(c@, v));
    } else {
        assert(up.drop_last() =~= entries.drop_last().update(i, (c, v)));
        assert(keys_unique(entries.drop_last())) by {
            assert forall|p: int, q: int|
                0 <= p < q < entries.drop_last().len() implies (#[trigger] entries.drop_last()[p]).0@
                != (#[trigger] entries.drop_last()[q]).0@ by {
                assert(entries[p].0@ != entries[q].0@);
            }
        }
        assert(entries.drop_last()[i] == entries[i]);
        lemma_key_map_update(entries.drop_last(), i, c, v);
        let last = entries.last();
        assert(up.last() == last);
        assert(key_map_of(up) == key_map_of(entries.drop_last()).insert(c@, v).insert(
            last.0@,
            last.1,
        ));
        assert(last.0@ != c@);
        assert(key_map_of(entries.drop_last()).insert(c@, v).insert(last.0@, last.1)
            =~= key_map_of(entries.drop_last()).insert(last.0@, last.1).insert(c@, v));
    }
}

/// Storage for the adapter capability objects. The trait objects inside
/// are opaque to verification, so the list itself is held behind trusted
/// wrappers that track only its length; the chain each slot belongs to is
/// kept in `AdapterRegistry`, where it is verified.
#[verifier::external_body]
pub struct AdapterList {
    items: Vec<Box<dyn ChainAdapter>>,
}

/// How many adapters an `AdapterList` holds.
pub uninterp spec fn adapter_list_len(l: AdapterList) -> nat;

/// Relies on std `Vec::new`: a fresh vector is empty.
#[verifier::external_body]
fn adapter_list_new() -> (r: AdapterList)
    ensures
        adapter_list_len(r) == 0,
{
    AdapterList { items: Vec::new() }
}

/// Relies on std `Vec::push`: appending grows the length by one.
#[verifier::external_body]
fn adapter_list_push(l: &mut AdapterList, adapter: Box<dyn ChainAdapter>)
    ensures
        adapter_list_len(*final(l)) == adapter_list_len(*old(l)) + 1,
{
    l.items.push(adapter);
}

/// Relies on std `Vec` index assignment: replacing a slot keeps the length.
#[verifier::external_body]
fn adapter_list_set(l: &mut AdapterList, i: usize, adapter: Box<dyn ChainAdapter>)
    requires
        i < adapter_list_len(*old(l)),
    ensures
        adapter_list_len(*final(l)) == adapter_list_len(*old(l)),
{
    l.items[i] = adapter;
}

/// The set of chain identifiers a key list covers.
pub open spec fn chain_set(keys: Seq<ChainId>) -> Set<Seq<char>> {
    Set::new(|k: Seq<char>| exists|i: int| 0 <= i < keys.len() && (#[trigger] keys[i])@ == k)
}

/// No two keys name the same chain.
pub open spec fn chain_keys_unique(keys: Seq<ChainId>) -> bool {
    forall|i: int, j: int|
        0 <= i < j < keys.len() ==> (#[trigger] keys[i])@ != (#[trigger] keys[j])@
}

/// The chain-adapter registry: one adapter per chain identifier. The
/// identifiers are verified data; the adapters stand in an opaque list
/// whose slot `i` belongs to key `i`.
struct AdapterRegistry {
    keys: Vec<ChainId>,
    list: AdapterList,
}

impl AdapterRegistry {
    spec fn wf(self) -> bool {
        chain_keys_unique(self.keys@) && adapter_list_len(self.list) == self.keys@.len()
    }

    spec fn chains(self) -> Set<Seq<char>> {
        chain_set(self.keys@)
    }

    fn new() -> (r: AdapterRegistry)
        ensures
            r.wf(),
            r.chains() == Set::<Seq<char>>::empty(),
    {
        let r = AdapterRegistry { keys: Vec::new(), list: adapter_list_new() };
        proof {
            assert(r.chains() =~= Set::<Seq<char>>::empty());
        }
        r
    }

    /// Stores the adapter for a chain, replacing any adapter the chain
    /// already had.
    fn set(&mut self, chain_id: ChainId, adapter: Box<dyn ChainAdapter>)
        requires
            old(self).wf(),
        ensures
            final(self).wf(),
            final(self).chains() == old(self).chains().insert(chain_id@),
    {
        let n = self.keys.len();
        let mut i: usize = 0;
        while i < n
            invariant
                0 <= i <= n == self.keys@.len(),
                self == old(self),
                old(self).wf(),
                forall|p: int| 0 <= p < i ==> (#[trigger] self.keys@[p])@ != chain_id@,
            decreases n - i,
        {
            if self.keys[i].0 == chain_id.0 {
                adapter_list_set(&mut self.list, i, adapter);
                self.keys.set(i, chain_id);
                proof {
                    assert(chain_keys_unique(self.keys@)) by {
                        assert forall|p: int, q: int|
                            0 <= p < q < self.keys@.len() implies (#[trigger] self.keys@[p])@
                            != (#[trigger] self.keys@[q])@ by {
                            assert(old(self).keys@[p]@ != old(self).keys@[q]@);
                        }
                    }
                    assert forall|k: Seq<char>|
                        self.chains().contains(k) <==> old(self).chains().insert(
                            chain_id@,
                        ).contains(k) by {
                        if self.chains().contains(k) {
                            let p = choose|p: int|
                                0 <= p < self.keys@.len() && (#[trigger] self.keys@[p])@ == k;
                            if p != i {
                                assert(old(self).keys@[p]@ == k);
                            }
                        }
                        if old(self).chains().insert(chain_id@).contains(k) {
                            if k == chain_id@ {
                                assert(self.keys@[i as int]@ == k);
                            } else {
                                let p = choose|p: int|
                                    0 <= p < old(self).keys@.len() && (#[trigger] old(
                                        self,
                                    ).keys@[p])@ == k;
                                assert(self.keys@[p]@ == k);
                            }
                        }
                    }
                    assert(self.chains() =~= old(self).chains().insert(chain_id@));
                }
                return ;
            }
            i += 1;
        }
        adapter_list_push(&mut self.list, adapter);
        self.keys.push(chain_id);
        proof {
            assert(chain_keys_unique(self.keys@)) by {
                assert forall|p: int, q: int|
                    0 <= p < q < self.keys@.len() implies (#[trigger] self.keys@[p])@
                    != (#[trigger] self.keys@[q])@ by {
                    if q < self.keys@.len() - 1 {
                        assert(old(self).keys@[p]@ != old(self).keys@[q]@);
                    }
                }
            }
            let nn = self.keys@.len() - 1;
            assert forall|k: Seq<char>|
                self.chains().contains(k) <==> old(self).chains().insert(chain_id@).contains(
                    k,
                ) by {
                if self.chains().contains(k) {
                    let p = choose|p: int|
                        0 <= p < self.keys@.len() && (#[trigger] self.keys@[p])@ == k;
                    if p != nn {
                        assert(old(self).keys@[p]@ == k);
                    }
                }
                if old(self).chains().insert(chain_id@).contains(k) {
                    if k == chain_id@ {
                        assert(self.keys@[nn]@ == k);
                    } else {
                        let p = choose|p: int|
                            0 <= p < old(self).keys@.len() && (#[trigger] old(self).keys@[p])@
                                == k;
                        assert(self.keys@[p]@ == k);
                    }
                }
            }
            assert(self.chains() =~= old(self).chains().insert(chain_id@));
        }
    }
}

/// Storage for the bridge capability objects, opaque to verification like
/// `AdapterList`; only its length is tracked.
#[verifier::external_body]
pub struct BridgeList {
    items: Vec<Box<dyn Bridge>>,
}

/// How many bridges a `BridgeList` holds.
pub uninterp spec fn bridge_list_len(l: BridgeList) -> nat;

/// Relies on std `Vec::new`: a fresh vector is empty.
#[verifier::external_body]
fn bridge_list_new() -> (r: BridgeList)
    ensures
        bridge_list_len(r) == 0,
{
    BridgeList { items: Vec::new() }
}

/// Relies on std `Vec::push`: appending grows the length by one.
#[verifier::external_body]
fn bridge_list_push(l: &mut BridgeList, bridge: Box<dyn Bridge>)
    ensures
        bridge_list_len(*final(l)) == bridge_list_len(*old(l)) + 1,
{
    l.items.push(bridge);
}

/// Relies on std `slice::first`: it yields an element exactly when the
/// vector is non-empty, and then the one at the front.
#[verifier::external_body]
fn bridge_list_first(l: &BridgeList) -> (r: Option<&Box<dyn Bridge>>)
    ensures
        r is Some <==> bridge_list_len(*l) > 0,
{
    l.items.first()
}

/// One logical identity's view over many chains: its addresses, one chain
/// adapter per chain, and an ordered list of bridges.
pub struct UniversalAccount {
    account: Account,
    chain_adapters: AdapterRegistry,
    bridges: BridgeList,
}

impl UniversalAccount {
    pub closed spec fn universal_id(self) -> Seq<char> {
        self.account.universal_id@
    }

    /// The registered address of each chain.
    pub closed spec fn addresses(self) -> Map<Seq<char>, String> {
        key_map_of(self.account.chain_specific_addresses@)
    }

    /// The chains an adapter is registered for.
    pub closed spec fn adapter_chains(self) -> Set<Seq<char>> {
        self.chain_adapters.chains()
    }

    pub closed spec fn bridge_count(self) -> nat {
        bridge_list_len(self.bridges)
    }

    /// Both registries keep one entry per chain identifier.
    pub closed spec fn wf(self) -> bool {
        keys_unique(self.account.chain_specific_addresses@) && self.chain_adapters.wf()
    }

    pub fn new(universal_id: String) -> (r: UniversalAccount)
        ensures
            r.wf(),
            r.universal_id() == universal_id@,
            r.addresses() == Map::<Seq<char>, String>::empty(),
            r.adapter_chains() == Set::<Seq<char>>::empty(),
            r.bridge_count() == 0,
    {
        let r = UniversalAccount {
            account: Account { universal_id, chain_specific_addresses: Vec::new() },
            chain_adapters: AdapterRegistry::new(),
            bridges: bridge_list_new(),
        };
        r
    }

    /// Registers the adapter and address to use for a chain; a second
    /// registration for the same chain replaces the first.
    pub fn register_chain_adapter(
        &mut self,
        chain_id: ChainId,
        adapter: Box<dyn ChainAdapter>,
        address: String,
    )
        requires
            old(self).wf(),
        ensures
            final(self).wf(),
            final(self).universal_id() == old(self).universal_id(),
            final(self).addresses() == old(self).addresses().insert(chain_id@, address),
            final(self).adapter_chains() == old(self).adapter_chains().insert(chain_id@),
            final(self).bridge_count() == old(self).bridge_count(),
    {
        let id_for_adapter = chain_id.clone();
        set_entry(&mut self.account.chain_specific_addresses, chain_id, address);
        self.chain_adapters.set(id_for_adapter, adapter);
    }

    /// Appends a bridge to the ordered bridge list.
    pub fn register_bridge(&mut self, bridge: Box<dyn Bridge>)
        requires
            old(self).wf(),
        ensures
            final(self).wf(),
            final(self).universal_id() == old(self).universal_id(),
            final(self).addresses() == old(self).addresses(),
            final(self).adapter_chains() == old(self).adapter_chains(),
            final(self).bridge_count() == old(self).bridge_count() + 1,
    {
        bridge_list_push(&mut self.bridges, bridge);
    }

    /// The address registered for a chain, if any.
    pub fn get_address(&self, chain_id: &ChainId) -> (r: Option<&String>)
        requires
            self.wf(),
        ensures
            match r {
                Some(a) => self.addresses().contains_key(chain_id@) && a@ == self.addresses()[
                    chain_id@
                ]@,
                None => !self.addresses().contains_key(chain_id@),
            },
    {
        let entries = &self.account.chain_specific_addresses;
        let n = entries.len();
        let mut i: usize = 0;
        proof {
            lemma_key_map_contains(entries@, chain_id@);
        }
        while i < n
            invariant
                0 <= i <= n == entries@.len(),
                keys_unique(entries@),
                self.addresses() == key_map_of(entries@),
                forall|p: int| 0 <= p < i ==> (#[trigger] entries@[p]).0@ != chain_id@,
                key_map_of(entries@).contains_key(chain_id@) <==> exists|p: int|
                    0 <= p < entries@.len() && (#[trigger] entries@[p]).0@ == chain_id@,
            decreases n - i,
        {
            if entries[i].0.0 == chain_id.0 {
                proof {
                    lemma_key_map_at(entries@, i as int);
                }
                return Some(&entries[i].1);
            }
            i += 1;
        }
        None
    }

    /// Routes a transfer through the first registered bridge; with no
    /// bridge registered it fails with `BridgeError("No bridge
    /// available")`, and otherwise hands back the bridge's own result or
    /// error unchanged. No account state is touched.
    pub fn cross_chain_transfer(
        &self,
        from_chain: &ChainId,
        to_chain: &ChainId,
        amount: u128,
        recipient: &str,
    ) -> (r: Result<String, ChainError>)
        ensures
            self.bridge_count() == 0 ==> (r matches Err(ChainError::BridgeError(msg)) && msg@
                == "No bridge available"@),
    {
        match bridge_list_first(&self.bridges) {
            None => {
                let msg: String = "No bridge available".to_owned();
                Err(ChainError::BridgeError(msg))
            },
            Some(bridge) => bridge.transfer(from_chain, to_chain, amount, recipient),
        }
    }
}

/// Replaces the value stored under `chain_id`, or appends a new entry when
/// the chain is not present yet.
fn set_entry<T>(entries: &mut Vec<(ChainId, T)>, chain_id: ChainId, value: T)
    requires
        keys_unique(old(entries)@),
    ensures
        keys_unique(final(entries)@),
        key_map_of(final(entries)@) == key_map_of(old(entries)@).insert(chain_id@, value),
{
    let n = entries.len();
    let mut i: usize = 0;
    while i < n
        invariant
            0 <= i <= n == entries.len(),
            entries@ == old(entries)@,
            keys_unique(entries@),
            forall|p: int| 0 <= p < i ==> (#[trigger] entries@[p]).0@ != chain_id@,
        decreases n - i,
    {
        if entries[i].0.0 == chain_id.0 {
            proof {
                lemma_key_map_update(entries@, i as int, chain_id, value);
            }
            entries.set(i, (chain_id, value));
            proof {
                assert forall|p: int, q: int|
                    0 <= p < q < entries@.len() implies (#[trigger] entries@[p]).0@
                    != (#[trigger] entries@[q]).0@ by {
                    assert(old(entries)@[p].0@ != old(entries)@[q].0@);
                }
            }
            return ;
        }
        i += 1;
    }
    proof {
        lemma_key_map_push(entries@, chain_id, value);
        let pushed = entries@.push((chain_id, value));
        assert forall|p: int, q: int|
            0 <= p < q < pushed.len() implies (#[trigger] pushed[p]).0@ != (#[trigger] pushed[q]).0@
            by {
            if q < pushed.len() - 1 {
                assert(old(entries)@[p].0@ != old(entries)@[q].0@);
            } else {
                assert(pushed[p].0@ != chain_id@);
            }
        }
    }
    entries.push((chain_id, value));
}

/// Registering a chain twice keeps only the second value: a later insert
/// for the same chain identifier overrides the earlier one completely, so
/// after two registrations of one chain only the second address is
/// present.
pub proof fn lemma_reregister_replaces<T>(m: Map<Seq<char>, T>, id: Seq<char>, v1: T, v2: T)
    ensures
        m.insert(id, v1).insert(id, v2) == m.insert(id, v2),
        m.insert(id, v1).insert(id, v2)[id] == v2,
{
    assert(m.insert(id, v1).insert(id, v2) =~= m.insert(id, v2));
}

/// A sample adapter for an Ethereum-style chain, standing in for a real
/// network-backed implementation.
pub struct EthereumAdapter {
    pub provider_url: String,
}

impl ChainAdapter for EthereumAdapter {
    fn send_transaction(&self, tx: Transaction) -> (r: Result<String, ChainError>)
        ensures
            r matches Ok(s) && s@ == "tx_hash"@,
    {
        Ok("tx_hash".to_owned())
    }

    fn get_balance(&self, address: &str) -> (r: Result<u128, ChainError>)
        ensures
            r == Ok::<u128, ChainError>(100u128),
    {
        Ok(100)
    }

    fn get_nonce(&self, address: &str) -> (r: Result<u64, ChainError>)
        ensures
            r == Ok::<u64, ChainError>(0u64),
    {
        Ok(0)
    }
}

/// A sample bridge, standing in for a real cross-chain protocol.
pub struct LayerZeroBridge {
    pub endpoint: String,
}

impl Bridge for LayerZeroBridge {
    fn transfer(
        &self,
        from_chain: &ChainId,
        to_chain: &ChainId,
        amount: u128,
        recipient: &str,
    ) -> (r: Result<String, ChainError>)
        ensures
            r matches Ok(s) && s@ == "bridge_tx_hash"@,
    {
        Ok("bridge_tx_hash".to_owned())
    }

    fn verify_transfer(&self, tx_hash: &str) -> (r: Result<bool, ChainError>)
        ensures
            r == Ok::<bool, ChainError>(true),
    {
        Ok(true)
    }
}

} // verus!
