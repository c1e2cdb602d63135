use crate::bytemap::ByteMap;
use vstd::prelude::*;

verus! {

/// The host chain's persistent trie as this layer sees it: the in-memory
/// overlay of key-value writes accumulated during one call. Merkleization
/// and the durable layer beneath belong to the host chain; a key this
/// overlay does not hold reads as absent.
pub struct TrieUpdate {
    map: ByteMap,
}

impl View for TrieUpdate {
    type V = Map<Seq<u8>, Seq<u8>>;

    closed spec fn view(&self) -> Map<Seq<u8>, Seq<u8>> {
        self.map@
    }
}

impl TrieUpdate {
    pub fn new() -> (r: TrieUpdate)
        ensures
            r@ == Map::<Seq<u8>, Seq<u8>>::empty(),
    {
        TrieUpdate { map: ByteMap::new() }
    }

    /// Reads a key; `None` when the overlay holds nothing under it.
    pub fn get(&self, key: &Vec<u8>) -> (r: Option<Vec<u8>>)
        ensures
            match r {
                Some(v) => self@.contains_key(key@) && v@ == self@[key@],
                None => !self@.contains_key(key@),
            },
    {
        self.map.get(key)
    }

    /// Writes a key, overwriting any prior value.
    pub fn set(&mut self, key: Vec<u8>, value: Vec<u8>)
        ensures
            final(self)@ == old(self)@.insert(key@, value@),
    {
        self.map.insert(key, value);
    }

    /// Drops every key that starts with `prefix`.
    pub fn remove_prefixed(&mut self, prefix: &Vec<u8>)
        ensures
            final(self)@ == old(self)@.remove_keys(
                Set::new(|k: Seq<u8>| crate::bytemap::key_prefixed(k, prefix@)),
            ),
    {
        self.map.remove_prefixed(prefix);
    }
}

/// The column tag under which one account's contract data lives.
pub const CONTRACT_DATA_COLUMN: u8 = 9;

/// The byte separating the account id from the data key.
pub const ACCOUNT_DATA_SEPARATOR: u8 = 44;

/// The raw trie key of one piece of contract data: the column tag, the
/// owning host account id, a separator, then the data key. Every piece of
/// EVM state is namespaced this way, so two host accounts' EVM sub-ledgers
/// never share a key.
pub open spec fn spec_contract_data_key(account_id: Seq<u8>, key: Seq<u8>) -> Seq<u8> {
    seq![CONTRACT_DATA_COLUMN] + account_id + seq![ACCOUNT_DATA_SEPARATOR] + key
}

pub fn contract_data_key(account_id: &Vec<u8>, key: &Vec<u8>) -> (r: Vec<u8>)
    ensures
        r@ == spec_contract_data_key(account_id@, key@),
{
    let mut r: Vec<u8> = Vec::new();
    r.push(CONTRACT_DATA_COLUMN);
    r.extend_from_slice(account_id.as_slice());
    r.push(ACCOUNT_DATA_SEPARATOR);
    r.extend_from_slice(key.as_slice());
    proof {
        assert(r@ =~= spec_contract_data_key(account_id@, key@));
    }
    r
}

/// Contract-data keys of two different account ids never coincide, as
/// long as neither id contains the separator byte — which the host
/// chain's account-id alphabet rules out.
pub proof fn lemma_contract_data_key_ids_distinct(id1: Seq<u8>, k1: Seq<u8>, id2: Seq<u8>, k2: Seq<u8>)
    requires
        id1 != id2,
        forall|i: int| 0 <= i < id1.len() ==> id1[i] != ACCOUNT_DATA_SEPARATOR,
        forall|i: int| 0 <= i < id2.len() ==> id2[i] != ACCOUNT_DATA_SEPARATOR,
    ensures
        spec_contract_data_key(id1, k1) != spec_contract_data_key(id2, k2),
{
    let c1 = spec_contract_data_key(id1, k1);
    let c2 = spec_contract_data_key(id2, k2);
    if c1 == c2 {
        if id1.len() == id2.len() {
            assert forall|i: int| 0 <= i < id1.len() implies id1[i] == id2[i] by {
                assert(c1[1 + i] == id1[i]);
                assert(c2[1 + i] == id2[i]);
            }
            assert(id1 =~= id2);
        } else if id1.len() < id2.len() {
            assert(c1[1 + id1.len() as int] == ACCOUNT_DATA_SEPARATOR);
            assert(c2[1 + id1.len() as int] == id2[id1.len() as int]);
        } else {
            assert(c2[1 + id2.len() as int] == ACCOUNT_DATA_SEPARATOR);
            assert(c1[1 + id2.len() as int] == id1[id2.len() as int]);
        }
    }
}

/// Two contract-data keys of one account agree only on one data key, as
/// long as the data keys have the same length.
pub proof fn lemma_contract_data_key_injective(account_id: Seq<u8>, k1: Seq<u8>, k2: Seq<u8>)
    requires
        k1.len() == k2.len(),
        spec_contract_data_key(account_id, k1) == spec_contract_data_key(account_id, k2),
    ensures
        k1 == k2,
{
    let prefix_len = account_id.len() + 2;
    let c1 = spec_contract_data_key(account_id, k1);
    let c2 = spec_contract_data_key(account_id, k2);
    assert forall|i: int| 0 <= i < k1.len() implies k1[i] == k2[i] by {
        assert(c1[prefix_len + i] == k1[i]);
        assert(c2[prefix_len + i] == k2[i]);
    }
    assert(k1 =~= k2);
}

} // verus!
