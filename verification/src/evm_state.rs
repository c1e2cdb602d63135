use crate::bytemap::{clone_bytes, key_prefixed, ByteMap};
use crate::errors::EvmError;
use crate::types::Address;
use crate::u256::{u256_bound, u256_of, U256};
use vstd::prelude::*;

verus! {

/// One EVM-visible account record: balance and nonce. Code and storage are
/// kept under the address itself, so the record stays small and
/// independently serializable.
#[derive(Clone, Copy, Debug, PartialEq, Eq, Structural)]
pub struct EvmAccount {
    pub balance: U256,
    pub nonce: U256,
}

impl EvmAccount {
    /// The lazy default: an address with no stored record reads as all-zero.
    pub open spec fn spec_default() -> EvmAccount {
        EvmAccount { balance: U256::spec_zero(), nonce: U256::spec_zero() }
    }
}

impl Default for EvmAccount {
    fn default() -> (r: EvmAccount)
        ensures
            r == EvmAccount::spec_default(),
    {
        EvmAccount { balance: U256::zero(), nonce: U256::zero() }
    }
}

/// The canonical 64-byte serialization of a record: balance then nonce,
/// each as 32 little-endian bytes.
pub open spec fn spec_encode_account(a: EvmAccount) -> Seq<u8> {
    a.balance.spec_le_bytes() + a.nonce.spec_le_bytes()
}

/// Reads a stored record back; anything but a well-formed 64-byte buffer
/// is rejected.
pub open spec fn spec_decode_account(s: Seq<u8>) -> Option<EvmAccount> {
    if s.len() == 64 {
        Some(
            EvmAccount {
                balance: U256::spec_from_le_bytes(s.subrange(0, 32)),
                nonce: U256::spec_from_le_bytes(s.subrange(32, 64)),
            },
        )
    } else {
        None
    }
}

/// A record serialized and read back is returned in every field.
pub proof fn lemma_account_codec_round_trip(a: EvmAccount)
    ensures
        spec_encode_account(a).len() == 64,
        spec_decode_account(spec_encode_account(a)) == Some(a),
{
    crate::u256::lemma_le_bytes_round_trip(a.balance);
    crate::u256::lemma_le_bytes_round_trip(a.nonce);
    let s = spec_encode_account(a);
    assert(s.subrange(0, 32) =~= a.balance.spec_le_bytes());
    assert(s.subrange(32, 64) =~= a.nonce.spec_le_bytes());
}

pub fn encode_account(a: &EvmAccount) -> (r: Vec<u8>)
    ensures
        r@ == spec_encode_account(*a),
        r@.len() == 64,
{
    let mut r = a.balance.to_le_bytes();
    let mut nonce_bytes = a.nonce.to_le_bytes();
    r.append(&mut nonce_bytes);
    r
}

pub fn decode_account(s: &[u8]) -> (r: Option<EvmAccount>)
    ensures
        r == spec_decode_account(s@),
{
    if s.len() == 64 {
        let balance_part = vstd::slice::slice_subrange(s, 0, 32);
        let nonce_part = vstd::slice::slice_subrange(s, 32, 64);
        let balance = U256::from_le_bytes(balance_part);
        let nonce = U256::from_le_bytes(nonce_part);
        proof {
            assert(balance_part@ =~= s@.subrange(0, 32));
            assert(nonce_part@ =~= s@.subrange(32, 64));
        }
        Some(EvmAccount { balance, nonce })
    } else {
        None
    }
}

/// The views of a record list's keys and records.
pub open spec fn account_entry_views(s: Seq<(Vec<u8>, EvmAccount)>) -> Seq<(Seq<u8>, EvmAccount)> {
    s.map_values(|p: (Vec<u8>, EvmAccount)| (p.0@, p.1))
}

/// The map described by a record entry sequence; a later entry for an
/// address shadows an earlier one.
pub open spec fn account_assoc_view(s: Seq<(Seq<u8>, EvmAccount)>) -> Map<Seq<u8>, EvmAccount>
    decreases s.len(),
{
    if s.len() == 0 {
        Map::empty()
    } else {
        account_assoc_view(s.drop_last()).insert(s.last().0, s.last().1)
    }
}

/// When no entry at or after position `i` carries key `k`, the entries
/// before `i` already decide what the whole list says about `k`.
pub proof fn lemma_account_assoc_view_skip(s: Seq<(Seq<u8>, EvmAccount)>, i: int, k: Seq<u8>)
    requires
        0 <= i <= s.len(),
        forall|j: int| i <= j < s.len() ==> (#[trigger] s[j]).0 != k,
    ensures
        account_assoc_view(s).contains_key(k) == account_assoc_view(s.take(i)).contains_key(k),
        account_assoc_view(s).contains_key(k) ==> account_assoc_view(s)[k] == account_assoc_view(
            s.take(i),
        )[k],
    decreases s.len() - i,
{
    if i < s.len() {
        let shorter = s.drop_last();
        assert(s.last() == s[s.len() - 1]);
        lemma_account_assoc_view_skip(shorter, i, k);
        assert(shorter.take(i) =~= s.take(i));
    } else {
        assert(s.take(i) =~= s);
    }
}

/// An in-memory map from addresses to account records, kept as a list of
/// entries in insertion order; the newest entry for an address wins.
pub struct AccountMap {
    entries: Vec<(Vec<u8>, EvmAccount)>,
}

impl View for AccountMap {
    type V = Map<Seq<u8>, EvmAccount>;

    closed spec fn view(&self) -> Map<Seq<u8>, EvmAccount> {
        account_assoc_view(self.entry_seq())
    }
}

impl AccountMap {
    /// The entries as (key, record) pairs, oldest first.
    pub closed spec fn entry_seq(&self) -> Seq<(Seq<u8>, EvmAccount)> {
        account_entry_views(self.entries@)
    }

    /// What the map says is exactly what its entry list says.
    pub proof fn lemma_view_is_assoc(&self)
        ensures
            self@ == account_assoc_view(self.entry_seq()),
    {
    }

    pub fn new() -> (r: AccountMap)
        ensures
            r@ == Map::<Seq<u8>, EvmAccount>::empty(),
            r.entry_seq() == Seq::<(Seq<u8>, EvmAccount)>::empty(),
    {
        let r = AccountMap { entries: Vec::new() };
        proof {
            assert(r.entry_seq() =~= Seq::<(Seq<u8>, EvmAccount)>::empty());
        }
        r
    }

    pub fn entry_count(&self) -> (r: usize)
        ensures
            r == self.entry_seq().len(),
    {
        self.entries.len()
    }

    /// The key of the entry at position `i`, copied out.
    pub fn key_at(&self, i: usize) -> (r: Vec<u8>)
        requires
            i < self.entry_seq().len(),
        ensures
            r@ == self.entry_seq()[i as int].0,
    {
        clone_bytes(&self.entries[i].0)
    }

    /// The record of the entry at position `i`.
    pub fn value_at(&self, i: usize) -> (r: EvmAccount)
        requires
            i < self.entry_seq().len(),
        ensures
            r == self.entry_seq()[i as int].1,
    {
        self.entries[i].1
    }

    /// Looks an address up, newest entry first.
    pub fn get(&self, key: &Vec<u8>) -> (r: Option<EvmAccount>)
        ensures
            match r {
                Some(a) => self@.contains_key(key@) && a == self@[key@],
                None => !self@.contains_key(key@),
            },
    {
        let ghost s = self.entry_seq();
        let mut i: usize = self.entries.len();
        while i > 0
            invariant
                s == self.entry_seq(),
                i <= s.len(),
                s.len() == self.entries@.len(),
                forall|j: int| i <= j < s.len() ==> (#[trigger] s[j]).0 != key@,
            decreases i,
        {
            i = i - 1;
            if crate::bytemap::bytes_eq(&self.entries[i].0, key) {
                proof {
                    lemma_account_assoc_view_skip(s, i + 1, key@);
                    assert(s.take(i + 1).last() == s[i as int]);
                    assert(s.take(i + 1).drop_last() =~= s.take(i as int));
                }
                return Some(self.entries[i].1);
            }
        }
        proof {
            lemma_account_assoc_view_skip(s, 0, key@);
            assert(s.take(0) =~= Seq::<(Seq<u8>, EvmAccount)>::empty());
        }
        None
    }

    /// Binds an address to a record, shadowing any earlier binding.
    pub fn insert(&mut self, key: Vec<u8>, value: EvmAccount)
        ensures
            final(self)@ == old(self)@.insert(key@, value),
            final(self).entry_seq() == old(self).entry_seq().push((key@, value)),
    {
        let ghost old_seq = self.entry_seq();
        proof {
            let pushed = self.entries@.push((key, value));
            assert(account_entry_views(pushed) =~= old_seq.push((key@, value)));
        }
        self.entries.push((key, value));
        proof {
            assert(self.entry_seq() =~= old_seq.push((key@, value)));
            assert(self.entry_seq().drop_last() =~= old_seq);
        }
    }

    /// Drops every binding of `key`.
    pub fn remove(&mut self, key: &Vec<u8>)
        ensures
            final(self)@ == old(self)@.remove(key@),
    {
        let ghost s = self.entry_seq();
        let mut kept: Vec<(Vec<u8>, EvmAccount)> = Vec::new();
        let mut i: usize = 0;
        while i < self.entries.len()
            invariant
                s == self.entry_seq(),
                s.len() == self.entries@.len(),
                i <= s.len(),
                account_assoc_view(account_entry_views(kept@)) =~= account_assoc_view(
                    s.take(i as int),
                ).remove(key@),
            decreases s.len() - i,
        {
            let ghost kept_before = account_entry_views(kept@);
            if !crate::bytemap::bytes_eq(&self.entries[i].0, key) {
                let k = clone_bytes(&self.entries[i].0);
                let v = self.entries[i].1;
                proof {
                    let pushed = kept@.push((k, v));
                    assert(account_entry_views(pushed) =~= kept_before.push(
                        (s[i as int].0, s[i as int].1),
                    ));
                }
                kept.push((k, v));
                proof {
                    assert(account_entry_views(kept@).drop_last() =~= kept_before);
                    assert(s.take(i + 1).drop_last() =~= s.take(i as int));
                    assert(s.take(i + 1).last() == s[i as int]);
                    assert(account_assoc_view(account_entry_views(kept@)) =~= account_assoc_view(
                        s.take(i + 1),
                    ).remove(key@));
                }
            } else {
                proof {
                    assert(s.take(i + 1).drop_last() =~= s.take(i as int));
                    assert(s.take(i + 1).last() == s[i as int]);
                    assert(account_assoc_view(account_entry_views(kept@)) =~= account_assoc_view(
                        s.take(i + 1),
                    ).remove(key@));
                }
            }
            i = i + 1;
        }
        proof {
            assert(s.take(s.len() as int) =~= s);
        }
        self.entries = kept;
    }
}

/// The mathematical content of one EVM sub-ledger: which addresses hold a
/// stored record, which hold deployed code, and which composite
/// (address ++ slot) keys hold a storage word.
pub struct StateModel {
    pub accounts: Map<Seq<u8>, EvmAccount>,
    pub code: Map<Seq<u8>, Seq<u8>>,
    pub storage: Map<Seq<u8>, Seq<u8>>,
}

impl StateModel {
    pub open spec fn empty() -> StateModel {
        StateModel { accounts: Map::empty(), code: Map::empty(), storage: Map::empty() }
    }
}

/// An address with no stored record and no stored code reads as zero
/// balance, zero nonce, and empty code.
pub proof fn lemma_fresh_address_defaults(s: StateModel, a: Seq<u8>)
    requires
        !s.accounts.contains_key(a),
        !s.code.contains_key(a),
    ensures
        account_of(s, a) == EvmAccount::spec_default(),
        account_of(s, a).balance.as_nat() == 0,
        account_of(s, a).nonce.as_nat() == 0,
        code_of(s, a) == Seq::<u8>::empty(),
{
}

/// Storing a record and reading the same address back yields a record
/// equal to the stored one in every field, whatever was there before.
pub proof fn lemma_set_then_get_account(s: StateModel, a: Seq<u8>, record: EvmAccount)
    ensures
        ({
            let stored = StateModel {
                accounts: s.accounts.insert(a, record),
                code: s.code,
                storage: s.storage,
            };
            account_of(stored, a) == record
        }),
{
}

/// The record of an address: the stored one, or the all-zero default when
/// none is stored.
pub open spec fn account_of(s: StateModel, a: Seq<u8>) -> EvmAccount {
    if s.accounts.contains_key(a) {
        s.accounts[a]
    } else {
        EvmAccount::spec_default()
    }
}

/// The deployed code of an address, or the empty sequence when none.
pub open spec fn code_of(s: StateModel, a: Seq<u8>) -> Seq<u8> {
    if s.code.contains_key(a) {
        s.code[a]
    } else {
        Seq::<u8>::empty()
    }
}

/// Thirty-two zero bytes: the value of a never-written storage slot.
pub open spec fn zero_word() -> Seq<u8> {
    Seq::new(32, |i: int| 0u8)
}

/// The stored word under a 52-byte composite key, or all zeroes when none.
pub open spec fn storage_entry(s: StateModel, k: Seq<u8>) -> Seq<u8> {
    if s.storage.contains_key(k) {
        s.storage[k]
    } else {
        zero_word()
    }
}

/// Builds the composite 52-byte storage key: the address bytes followed by
/// the 32-byte slot key.
pub fn storage_key(address: &Address, slot: &Vec<u8>) -> (r: Vec<u8>)
    requires
        address.wf(),
        slot@.len() == 32,
    ensures
        r@ == address@ + slot@,
        r@.len() == 52,
{
    let mut r = crate::bytemap::clone_bytes(&address.bytes);
    r.extend_from_slice(slot.as_slice());
    proof {
        assert(r@ =~= address@ + slot@);
    }
    r
}

/// The full set of operations any EVM state backend must support: account
/// records, code, raw contract-storage slots, and merging a nested frame.
/// Implemented by the trie-backed execution context and by the in-memory
/// `StateStore`.
pub trait EvmState: Sized {
    /// The ledger this backend currently holds.
    spec fn state(&self) -> StateModel;

    /// Deployed bytecode of an address, or `None` when none is stored.
    fn code_at(&self, address: &Address) -> (r: Option<Vec<u8>>)
        requires
            address.wf(),
        ensures
            match r {
                Some(c) => self.state().code.contains_key(address@)
                    && c@ == self.state().code[address@],
                None => !self.state().code.contains_key(address@),
            },
    ;

    /// Stores bytecode for an address, overwriting any prior code.
    fn set_code(&mut self, address: &Address, bytecode: &[u8])
        requires
            address.wf(),
        ensures
            final(self).state().code == old(self).state().code.insert(address@, bytecode@),
            final(self).state().accounts == old(self).state().accounts,
            final(self).state().storage == old(self).state().storage,
    ;

    /// The record of an address; the all-zero default when none is stored.
    /// Never fails.
    fn get_account(&self, address: &Address) -> (r: EvmAccount)
        requires
            address.wf(),
        ensures
            r == account_of(self.state(), address@),
    ;

    /// Persists the record of an address.
    fn set_account(&mut self, address: &Address, account: &EvmAccount)
        requires
            address.wf(),
        ensures
            final(self).state().accounts == old(self).state().accounts.insert(
                address@,
                *account,
            ),
            final(self).state().code == old(self).state().code,
            final(self).state().storage == old(self).state().storage,
    ;

    /// Reads a raw 52-byte composite storage key.
    fn _read_contract_storage(&self, key: &Vec<u8>) -> (r: Option<Vec<u8>>)
        requires
            key@.len() == 52,
        ensures
            match r {
                Some(v) => self.state().storage.contains_key(key@) && v@ == self.state().storage[key@],
                None => !self.state().storage.contains_key(key@),
            },
    ;

    /// Writes a raw 52-byte composite storage key and returns the previous
    /// word, if one was stored.
    fn _set_contract_storage(&mut self, key: &Vec<u8>, value: &Vec<u8>) -> (prev: Option<Vec<u8>>)
        requires
            key@.len() == 52,
            value@.len() == 32,
        ensures
            final(self).state().storage == old(self).state().storage.insert(key@, value@),
            final(self).state().accounts == old(self).state().accounts,
            final(self).state().code == old(self).state().code,
            match prev {
                Some(v) => old(self).state().storage.contains_key(key@)
                    && v@ == old(self).state().storage[key@],
                None => !old(self).state().storage.contains_key(key@),
            },
    ;

    /// Merges a nested frame's tentative writes into this state, going
    /// through `set_account`, `set_code` and `_set_contract_storage` only;
    /// the frame's entries win where both sides wrote.
    fn commit_changes(&mut self, other: &StateStore)
        requires
            other.frame_wf(),
        ensures
            final(self).state().accounts == old(self).state().accounts.union_prefer_right(
                other.snapshot().accounts,
            ),
            final(self).state().code == old(self).state().code.union_prefer_right(
                other.snapshot().code,
            ),
            final(self).state().storage == old(self).state().storage.union_prefer_right(
                other.snapshot().storage,
            ),
    {
        let ghost start_accounts = self.state().accounts;
        let ghost start_code = self.state().code;
        let ghost start_storage = self.state().storage;
        let ghost other_accounts = other.accounts.entry_seq();
        let mut i: usize = 0;
        while i < other.accounts.entry_count()
            invariant
                other.frame_wf(),
                other_accounts == other.accounts.entry_seq(),
                i <= other_accounts.len(),
                self.state().accounts =~= start_accounts.union_prefer_right(
                    account_assoc_view(other_accounts.take(i as int)),
                ),
                self.state().code == start_code,
                self.state().storage == start_storage,
            decreases other_accounts.len() - i,
        {
            let k = other.accounts.key_at(i);
            let v = other.accounts.value_at(i);
            let address = Address { bytes: k };
            self.set_account(&address, &v);
            proof {
                assert(other_accounts.take(i + 1).drop_last() =~= other_accounts.take(i as int));
                assert(other_accounts.take(i + 1).last() == other_accounts[i as int]);
                assert(self.state().accounts =~= start_accounts.union_prefer_right(
                    account_assoc_view(other_accounts.take(i + 1)),
                ));
            }
            i = i + 1;
        }
        proof {
            assert(other_accounts.take(other_accounts.len() as int) =~= other_accounts);
            other.accounts.lemma_view_is_assoc();
        }
        let ghost other_code = other.code.entry_seq();
        let mut j: usize = 0;
        while j < other.code.entry_count()
            invariant
                other.frame_wf(),
                other_code == other.code.entry_seq(),
                j <= other_code.len(),
                self.state().code =~= start_code.union_prefer_right(
                    crate::bytemap::assoc_view(other_code.take(j as int)),
                ),
                self.state().accounts == start_accounts.union_prefer_right(
                    other.snapshot().accounts,
                ),
                self.state().storage == start_storage,
            decreases other_code.len() - j,
        {
            let k = other.code.key_at(j);
            let v = other.code.value_at(j);
            let address = Address { bytes: k };
            self.set_code(&address, v.as_slice());
            proof {
                assert(other_code.take(j + 1).drop_last() =~= other_code.take(j as int));
                assert(other_code.take(j + 1).last() == other_code[j as int]);
                assert(self.state().code =~= start_code.union_prefer_right(
                    crate::bytemap::assoc_view(other_code.take(j + 1)),
                ));
            }
            j = j + 1;
        }
        proof {
            assert(other_code.take(other_code.len() as int) =~= other_code);
            other.code.lemma_view_is_assoc();
        }
        let ghost other_storage = other.storage.entry_seq();
        let mut n: usize = 0;
        while n < other.storage.entry_count()
            invariant
                other.frame_wf(),
                other_storage == other.storage.entry_seq(),
                n <= other_storage.len(),
                self.state().storage =~= start_storage.union_prefer_right(
                    crate::bytemap::assoc_view(other_storage.take(n as int)),
                ),
                self.state().accounts == start_accounts.union_prefer_right(
                    other.snapshot().accounts,
                ),
                self.state().code == start_code.union_prefer_right(other.snapshot().code),
            decreases other_storage.len() - n,
        {
            let k = other.storage.key_at(n);
            let v = other.storage.value_at(n);
            self._set_contract_storage(&k, &v);
            proof {
                assert(other_storage.take(n + 1).drop_last() =~= other_storage.take(n as int));
                assert(other_storage.take(n + 1).last() == other_storage[n as int]);
                assert(self.state().storage =~= start_storage.union_prefer_right(
                    crate::bytemap::assoc_view(other_storage.take(n + 1)),
                ));
            }
            n = n + 1;
        }
        proof {
            assert(other_storage.take(other_storage.len() as int) =~= other_storage);
            other.storage.lemma_view_is_assoc();
        }
    }

    /// Resets an address's record, code and storage to empty, as when a
    /// contract self-destructs or is redeployed.
    fn recreate(&mut self, address: &Address)
        requires
            address.wf(),
        ensures
            final(self).state().accounts == old(self).state().accounts.remove(address@),
            final(self).state().code == old(self).state().code.remove(address@),
            final(self).state().storage == old(self).state().storage.remove_keys(
                Set::new(|k: Seq<u8>| key_prefixed(k, address@)),
            ),
    ;

    /// Reads the storage word of an address's 32-byte slot.
    fn read_contract_storage(&self, address: &Address, slot: &Vec<u8>) -> (r: Option<Vec<u8>>)
        requires
            address.wf(),
            slot@.len() == 32,
        ensures
            match r {
                Some(v) => self.state().storage.contains_key(address@ + slot@) && v@
                    == self.state().storage[address@ + slot@],
                None => !self.state().storage.contains_key(address@ + slot@),
            },
    {
        let composite = storage_key(address, slot);
        self._read_contract_storage(&composite)
    }

    /// Writes the storage word of an address's 32-byte slot and returns the
    /// previous word, if one was stored.
    fn write_contract_storage(&mut self, address: &Address, slot: &Vec<u8>, value: &Vec<u8>) -> (prev:
        Option<Vec<u8>>)
        requires
            address.wf(),
            slot@.len() == 32,
            value@.len() == 32,
        ensures
            final(self).state().storage == old(self).state().storage.insert(
                address@ + slot@,
                value@,
            ),
            final(self).state().accounts == old(self).state().accounts,
            final(self).state().code == old(self).state().code,
            match prev {
                Some(v) => old(self).state().storage.contains_key(address@ + slot@)
                    && v@ == old(self).state().storage[address@ + slot@],
                None => !old(self).state().storage.contains_key(address@ + slot@),
            },
    {
        let composite = storage_key(address, slot);
        self._set_contract_storage(&composite, value)
    }

    /// The balance of an address; zero when no record is stored.
    fn balance_of(&self, address: &Address) -> (r: U256)
        requires
            address.wf(),
        ensures
            r == account_of(self.state(), address@).balance,
    {
        let account = self.get_account(address);
        account.balance
    }

    /// The nonce of an address; zero when no record is stored.
    fn nonce_of(&self, address: &Address) -> (r: U256)
        requires
            address.wf(),
        ensures
            r == account_of(self.state(), address@).nonce,
    {
        let account = self.get_account(address);
        account.nonce
    }

    /// Credits an address by `incr`, going through `get_account` and
    /// `set_account` only. Fails, leaving the ledger unchanged, when the
    /// new balance would not fit in 256 bits.
    fn add_balance(&mut self, address: &Address, incr: U256) -> (r: Result<(), EvmError>)
        requires
            address.wf(),
        ensures
            match r {
                Ok(_) => ({
                    let before = account_of(old(self).state(), address@);
                    let after = EvmAccount {
                        balance: u256_of(before.balance.as_nat() + incr.as_nat() as int),
                        nonce: before.nonce,
                    };
                    &&& before.balance.as_nat() + incr.as_nat() < u256_bound()
                    &&& final(self).state().accounts == old(self).state().accounts.insert(
                        address@,
                        after,
                    )
                    &&& final(self).state().code == old(self).state().code
                    &&& final(self).state().storage == old(self).state().storage
                }),
                Err(e) => {
                    &&& e == EvmError::UnknownError
                    &&& account_of(old(self).state(), address@).balance.as_nat() + incr.as_nat()
                        >= u256_bound()
                    &&& *final(self) == *old(self)
                },
            },
    {
        let account = self.get_account(address);
        match account.balance.checked_add(incr) {
            Some(new_balance) => {
                proof {
                    crate::u256::lemma_u256_of_as_nat(new_balance);
                }
                let updated = EvmAccount { balance: new_balance, nonce: account.nonce };
                self.set_account(address, &updated);
                Ok(())
            },
            None => Err(EvmError::UnknownError),
        }
    }

    /// Debits an address by `decr`, which must not exceed its balance.
    fn sub_balance(&mut self, address: &Address, decr: U256)
        requires
            address.wf(),
            decr.as_nat() <= account_of(old(self).state(), address@).balance.as_nat(),
        ensures
            ({
                let before = account_of(old(self).state(), address@);
                let after = EvmAccount {
                    balance: u256_of(before.balance.as_nat() - decr.as_nat()),
                    nonce: before.nonce,
                };
                &&& final(self).state().accounts == old(self).state().accounts.insert(
                    address@,
                    after,
                )
                &&& final(self).state().code == old(self).state().code
                &&& final(self).state().storage == old(self).state().storage
            }),
    {
        let account = self.get_account(address);
        match account.balance.checked_sub(decr) {
            Some(new_balance) => {
                proof {
                    crate::u256::lemma_u256_of_as_nat(new_balance);
                }
                let updated = EvmAccount { balance: new_balance, nonce: account.nonce };
                self.set_account(address, &updated);
            },
            None => {
                proof {
                    assert(false);
                }
            },
        }
    }

    /// Steps an address's nonce by one, for contract-address derivation.
    fn increment_nonce(&mut self, address: &Address)
        requires
            address.wf(),
            account_of(old(self).state(), address@).nonce.as_nat() + 1 < u256_bound(),
        ensures
            ({
                let before = account_of(old(self).state(), address@);
                let after = EvmAccount {
                    balance: before.balance,
                    nonce: u256_of(before.nonce.as_nat() + 1int),
                };
                &&& final(self).state().accounts == old(self).state().accounts.insert(
                    address@,
                    after,
                )
                &&& final(self).state().code == old(self).state().code
                &&& final(self).state().storage == old(self).state().storage
            }),
    {
        let account = self.get_account(address);
        let one = U256::from_u128(1);
        match account.nonce.checked_add(one) {
            Some(new_nonce) => {
                proof {
                    crate::u256::lemma_u256_of_as_nat(new_nonce);
                }
                let updated = EvmAccount { balance: account.balance, nonce: new_nonce };
                self.set_account(address, &updated);
            },
            None => {
                proof {
                    assert(false);
                }
            },
        }
    }
}

/// A scratch, mergeable snapshot of one nested execution frame: its
/// tentative account records, code and storage writes. A frame is either
/// merged into its parent with `commit_changes` on success, or simply
/// dropped on failure, so a failed inner call leaks nothing.
pub struct StateStore {
    pub accounts: AccountMap,
    pub code: ByteMap,
    pub storage: ByteMap,
}

impl StateStore {
    /// Every entry of a well-formed frame carries keys of the right
    /// shape: 20-byte addresses, and 52-byte storage keys with 32-byte
    /// words. Frames built through the trait operations stay well formed.
    pub open spec fn frame_wf(&self) -> bool {
        &&& forall|i: int|
            0 <= i < self.accounts.entry_seq().len() ==> (#[trigger] self.accounts.entry_seq()[i]).0.len() == 20
        &&& forall|i: int|
            0 <= i < self.code.entry_seq().len() ==> (#[trigger] self.code.entry_seq()[i]).0.len() == 20
        &&& forall|i: int|
            0 <= i < self.storage.entry_seq().len() ==> ((#[trigger] self.storage.entry_seq()[i]).0.len() == 52
                && self.storage.entry_seq()[i].1.len() == 32)
    }

    /// The ledger this frame currently holds.
    pub open spec fn snapshot(&self) -> StateModel {
        StateModel { accounts: self.accounts@, code: self.code@, storage: self.storage@ }
    }

    pub fn new() -> (r: StateStore)
        ensures
            r.state() == StateModel::empty(),
            r.accounts.entry_seq().len() == 0,
            r.code.entry_seq().len() == 0,
            r.storage.entry_seq().len() == 0,
    {
        let r = StateStore { accounts: AccountMap::new(), code: ByteMap::new(), storage: ByteMap::new() };
        proof {
            assert(r.state() == StateModel::empty());
        }
        r
    }
}

impl EvmState for StateStore {
    open spec fn state(&self) -> StateModel {
        self.snapshot()
    }

    fn code_at(&self, address: &Address) -> (r: Option<Vec<u8>>) {
        self.code.get(&address.bytes)
    }

    fn set_code(&mut self, address: &Address, bytecode: &[u8]) {
        self.code.insert(clone_bytes(&address.bytes), vstd::slice::slice_to_vec(bytecode));
    }

    fn get_account(&self, address: &Address) -> (r: EvmAccount) {
        match self.accounts.get(&address.bytes) {
            Some(account) => account,
            None => EvmAccount::default(),
        }
    }

    fn set_account(&mut self, address: &Address, account: &EvmAccount) {
        self.accounts.insert(clone_bytes(&address.bytes), *account);
    }

    fn _read_contract_storage(&self, key: &Vec<u8>) -> (r: Option<Vec<u8>>) {
        self.storage.get(key)
    }

    fn _set_contract_storage(&mut self, key: &Vec<u8>, value: &Vec<u8>) -> (prev: Option<Vec<u8>>) {
        let prev = self.storage.get(key);
        self.storage.insert(clone_bytes(key), clone_bytes(value));
        prev
    }

    fn recreate(&mut self, address: &Address) {
        self.accounts.remove(&address.bytes);
        self.code.remove(&address.bytes);
        self.storage.remove_prefixed(&address.bytes);
    }
}

} // verus!

