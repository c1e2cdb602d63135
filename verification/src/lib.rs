pub mod bytemap;
pub mod errors;
pub mod evm_state;
pub mod interpreter;
pub mod trie;
pub mod types;
pub mod u256;
pub mod utils;

use crate::bytemap::key_prefixed;
use crate::errors::EvmError;
use crate::evm_state::{
    account_of, code_of, decode_account, encode_account, spec_decode_account, storage_entry,
    EvmAccount, EvmState, StateModel, StateStore,
};
use crate::interpreter::{CreateScheme, InterpreterAction, InterpreterRequest};
use crate::trie::{contract_data_key, spec_contract_data_key, TrieUpdate};
use crate::types::{Address, GetCodeArgs, GetStorageAtArgs, WithdrawNearArgs};
use crate::u256::{u256_bound, u256_of, U256};
use crate::utils::{near_account_id_to_evm_address, spec_evm_address};
use vstd::prelude::*;

verus! {

/// The marker byte under which an address's deployed code is stored; it
/// keeps code keys apart from the 20-byte record key and the 52-byte
/// storage keys of the same address.
pub const CODE_KEY_SUFFIX: u8 = 99;

/// The trie key of an address's account record within one host account's
/// namespace.
pub open spec fn spec_account_key(id: Seq<u8>, addr: Seq<u8>) -> Seq<u8> {
    spec_contract_data_key(id, addr)
}

/// The trie key of an address's deployed code.
pub open spec fn spec_code_key(id: Seq<u8>, addr: Seq<u8>) -> Seq<u8> {
    spec_contract_data_key(id, addr + seq![CODE_KEY_SUFFIX])
}

/// The trie key of one storage word; `k` is the 52-byte composite of the
/// address and the slot.
pub open spec fn spec_storage_key(id: Seq<u8>, k: Seq<u8>) -> Seq<u8> {
    spec_contract_data_key(id, k)
}

/// The account records one host account's namespace holds in a trie:
/// addresses whose record key is present and decodes.
pub open spec fn ctx_accounts(trie: Map<Seq<u8>, Seq<u8>>, id: Seq<u8>) -> Map<Seq<u8>, EvmAccount> {
    Map::new(
        |a: Seq<u8>|
            a.len() == 20 && trie.contains_key(spec_account_key(id, a)) && spec_decode_account(
                trie[spec_account_key(id, a)],
            ) is Some,
        |a: Seq<u8>| spec_decode_account(trie[spec_account_key(id, a)])->Some_0,
    )
}

/// The deployed code one host account's namespace holds in a trie.
pub open spec fn ctx_code(trie: Map<Seq<u8>, Seq<u8>>, id: Seq<u8>) -> Map<Seq<u8>, Seq<u8>> {
    Map::new(
        |a: Seq<u8>| a.len() == 20 && trie.contains_key(spec_code_key(id, a)),
        |a: Seq<u8>| trie[spec_code_key(id, a)],
    )
}

/// The storage words one host account's namespace holds in a trie, keyed
/// by the 52-byte composite of address and slot.
pub open spec fn ctx_storage(trie: Map<Seq<u8>, Seq<u8>>, id: Seq<u8>) -> Map<Seq<u8>, Seq<u8>> {
    Map::new(
        |k: Seq<u8>| k.len() == 52 && trie.contains_key(spec_storage_key(id, k)),
        |k: Seq<u8>| trie[spec_storage_key(id, k)],
    )
}

/// The whole EVM sub-ledger a host account owns within a trie.
pub open spec fn ctx_state(trie: Map<Seq<u8>, Seq<u8>>, id: Seq<u8>) -> StateModel {
    StateModel {
        accounts: ctx_accounts(trie, id),
        code: ctx_code(trie, id),
        storage: ctx_storage(trie, id),
    }
}

/// Writing an address's record key changes exactly that address's record
/// in the namespace view, and touches neither code nor storage.
pub proof fn lemma_ctx_account_write(trie: Map<Seq<u8>, Seq<u8>>, id: Seq<u8>, addr: Seq<u8>, v: Seq<u8>)
    requires
        addr.len() == 20,
        spec_decode_account(v) is Some,
    ensures
        ctx_accounts(trie.insert(spec_account_key(id, addr), v), id) == ctx_accounts(
            trie,
            id,
        ).insert(addr, spec_decode_account(v)->Some_0),
        ctx_code(trie.insert(spec_account_key(id, addr), v), id) == ctx_code(trie, id),
        ctx_storage(trie.insert(spec_account_key(id, addr), v), id) == ctx_storage(trie, id),
{
    let k0 = spec_account_key(id, addr);
    let t1 = trie.insert(k0, v);
    assert forall|a: Seq<u8>| a.len() == 20 && a != addr implies #[trigger] spec_account_key(
        id,
        a,
    ) != k0 by {
        if spec_account_key(id, a) == k0 {
            crate::trie::lemma_contract_data_key_injective(id, a, addr);
        }
    }
    assert(ctx_accounts(t1, id) =~= ctx_accounts(trie, id).insert(
        addr,
        spec_decode_account(v)->Some_0,
    ));
    assert forall|a: Seq<u8>| a.len() == 20 implies #[trigger] spec_code_key(id, a) != k0 by {
        assert(spec_code_key(id, a).len() == id.len() + 23);
        assert(k0.len() == id.len() + 22);
    }
    assert(ctx_code(t1, id) =~= ctx_code(trie, id));
    assert forall|k: Seq<u8>| k.len() == 52 implies #[trigger] spec_storage_key(id, k) != k0 by {
        assert(spec_storage_key(id, k).len() == id.len() + 54);
        assert(k0.len() == id.len() + 22);
    }
    assert(ctx_storage(t1, id) =~= ctx_storage(trie, id));
}

/// Writing an address's code key changes exactly that address's code in
/// the namespace view, and touches neither records nor storage.
pub proof fn lemma_ctx_code_write(trie: Map<Seq<u8>, Seq<u8>>, id: Seq<u8>, addr: Seq<u8>, v: Seq<u8>)
    requires
        addr.len() == 20,
    ensures
        ctx_code(trie.insert(spec_code_key(id, addr), v), id) == ctx_code(trie, id).insert(
            addr,
            v,
        ),
        ctx_accounts(trie.insert(spec_code_key(id, addr), v), id) == ctx_accounts(trie, id),
        ctx_storage(trie.insert(spec_code_key(id, addr), v), id) == ctx_storage(trie, id),
{
    let k0 = spec_code_key(id, addr);
    let t1 = trie.insert(k0, v);
    assert forall|a: Seq<u8>| a.len() == 20 && a != addr implies #[trigger] spec_code_key(
        id,
        a,
    ) != k0 by {
        if spec_code_key(id, a) == k0 {
            crate::trie::lemma_contract_data_key_injective(
                id,
                a + seq![CODE_KEY_SUFFIX],
                addr + seq![CODE_KEY_SUFFIX],
            );
            assert((a + seq![CODE_KEY_SUFFIX]).take(20) =~= a);
            assert((addr + seq![CODE_KEY_SUFFIX]).take(20) =~= addr);
        }
    }
    assert(ctx_code(t1, id) =~= ctx_code(trie, id).insert(addr, v));
    assert forall|a: Seq<u8>| a.len() == 20 implies #[trigger] spec_account_key(id, a) != k0 by {
        assert(spec_account_key(id, a).len() == id.len() + 22);
        assert(k0.len() == id.len() + 23);
    }
    assert(ctx_accounts(t1, id) =~= ctx_accounts(trie, id));
    assert forall|k: Seq<u8>| k.len() == 52 implies #[trigger] spec_storage_key(id, k) != k0 by {
        assert(spec_storage_key(id, k).len() == id.len() + 54);
        assert(k0.len() == id.len() + 23);
    }
    assert(ctx_storage(t1, id) =~= ctx_storage(trie, id));
}

/// Writing a composite storage key changes exactly that slot in the
/// namespace view, and touches neither records nor code.
pub proof fn lemma_ctx_storage_write(trie: Map<Seq<u8>, Seq<u8>>, id: Seq<u8>, key: Seq<u8>, v: Seq<u8>)
    requires
        key.len() == 52,
    ensures
        ctx_storage(trie.insert(spec_storage_key(id, key), v), id) == ctx_storage(
            trie,
            id,
        ).insert(key, v),
        ctx_accounts(trie.insert(spec_storage_key(id, key), v), id) == ctx_accounts(trie, id),
        ctx_code(trie.insert(spec_storage_key(id, key), v), id) == ctx_code(trie, id),
{
    let k0 = spec_storage_key(id, key);
    let t1 = trie.insert(k0, v);
    assert forall|k: Seq<u8>| k.len() == 52 && k != key implies #[trigger] spec_storage_key(
        id,
        k,
    ) != k0 by {
        if spec_storage_key(id, k) == k0 {
            crate::trie::lemma_contract_data_key_injective(id, k, key);
        }
    }
    assert(ctx_storage(t1, id) =~= ctx_storage(trie, id).insert(key, v));
    assert forall|a: Seq<u8>| a.len() == 20 implies #[trigger] spec_account_key(id, a) != k0 by {
        assert(spec_account_key(id, a).len() == id.len() + 22);
        assert(k0.len() == id.len() + 54);
    }
    assert(ctx_accounts(t1, id) =~= ctx_accounts(trie, id));
    assert forall|a: Seq<u8>| a.len() == 20 implies #[trigger] spec_code_key(id, a) != k0 by {
        assert(spec_code_key(id, a).len() == id.len() + 23);
        assert(k0.len() == id.len() + 54);
    }
    assert(ctx_code(t1, id) =~= ctx_code(trie, id));
}

/// The execution context of one dispatched call: the host trie overlay,
/// the host account id owning the EVM sub-ledger, the caller's id, and
/// the native deposit attached to the call. Built fresh for each dispatch
/// and never persisted.
pub struct EvmContext {
    pub trie_update: TrieUpdate,
    pub account_id: Vec<u8>,
    pub predecessor_id: Vec<u8>,
    pub attached_deposit: u128,
}

impl EvmState for EvmContext {
    open spec fn state(&self) -> StateModel {
        ctx_state(self.trie_update@, self.account_id@)
    }

    fn code_at(&self, address: &Address) -> (r: Option<Vec<u8>>) {
        let mut suffix = crate::bytemap::clone_bytes(&address.bytes);
        suffix.push(CODE_KEY_SUFFIX);
        proof {
            assert(suffix@ =~= address@ + seq![CODE_KEY_SUFFIX]);
        }
        let key = contract_data_key(&self.account_id, &suffix);
        self.trie_update.get(&key)
    }

    fn set_code(&mut self, address: &Address, bytecode: &[u8]) {
        let mut suffix = crate::bytemap::clone_bytes(&address.bytes);
        suffix.push(CODE_KEY_SUFFIX);
        proof {
            assert(suffix@ =~= address@ + seq![CODE_KEY_SUFFIX]);
        }
        let key = contract_data_key(&self.account_id, &suffix);
        self.trie_update.set(key, vstd::slice::slice_to_vec(bytecode));
        proof {
            lemma_ctx_code_write(old(self).trie_update@, self.account_id@, address@, bytecode@);
        }
    }

    fn get_account(&self, address: &Address) -> (r: EvmAccount) {
        let key = contract_data_key(&self.account_id, &address.bytes);
        match self.trie_update.get(&key) {
            Some(stored) => match decode_account(stored.as_slice()) {
                Some(account) => account,
                None => EvmAccount::default(),
            },
            None => EvmAccount::default(),
        }
    }

    fn set_account(&mut self, address: &Address, account: &EvmAccount) {
        self.put_account(address, account);
    }

    fn _read_contract_storage(&self, key: &Vec<u8>) -> (r: Option<Vec<u8>>) {
        let raw = contract_data_key(&self.account_id, key);
        self.trie_update.get(&raw)
    }

    fn _set_contract_storage(&mut self, key: &Vec<u8>, value: &Vec<u8>) -> (prev: Option<Vec<u8>>) {
        let raw = contract_data_key(&self.account_id, key);
        let prev = self.trie_update.get(&raw);
        self.trie_update.set(raw, crate::bytemap::clone_bytes(value));
        proof {
            lemma_ctx_storage_write(old(self).trie_update@, self.account_id@, key@, value@);
        }
        prev
    }

    fn recreate(&mut self, address: &Address) {
        let prefix = contract_data_key(&self.account_id, &address.bytes);
        self.trie_update.remove_prefixed(&prefix);
        proof {
            lemma_ctx_recreate(old(self).trie_update@, self.account_id@, address@);
        }
    }
}

impl EvmContext {
    /// Binds one invocation's identities and deposit to the trie overlay.
    /// Account ids are carried on as their raw bytes.
    pub fn new(
        state_update: TrieUpdate,
        account_id: String,
        predecessor_id: String,
        attached_deposit: u128,
    ) -> (r: EvmContext)
        ensures
            r.trie_update == state_update,
            r.account_id@ == vstd::utf8::encode_utf8(account_id@),
            r.predecessor_id@ == vstd::utf8::encode_utf8(predecessor_id@),
            r.attached_deposit == attached_deposit,
    {
        let account_bytes = vstd::slice::slice_to_vec(account_id.as_str().as_bytes());
        let predecessor_bytes = vstd::slice::slice_to_vec(predecessor_id.as_str().as_bytes());
        EvmContext {
            trie_update: state_update,
            account_id: account_bytes,
            predecessor_id: predecessor_bytes,
            attached_deposit,
        }
    }

    /// Writes an address's record into the trie, leaving the context's
    /// identity fields untouched.
    fn put_account(&mut self, address: &Address, account: &EvmAccount)
        requires
            address.wf(),
        ensures
            final(self).state().accounts == old(self).state().accounts.insert(
                address@,
                *account,
            ),
            final(self).state().code == old(self).state().code,
            final(self).state().storage == old(self).state().storage,
            final(self).account_id == old(self).account_id,
            final(self).predecessor_id == old(self).predecessor_id,
            final(self).attached_deposit == old(self).attached_deposit,
    {
        let encoded = encode_account(account);
        let key = contract_data_key(&self.account_id, &address.bytes);
        proof {
            crate::evm_state::lemma_account_codec_round_trip(*account);
        }
        self.trie_update.set(key, encoded);
        proof {
            lemma_ctx_account_write(
                old(self).trie_update@,
                self.account_id@,
                address@,
                crate::evm_state::spec_encode_account(*account),
            );
        }
    }

    /// Prepares the interpreter invocation that executes contract-creation
    /// semantics: the sender derived from the caller's id, the attached
    /// deposit as value, and the sender-and-nonce creation scheme, at
    /// depth zero. The interpreter, an external collaborator, runs it and
    /// returns the new contract address or a failure, surfaced unchanged.
    pub fn deploy_code(&mut self, bytecode: Vec<u8>) -> (r: InterpreterRequest)
        ensures
            *final(self) == *old(self),
            r.sender@ == spec_evm_address(old(self).predecessor_id@),
            r.origin@ == spec_evm_address(old(self).predecessor_id@),
            (r.value matches Some(v) && v.as_nat() == old(self).attached_deposit),
            r.call_depth == 0,
            r.should_commit == true,
            (r.action matches InterpreterAction::Create { scheme: _, bytecode: b } && b@
                == bytecode@),
    {
        let sender = near_account_id_to_evm_address(&self.predecessor_id);
        let origin = near_account_id_to_evm_address(&self.predecessor_id);
        InterpreterRequest {
            sender,
            origin,
            value: Some(U256::from_u128(self.attached_deposit)),
            call_depth: 0,
            should_commit: true,
            action: InterpreterAction::Create {
                scheme: CreateScheme::FromSenderAndNonce,
                bytecode,
            },
        }
    }

    /// Prepares the interpreter invocation for a message call: the first
    /// 20 argument bytes name the target, the rest are call data; the
    /// deposit is forwarded as value only when nonzero. A buffer shorter
    /// than 20 bytes is a malformed argument.
    pub fn call_function(&mut self, args: Vec<u8>) -> (r: Result<InterpreterRequest, EvmError>)
        ensures
            *final(self) == *old(self),
            match r {
                Ok(req) => {
                    &&& args@.len() >= 20
                    &&& req.sender@ == spec_evm_address(old(self).predecessor_id@)
                    &&& req.origin@ == spec_evm_address(old(self).predecessor_id@)
                    &&& (old(self).attached_deposit == 0 ==> req.value is None)
                    &&& (old(self).attached_deposit > 0 ==> (req.value matches Some(v)
                        && v.as_nat() == old(self).attached_deposit))
                    &&& req.call_depth == 0
                    &&& req.should_commit == true
                    &&& (req.action matches InterpreterAction::Call { target, input } && target@
                        == args@.subrange(0, 20) && input@ == args@.subrange(
                        20,
                        args@.len() as int,
                    ))
                },
                Err(e) => args@.len() < 20 && e == EvmError::ArgumentParseError,
            },
    {
        if args.len() < 20 {
            return Err(EvmError::ArgumentParseError);
        }
        let target_part = vstd::slice::slice_subrange(args.as_slice(), 0, 20);
        let input_part = vstd::slice::slice_subrange(args.as_slice(), 20, args.len());
        let target = Address { bytes: vstd::slice::slice_to_vec(target_part) };
        let input = vstd::slice::slice_to_vec(input_part);
        let sender = near_account_id_to_evm_address(&self.predecessor_id);
        let origin = near_account_id_to_evm_address(&self.predecessor_id);
        let value = if self.attached_deposit == 0 {
            None
        } else {
            Some(U256::from_u128(self.attached_deposit))
        };
        Ok(
            InterpreterRequest {
                sender,
                origin,
                value,
                call_depth: 0,
                should_commit: true,
                action: InterpreterAction::Call { target, input },
            },
        )
    }

    /// Returns the deployed code of the address the arguments name, or an
    /// empty buffer when none is stored.
    pub fn get_code(&self, args: Vec<u8>) -> (r: Result<Vec<u8>, EvmError>)
        ensures
            match r {
                Ok(c) => args@.len() == 20 && c@ == code_of(self.state(), args@),
                Err(e) => args@.len() != 20 && e == EvmError::ArgumentParseError,
            },
    {
        let decoded = match GetCodeArgs::decode(args.as_slice()) {
            Ok(a) => a,
            Err(e) => {
                return Err(e);
            },
        };
        match self.code_at(&decoded.address) {
            Some(code) => Ok(code),
            None => Ok(Vec::new()),
        }
    }

    /// Returns the 32-byte storage word the arguments name: 20 address
    /// bytes then the 32-byte slot key; all zeroes when never written.
    pub fn get_storage_at(&self, args: Vec<u8>) -> (r: Result<Vec<u8>, EvmError>)
        ensures
            match r {
                Ok(v) => args@.len() == 52 && v@ == storage_entry(self.state(), args@),
                Err(e) => args@.len() != 52 && e == EvmError::ArgumentParseError,
            },
    {
        let decoded = match GetStorageAtArgs::decode(args.as_slice()) {
            Ok(a) => a,
            Err(e) => {
                return Err(e);
            },
        };
        proof {
            assert(decoded.address@ + decoded.key@ =~= args@);
        }
        match self.read_contract_storage(&decoded.address, &decoded.key) {
            Some(v) => Ok(v),
            None => {
                let zeroes: Vec<u8> = vec![0u8; 32];
                proof {
                    assert(zeroes@ =~= crate::evm_state::zero_word());
                }
                Ok(zeroes)
            },
        }
    }

    /// Returns the balance of the address the raw 20-byte argument names.
    pub fn get_balance(&self, args: Vec<u8>) -> (r: Result<U256, EvmError>)
        ensures
            match r {
                Ok(b) => args@.len() == 20 && b == account_of(self.state(), args@).balance,
                Err(e) => args@.len() != 20 && e == EvmError::ArgumentParseError,
            },
    {
        let address = match Address::from_slice(args.as_slice()) {
            Ok(a) => a,
            Err(e) => {
                return Err(e);
            },
        };
        Ok(self.balance_of(&address))
    }

    /// Credits the named address by the attached deposit and returns the
    /// new balance. Requires a nonzero deposit; a failed call leaves the
    /// ledger exactly as it was.
    pub fn deposit_near(&mut self, args: Vec<u8>) -> (r: Result<U256, EvmError>)
        ensures
            final(self).account_id == old(self).account_id,
            final(self).predecessor_id == old(self).predecessor_id,
            final(self).attached_deposit == old(self).attached_deposit,
            match r {
                Ok(balance) => ({
                    let before = account_of(old(self).state(), args@);
                    let after = EvmAccount {
                        balance: u256_of(
                            (before.balance.as_nat() + old(self).attached_deposit) as int,
                        ),
                        nonce: before.nonce,
                    };
                    &&& old(self).attached_deposit > 0
                    &&& args@.len() == 20
                    &&& before.balance.as_nat() + old(self).attached_deposit < u256_bound()
                    &&& final(self).state().accounts == old(self).state().accounts.insert(
                        args@,
                        after,
                    )
                    &&& final(self).state().code == old(self).state().code
                    &&& final(self).state().storage == old(self).state().storage
                    &&& balance == after.balance
                    &&& balance.as_nat() == before.balance.as_nat() + old(self).attached_deposit
                }),
                Err(e) => {
                    &&& final(self).trie_update@ == old(self).trie_update@
                    &&& (e == EvmError::MissingDeposit || e == EvmError::ArgumentParseError || e
                        == EvmError::UnknownError)
                    &&& (e == EvmError::MissingDeposit <==> old(self).attached_deposit == 0)
                    &&& (e == EvmError::ArgumentParseError <==> old(self).attached_deposit > 0
                        && args@.len() != 20)
                    &&& (e == EvmError::UnknownError <==> old(self).attached_deposit > 0
                        && args@.len() == 20 && account_of(
                        old(self).state(),
                        args@,
                    ).balance.as_nat() + old(self).attached_deposit >= u256_bound())
                },
            },
    {
        if self.attached_deposit == 0 {
            return Err(EvmError::MissingDeposit);
        }
        let address = match Address::from_slice(args.as_slice()) {
            Ok(a) => a,
            Err(e) => {
                return Err(e);
            },
        };
        let account = self.get_account(&address);
        let deposit = U256::from_u128(self.attached_deposit);
        match account.balance.checked_add(deposit) {
            Some(new_balance) => {
                proof {
                    crate::u256::lemma_u256_of_as_nat(new_balance);
                }
                let updated = EvmAccount { balance: new_balance, nonce: account.nonce };
                self.put_account(&address, &updated);
                Ok(self.balance_of(&address))
            },
            None => Err(EvmError::UnknownError),
        }
    }

    /// Debits the sender — the address derived from the caller's account
    /// id — by the decoded amount. The corresponding outbound native
    /// transfer to the caller is the host runtime's to schedule and is not
    /// performed here. A failed call leaves the ledger exactly as it was.
    pub fn withdraw_near(&mut self, args: Vec<u8>) -> (r: Result<(), EvmError>)
        ensures
            final(self).account_id == old(self).account_id,
            final(self).predecessor_id == old(self).predecessor_id,
            final(self).attached_deposit == old(self).attached_deposit,
            ({
                let sender = spec_evm_address(old(self).predecessor_id@);
                let before = account_of(old(self).state(), sender);
                let amount = vstd::bytes::spec_u128_from_le_bytes(args@);
                match r {
                    Ok(_) => ({
                        let after = EvmAccount {
                            balance: u256_of(before.balance.as_nat() - amount),
                            nonce: before.nonce,
                        };
                        &&& args@.len() == 16
                        &&& amount <= before.balance.as_nat()
                        &&& final(self).state().accounts == old(self).state().accounts.insert(
                            sender,
                            after,
                        )
                        &&& final(self).state().code == old(self).state().code
                        &&& final(self).state().storage == old(self).state().storage
                        &&& account_of(final(self).state(), sender).balance.as_nat()
                            == before.balance.as_nat() - amount
                    }),
                    Err(e) => {
                        &&& final(self).trie_update@ == old(self).trie_update@
                        &&& (e == EvmError::ArgumentParseError || e == EvmError::InsufficientFunds)
                        &&& (e == EvmError::ArgumentParseError <==> args@.len() != 16)
                        &&& (e == EvmError::InsufficientFunds <==> args@.len() == 16 && amount
                            > before.balance.as_nat())
                    },
                }
            }),
    {
        let decoded = match WithdrawNearArgs::decode(args.as_slice()) {
            Ok(a) => a,
            Err(e) => {
                return Err(e);
            },
        };
        let sender = near_account_id_to_evm_address(&self.predecessor_id);
        let amount = U256::from_u128(decoded.amount);
        let balance = self.balance_of(&sender);
        if balance.lt(amount) {
            return Err(EvmError::InsufficientFunds);
        }
        let account = self.get_account(&sender);
        match account.balance.checked_sub(amount) {
            Some(new_balance) => {
                proof {
                    crate::u256::lemma_u256_of_as_nat(new_balance);
                }
                let updated = EvmAccount { balance: new_balance, nonce: account.nonce };
                self.put_account(&sender, &updated);
                Ok(())
            },
            None => {
                proof {
                    assert(false);
                }
                Err(EvmError::InsufficientFunds)
            },
        }
    }
}

/// A successful dispatch outcome for the host runtime.
pub enum RunOutcome {
    /// The operation completed; the encoded result bytes.
    Value(Vec<u8>),
    /// The method delegates to the bytecode interpreter, an external
    /// collaborator: the prepared invocation for the host to run against
    /// this call's context.
    Interpreter(InterpreterRequest),
}

/// The method names the dispatch surface serves.
pub open spec fn known_method(m: Seq<char>) -> bool {
    ||| m == "deploy_code"@
    ||| m == "get_code"@
    ||| m == "call_function"@
    ||| m == "get_storage_at"@
    ||| m == "get_balance"@
    ||| m == "deposit_near"@
    ||| m == "withdraw_near"@
}

/// Dispatches one call: builds a fresh execution context over the trie,
/// maps the method name to the matching operation, and returns exactly one
/// of an outcome or a typed error. An unknown method name touches no
/// state.
pub fn run_evm(
    state_update: &mut TrieUpdate,
    account_id: String,
    predecessor_id: String,
    attached_deposit: u128,
    method_name: String,
    args: Vec<u8>,
) -> (r: (Option<RunOutcome>, Option<EvmError>))
    ensures
        ({
            let id = vstd::utf8::encode_utf8(account_id@);
            let pid = vstd::utf8::encode_utf8(predecessor_id@);
            let before = ctx_state(old(state_update)@, id);
            let after = ctx_state(final(state_update)@, id);
            &&& ((r.0 is Some) <==> (r.1 is None))
            &&& (!known_method(method_name@) ==> r.1 == Some(EvmError::UnknownError) && r.0
                is None && final(state_update)@ == old(state_update)@)
            &&& (method_name@ == "deploy_code"@ ==> final(state_update)@ == old(state_update)@
                && (r.0 matches Some(RunOutcome::Interpreter(req)) && req.sender@
                == spec_evm_address(pid) && req.origin@ == spec_evm_address(pid) && (req.value
                matches Some(v) && v.as_nat() == attached_deposit) && req.call_depth == 0
                && (req.action matches InterpreterAction::Create { scheme: _, bytecode: b } && b@
                == args@)))
            &&& (method_name@ == "call_function"@ ==> final(state_update)@ == old(state_update)@
                && (if args@.len() >= 20 {
                    r.0 matches Some(RunOutcome::Interpreter(req)) && req.sender@
                        == spec_evm_address(pid) && (attached_deposit == 0 ==> req.value is None)
                        && (attached_deposit > 0 ==> (req.value matches Some(v) && v.as_nat()
                        == attached_deposit)) && req.call_depth == 0 && (req.action matches
                    InterpreterAction::Call { target, input } && target@ == args@.subrange(0, 20)
                        && input@ == args@.subrange(20, args@.len() as int))
                } else {
                    r.1 == Some(EvmError::ArgumentParseError)
                }))
            &&& (method_name@ == "get_code"@ ==> final(state_update)@ == old(state_update)@ && (
            if args@.len() == 20 {
                r.0 matches Some(RunOutcome::Value(c)) && c@ == code_of(before, args@)
            } else {
                r.1 == Some(EvmError::ArgumentParseError)
            }))
            &&& (method_name@ == "get_storage_at"@ ==> final(state_update)@ == old(state_update)@
                && (if args@.len() == 52 {
                    r.0 matches Some(RunOutcome::Value(v)) && v@ == storage_entry(before, args@)
                } else {
                    r.1 == Some(EvmError::ArgumentParseError)
                }))
            &&& (method_name@ == "get_balance"@ ==> final(state_update)@ == old(state_update)@
                && (if args@.len() == 20 {
                    r.0 matches Some(RunOutcome::Value(b)) && b@ == account_of(
                        before,
                        args@,
                    ).balance.spec_be_bytes()
                } else {
                    r.1 == Some(EvmError::ArgumentParseError)
                }))
            &&& (method_name@ == "deposit_near"@ ==> ({
                let prior = account_of(before, args@).balance.as_nat();
                &&& (attached_deposit == 0 ==> r.1 == Some(EvmError::MissingDeposit) && final(state_update)@ == old(state_update)@)
                &&& (attached_deposit > 0 && args@.len() != 20 ==> r.1 == Some(
                    EvmError::ArgumentParseError,
                ) && final(state_update)@ == old(state_update)@)
                &&& (attached_deposit > 0 && args@.len() == 20 && prior + attached_deposit
                    < u256_bound() ==> ({
                    let record = EvmAccount {
                        balance: u256_of((prior + attached_deposit) as int),
                        nonce: account_of(before, args@).nonce,
                    };
                    &&& (r.0 matches Some(RunOutcome::Value(b)) && b@ == u256_of(
                        (prior + attached_deposit) as int,
                    ).spec_be_bytes())
                    &&& after.accounts == before.accounts.insert(args@, record)
                    &&& after.code == before.code
                    &&& after.storage == before.storage
                    &&& account_of(after, args@).balance.as_nat() == prior + attached_deposit
                }))
                &&& (attached_deposit > 0 && args@.len() == 20 && prior + attached_deposit
                    >= u256_bound() ==> r.1 == Some(EvmError::UnknownError) && final(state_update)@ == old(state_update)@)
            }))
            &&& (method_name@ == "withdraw_near"@ ==> ({
                let sender = spec_evm_address(pid);
                let prior = account_of(before, sender).balance.as_nat();
                let amount = vstd::bytes::spec_u128_from_le_bytes(args@);
                &&& (args@.len() != 16 ==> r.1 == Some(EvmError::ArgumentParseError) && final(state_update)@ == old(state_update)@)
                &&& (args@.len() == 16 && amount > prior ==> r.1 == Some(
                    EvmError::InsufficientFunds,
                ) && final(state_update)@ == old(state_update)@)
                &&& (args@.len() == 16 && amount <= prior ==> ({
                    let record = EvmAccount {
                        balance: u256_of(prior - amount),
                        nonce: account_of(before, sender).nonce,
                    };
                    &&& (r.0 matches Some(RunOutcome::Value(out)) && out@ == Seq::<u8>::empty())
                    &&& after.accounts == before.accounts.insert(sender, record)
                    &&& after.code == before.code
                    &&& after.storage == before.storage
                    &&& account_of(after, sender).balance.as_nat() == prior - amount
                }))
            }))
        }),
{
    proof {
        broadcast use vstd::string::group_string_axioms;

        reveal_strlit("deploy_code");
        reveal_strlit("get_code");
        reveal_strlit("call_function");
        reveal_strlit("get_storage_at");
        reveal_strlit("get_balance");
        reveal_strlit("deposit_near");
        reveal_strlit("withdraw_near");
        // the seven method names are pairwise distinct: the lengths tell
        // most apart, a first character the two equal-length pairs
        assert("deploy_code"@.len() == 11);
        assert("get_code"@.len() == 8);
        assert("call_function"@.len() == 13);
        assert("get_storage_at"@.len() == 14);
        assert("get_balance"@.len() == 11);
        assert("deposit_near"@.len() == 12);
        assert("withdraw_near"@.len() == 13);
        assert("deploy_code"@[0] == 'd');
        assert("get_balance"@[0] == 'g');
        assert("call_function"@[0] == 'c');
        assert("withdraw_near"@[0] == 'w');
    }
    let mut local = TrieUpdate::new();
    core::mem::swap(&mut local, state_update);
    let mut context = EvmContext::new(local, account_id, predecessor_id, attached_deposit);
    let result: (Option<RunOutcome>, Option<EvmError>) = if method_name == "deploy_code".to_owned() {
        let request = context.deploy_code(args);
        (Some(RunOutcome::Interpreter(request)), None)
    } else if method_name == "get_code".to_owned() {
        match context.get_code(args) {
            Ok(code) => (Some(RunOutcome::Value(code)), None),
            Err(e) => (None, Some(e)),
        }
    } else if method_name == "call_function".to_owned() {
        match context.call_function(args) {
            Ok(request) => (Some(RunOutcome::Interpreter(request)), None),
            Err(e) => (None, Some(e)),
        }
    } else if method_name == "get_storage_at".to_owned() {
        match context.get_storage_at(args) {
            Ok(value) => (Some(RunOutcome::Value(value)), None),
            Err(e) => (None, Some(e)),
        }
    } else if method_name == "get_balance".to_owned() {
        match context.get_balance(args) {
            Ok(balance) => (Some(RunOutcome::Value(crate::utils::u256_to_vec(&balance))), None),
            Err(e) => (None, Some(e)),
        }
    } else if method_name == "deposit_near".to_owned() {
        match context.deposit_near(args) {
            Ok(balance) => (Some(RunOutcome::Value(crate::utils::u256_to_vec(&balance))), None),
            Err(e) => (None, Some(e)),
        }
    } else if method_name == "withdraw_near".to_owned() {
        match context.withdraw_near(args) {
            Ok(_) => (Some(RunOutcome::Value(Vec::new())), None),
            Err(e) => (None, Some(e)),
        }
    } else {
        (None, Some(EvmError::UnknownError))
    };
    core::mem::swap(state_update, &mut context.trie_update);
    result
}

/// Dropping every trie key prefixed by an address's record key clears
/// exactly that address's record, code and storage from the namespace
/// view.
pub proof fn lemma_ctx_recreate(trie: Map<Seq<u8>, Seq<u8>>, id: Seq<u8>, addr: Seq<u8>)
    requires
        addr.len() == 20,
    ensures
        ({
            let dropped = Set::new(|k: Seq<u8>| key_prefixed(k, spec_account_key(id, addr)));
            let t1 = trie.remove_keys(dropped);
            &&& ctx_accounts(t1, id) == ctx_accounts(trie, id).remove(addr)
            &&& ctx_code(t1, id) == ctx_code(trie, id).remove(addr)
            &&& ctx_storage(t1, id) == ctx_storage(trie, id).remove_keys(
                Set::new(|k: Seq<u8>| key_prefixed(k, addr)),
            )
        }),
{
    let p0 = spec_account_key(id, addr);
    let dropped = Set::new(|k: Seq<u8>| key_prefixed(k, p0));
    let t1 = trie.remove_keys(dropped);
    assert forall|k: Seq<u8>| #[trigger] key_prefixed(spec_contract_data_key(id, k), p0)
        == key_prefixed(k, addr) by {
        lemma_namespace_prefix(id, addr, k);
    }
    assert forall|a: Seq<u8>| a.len() == 20 implies (#[trigger] key_prefixed(a, addr) == (a
        == addr)) by {
        if key_prefixed(a, addr) {
            assert(a.subrange(0, 20) =~= a);
        }
        if a == addr {
            assert(a.subrange(0, 20) =~= addr);
        }
    }
    assert forall|a: Seq<u8>| a.len() == 20 implies (#[trigger] key_prefixed(
        a + seq![CODE_KEY_SUFFIX],
        addr,
    ) == (a == addr)) by {
        if key_prefixed(a + seq![CODE_KEY_SUFFIX], addr) {
            assert((a + seq![CODE_KEY_SUFFIX]).subrange(0, 20) =~= a);
        }
        if a == addr {
            assert((a + seq![CODE_KEY_SUFFIX]).subrange(0, 20) =~= addr);
        }
    }
    assert(ctx_accounts(t1, id) =~= ctx_accounts(trie, id).remove(addr));
    assert(ctx_code(t1, id) =~= ctx_code(trie, id).remove(addr));
    assert(ctx_storage(t1, id) =~= ctx_storage(trie, id).remove_keys(
        Set::new(|k: Seq<u8>| key_prefixed(k, addr)),
    ));
}

/// Two host accounts run logically independent EVM sub-ledgers: a write
/// into one account's namespace leaves every other account's sub-ledger
/// exactly as it was. Holds for any two distinct ids free of the key
/// separator byte, which the host chain's account-id alphabet excludes.
pub proof fn lemma_namespaces_independent(
    trie: Map<Seq<u8>, Seq<u8>>,
    id1: Seq<u8>,
    k: Seq<u8>,
    v: Seq<u8>,
    id2: Seq<u8>,
)
    requires
        id1 != id2,
        forall|i: int| 0 <= i < id1.len() ==> id1[i] != crate::trie::ACCOUNT_DATA_SEPARATOR,
        forall|i: int| 0 <= i < id2.len() ==> id2[i] != crate::trie::ACCOUNT_DATA_SEPARATOR,
    ensures
        ctx_state(trie.insert(spec_contract_data_key(id1, k), v), id2) == ctx_state(trie, id2),
{
    let k0 = spec_contract_data_key(id1, k);
    let t1 = trie.insert(k0, v);
    assert forall|s: Seq<u8>| #[trigger] spec_contract_data_key(id2, s) != k0 by {
        crate::trie::lemma_contract_data_key_ids_distinct(id2, s, id1, k);
    }
    assert(ctx_accounts(t1, id2) =~= ctx_accounts(trie, id2));
    assert(ctx_code(t1, id2) =~= ctx_code(trie, id2));
    assert(ctx_storage(t1, id2) =~= ctx_storage(trie, id2));
}

/// Within one account's namespace, a raw trie key starts with the
/// address's record key exactly when the data key starts with the address.
pub proof fn lemma_namespace_prefix(id: Seq<u8>, addr: Seq<u8>, k: Seq<u8>)
    requires
        addr.len() == 20,
    ensures
        key_prefixed(spec_contract_data_key(id, k), spec_account_key(id, addr)) == key_prefixed(
            k,
            addr,
        ),
{
    let raw = spec_contract_data_key(id, k);
    let p0 = spec_account_key(id, addr);
    let base = id.len() + 2;
    if k.len() >= 20 {
        if key_prefixed(k, addr) {
            assert forall|i: int| 0 <= i < p0.len() implies raw.subrange(0, p0.len() as int)[i]
                == p0[i] by {
                if i >= base {
                    assert(p0[i] == addr[i - base]);
                    assert(raw[i] == k[i - base]);
                    assert(k.subrange(0, 20)[i - base] == k[i - base]);
                }
            }
            assert(raw.subrange(0, p0.len() as int) =~= p0);
        }
        if key_prefixed(raw, p0) {
            assert forall|i: int| 0 <= i < 20 implies k.subrange(0, 20)[i] == addr[i] by {
                assert(raw.subrange(0, p0.len() as int)[base + i] == raw[base + i]);
                assert(raw[base + i] == k[i]);
                assert(p0[base + i] == addr[i]);
            }
            assert(k.subrange(0, 20) =~= addr);
        }
    } else {
        assert(raw.len() < p0.len());
    }
}

} // verus!

