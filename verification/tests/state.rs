use near_evm_runner::errors::EvmError;
use near_evm_runner::evm_state::{EvmAccount, EvmState, StateStore};
use near_evm_runner::trie::TrieUpdate;
use near_evm_runner::types::Address;
use near_evm_runner::u256::U256;
use near_evm_runner::utils::near_account_id_to_evm_address;
use near_evm_runner::EvmContext;

fn addr(byte: u8) -> Address {
    Address { bytes: vec![byte; 20] }
}

fn fresh_context() -> EvmContext {
    EvmContext::new(TrieUpdate::new(), "alice".to_string(), "bob".to_string(), 0)
}

#[test]
fn fresh_store_reads_default_record() {
    let store = StateStore::new();
    let record = store.get_account(&addr(1));
    assert_eq!(record.balance, U256::zero());
    assert_eq!(record.nonce, U256::zero());
    assert!(store.code_at(&addr(1)).is_none());
}

#[test]
fn fresh_context_reads_default_record() {
    let context = fresh_context();
    let record = context.get_account(&addr(1));
    assert_eq!(record.balance, U256::zero());
    assert_eq!(record.nonce, U256::zero());
    assert!(context.code_at(&addr(1)).is_none());
}

#[test]
fn store_set_then_get_round_trip() {
    let mut store = StateStore::new();
    let record = EvmAccount { balance: U256::from_u128(77), nonce: U256::from_u128(5) };
    store.set_account(&addr(2), &record);
    let back = store.get_account(&addr(2));
    assert_eq!(back.balance, record.balance);
    assert_eq!(back.nonce, record.nonce);
}

#[test]
fn context_set_then_get_round_trip() {
    let mut context = fresh_context();
    let record = EvmAccount { balance: U256::from_u128(77), nonce: U256::from_u128(5) };
    context.set_account(&addr(2), &record);
    let back = context.get_account(&addr(2));
    assert_eq!(back, record);
    // another address still reads the default
    assert_eq!(context.get_account(&addr(3)), EvmAccount::default());
}

#[test]
fn context_code_round_trip() {
    let mut context = fresh_context();
    context.set_code(&addr(4), &[0xde, 0xad]);
    assert_eq!(context.code_at(&addr(4)).unwrap(), vec![0xde, 0xad]);
    assert!(context.code_at(&addr(5)).is_none());
}

#[test]
fn context_storage_round_trip() {
    let mut context = fresh_context();
    let slot = vec![9u8; 32];
    let value = vec![1u8; 32];
    let prev = context.write_contract_storage(&addr(6), &slot, &value);
    assert!(prev.is_none());
    assert_eq!(context.read_contract_storage(&addr(6), &slot).unwrap(), value);
    let other_slot = vec![8u8; 32];
    assert!(context.read_contract_storage(&addr(6), &other_slot).is_none());
}

#[test]
fn balance_helpers_add_and_sub() {
    let mut store = StateStore::new();
    assert!(store.add_balance(&addr(7), U256::from_u128(10)).is_ok());
    assert_eq!(store.balance_of(&addr(7)), U256::from_u128(10));
    store.sub_balance(&addr(7), U256::from_u128(4));
    assert_eq!(store.balance_of(&addr(7)), U256::from_u128(6));
}

#[test]
fn add_balance_overflow_reports_unknown_error() {
    let mut store = StateStore::new();
    let record = EvmAccount { balance: U256 { lo: u128::MAX, hi: u128::MAX }, nonce: U256::zero() };
    store.set_account(&addr(8), &record);
    let outcome = store.add_balance(&addr(8), U256::from_u128(1));
    assert_eq!(outcome.unwrap_err(), EvmError::UnknownError);
    // the record is unchanged
    assert_eq!(store.get_account(&addr(8)), record);
}

#[test]
fn increment_nonce_steps_by_one() {
    let mut store = StateStore::new();
    store.increment_nonce(&addr(9));
    store.increment_nonce(&addr(9));
    assert_eq!(store.nonce_of(&addr(9)), U256::from_u128(2));
    assert_eq!(store.balance_of(&addr(9)), U256::zero());
}

#[test]
fn commit_changes_merges_frame_with_frame_priority() {
    let mut parent = StateStore::new();
    let old_record = EvmAccount { balance: U256::from_u128(1), nonce: U256::zero() };
    let new_record = EvmAccount { balance: U256::from_u128(2), nonce: U256::zero() };
    parent.set_account(&addr(10), &old_record);
    parent.set_code(&addr(10), &[1]);

    let mut frame = StateStore::new();
    frame.set_account(&addr(10), &new_record);
    frame.set_account(&addr(11), &new_record);
    frame.set_code(&addr(11), &[2, 3]);
    frame.write_contract_storage(&addr(11), &vec![0u8; 32], &vec![5u8; 32]);

    parent.commit_changes(&frame);
    assert_eq!(parent.get_account(&addr(10)), new_record);
    assert_eq!(parent.get_account(&addr(11)), new_record);
    assert_eq!(parent.code_at(&addr(10)).unwrap(), vec![1]);
    assert_eq!(parent.code_at(&addr(11)).unwrap(), vec![2, 3]);
    assert_eq!(parent.read_contract_storage(&addr(11), &vec![0u8; 32]).unwrap(), vec![5u8; 32]);
}

#[test]
fn context_commit_changes_merges_frame() {
    let mut context = fresh_context();
    let record = EvmAccount { balance: U256::from_u128(9), nonce: U256::from_u128(1) };
    let mut frame = StateStore::new();
    frame.set_account(&addr(12), &record);
    frame.set_code(&addr(12), &[7, 7]);
    context.commit_changes(&frame);
    assert_eq!(context.get_account(&addr(12)), record);
    assert_eq!(context.code_at(&addr(12)).unwrap(), vec![7, 7]);
}

#[test]
fn recreate_clears_an_address_only() {
    let mut context = fresh_context();
    let record = EvmAccount { balance: U256::from_u128(3), nonce: U256::from_u128(4) };
    context.set_account(&addr(13), &record);
    context.set_code(&addr(13), &[9]);
    context.write_contract_storage(&addr(13), &vec![1u8; 32], &vec![2u8; 32]);
    context.set_account(&addr(14), &record);

    context.recreate(&addr(13));
    assert_eq!(context.get_account(&addr(13)), EvmAccount::default());
    assert!(context.code_at(&addr(13)).is_none());
    assert!(context.read_contract_storage(&addr(13), &vec![1u8; 32]).is_none());
    // the neighbouring address is untouched
    assert_eq!(context.get_account(&addr(14)), record);
}

#[test]
fn store_recreate_clears_an_address() {
    let mut store = StateStore::new();
    let record = EvmAccount { balance: U256::from_u128(3), nonce: U256::zero() };
    store.set_account(&addr(15), &record);
    store.set_code(&addr(15), &[9]);
    store.write_contract_storage(&addr(15), &vec![1u8; 32], &vec![2u8; 32]);
    store.recreate(&addr(15));
    assert_eq!(store.get_account(&addr(15)), EvmAccount::default());
    assert!(store.code_at(&addr(15)).is_none());
    assert!(store.read_contract_storage(&addr(15), &vec![1u8; 32]).is_none());
}

#[test]
fn address_derivation_is_deterministic_and_padded() {
    let bob = near_account_id_to_evm_address(&b"bob".to_vec());
    let bob_again = near_account_id_to_evm_address(&b"bob".to_vec());
    assert_eq!(bob.bytes, bob_again.bytes);
    assert_eq!(bob.bytes.len(), 20);
    let mut expected = vec![0u8; 17];
    expected.extend_from_slice(b"bob");
    assert_eq!(bob.bytes, expected);
    // the empty id derives to the zero address
    let zero = near_account_id_to_evm_address(&Vec::new());
    assert_eq!(zero.bytes, vec![0u8; 20]);
    // a long id keeps its last twenty bytes
    let long = near_account_id_to_evm_address(&b"a-very-long-account-id.near".to_vec());
    assert_eq!(long.bytes, b"long-account-id.near".to_vec());
}

#[test]
fn namespaces_of_two_host_accounts_are_independent() {
    let record = EvmAccount { balance: U256::from_u128(50), nonce: U256::zero() };
    let mut alice = EvmContext::new(TrieUpdate::new(), "alice".to_string(), "p".to_string(), 0);
    alice.set_account(&addr(16), &record);
    // carry alice's trie into a context owned by another host account
    let mut carol = EvmContext::new(alice.trie_update, "carol".to_string(), "p".to_string(), 0);
    assert_eq!(carol.get_account(&addr(16)), EvmAccount::default());
    carol.set_account(&addr(16), &EvmAccount { balance: U256::from_u128(60), nonce: U256::zero() });
    let alice_again = EvmContext::new(carol.trie_update, "alice".to_string(), "p".to_string(), 0);
    assert_eq!(alice_again.get_account(&addr(16)), record);
}
