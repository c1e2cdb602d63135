use near_evm_runner::errors::EvmError;
use near_evm_runner::evm_state::{EvmAccount, EvmState};
use near_evm_runner::interpreter::{CreateScheme, InterpreterAction};
use near_evm_runner::trie::TrieUpdate;
use near_evm_runner::types::Address;
use near_evm_runner::u256::U256;
use near_evm_runner::{run_evm, EvmContext, RunOutcome};

fn value_of(outcome: Option<RunOutcome>) -> Vec<u8> {
    match outcome.expect("expected an outcome") {
        RunOutcome::Value(bytes) => bytes,
        RunOutcome::Interpreter(_) => panic!("expected an encoded value"),
    }
}

fn be32(n: u8) -> Vec<u8> {
    let mut bytes = vec![0u8; 32];
    bytes[31] = n;
    bytes
}

#[test]
fn deposit_credits_the_zero_address_under_alice() {
    let mut trie = TrieUpdate::new();
    let (outcome, error) = run_evm(
        &mut trie,
        "alice".to_string(),
        "".to_string(),
        100,
        "deposit_near".to_string(),
        vec![0u8; 20],
    );
    assert!(error.is_none());
    assert_eq!(value_of(outcome), be32(100));

    let (outcome, error) = run_evm(
        &mut trie,
        "alice".to_string(),
        "".to_string(),
        0,
        "get_balance".to_string(),
        vec![0u8; 20],
    );
    assert!(error.is_none());
    assert_eq!(value_of(outcome), be32(100));
}

#[test]
fn withdraw_more_than_balance_fails_and_changes_nothing() {
    let mut trie = TrieUpdate::new();
    // the empty caller id derives to the zero address, the one credited here
    run_evm(
        &mut trie,
        "alice".to_string(),
        "".to_string(),
        100,
        "deposit_near".to_string(),
        vec![0u8; 20],
    );
    let amount: u128 = 150;
    let (outcome, error) = run_evm(
        &mut trie,
        "alice".to_string(),
        "".to_string(),
        0,
        "withdraw_near".to_string(),
        amount.to_le_bytes().to_vec(),
    );
    assert!(outcome.is_none());
    assert_eq!(error.unwrap(), EvmError::InsufficientFunds);

    let (outcome, _) = run_evm(
        &mut trie,
        "alice".to_string(),
        "".to_string(),
        0,
        "get_balance".to_string(),
        vec![0u8; 20],
    );
    assert_eq!(value_of(outcome), be32(100));
}

#[test]
fn withdraw_within_balance_debits_exactly() {
    let mut trie = TrieUpdate::new();
    run_evm(
        &mut trie,
        "alice".to_string(),
        "".to_string(),
        100,
        "deposit_near".to_string(),
        vec![0u8; 20],
    );
    let amount: u128 = 60;
    let (outcome, error) = run_evm(
        &mut trie,
        "alice".to_string(),
        "".to_string(),
        0,
        "withdraw_near".to_string(),
        amount.to_le_bytes().to_vec(),
    );
    assert!(error.is_none());
    assert_eq!(value_of(outcome), Vec::<u8>::new());

    let (outcome, _) = run_evm(
        &mut trie,
        "alice".to_string(),
        "".to_string(),
        0,
        "get_balance".to_string(),
        vec![0u8; 20],
    );
    assert_eq!(value_of(outcome), be32(40));
}

#[test]
fn deposit_without_attached_tokens_fails() {
    let mut trie = TrieUpdate::new();
    let (outcome, error) = run_evm(
        &mut trie,
        "alice".to_string(),
        "bob".to_string(),
        0,
        "deposit_near".to_string(),
        vec![0u8; 20],
    );
    assert!(outcome.is_none());
    assert_eq!(error.unwrap(), EvmError::MissingDeposit);
    // the record is still the all-zero default
    let (outcome, _) = run_evm(
        &mut trie,
        "alice".to_string(),
        "bob".to_string(),
        0,
        "get_balance".to_string(),
        vec![0u8; 20],
    );
    assert_eq!(value_of(outcome), be32(0));
}

#[test]
fn deposit_to_the_callers_derived_address() {
    let mut trie = TrieUpdate::new();
    let sender = near_evm_runner::utils::near_account_id_to_evm_address(&b"bob".to_vec());
    let (outcome, error) = run_evm(
        &mut trie,
        "alice".to_string(),
        "bob".to_string(),
        25,
        "deposit_near".to_string(),
        sender.bytes.clone(),
    );
    assert!(error.is_none());
    assert_eq!(value_of(outcome), be32(25));
    // bob can then withdraw from the derived address
    let amount: u128 = 20;
    let (outcome, error) = run_evm(
        &mut trie,
        "alice".to_string(),
        "bob".to_string(),
        0,
        "withdraw_near".to_string(),
        amount.to_le_bytes().to_vec(),
    );
    assert!(error.is_none());
    assert_eq!(value_of(outcome), Vec::<u8>::new());
    let (outcome, _) = run_evm(
        &mut trie,
        "alice".to_string(),
        "bob".to_string(),
        0,
        "get_balance".to_string(),
        sender.bytes,
    );
    assert_eq!(value_of(outcome), be32(5));
}

#[test]
fn unknown_method_fails_without_state_access() {
    let mut trie = TrieUpdate::new();
    let (outcome, error) = run_evm(
        &mut trie,
        "alice".to_string(),
        "bob".to_string(),
        10,
        "transmogrify".to_string(),
        vec![1, 2, 3],
    );
    assert!(outcome.is_none());
    assert_eq!(error.unwrap(), EvmError::UnknownError);
}

#[test]
fn get_storage_at_rejects_malformed_lengths() {
    for len in [0usize, 51, 53] {
        let mut trie = TrieUpdate::new();
        let (outcome, error) = run_evm(
            &mut trie,
            "alice".to_string(),
            "bob".to_string(),
            0,
            "get_storage_at".to_string(),
            vec![0u8; len],
        );
        assert!(outcome.is_none());
        assert_eq!(error.unwrap(), EvmError::ArgumentParseError);
    }
}

#[test]
fn get_storage_at_of_untouched_slot_is_zero() {
    let mut trie = TrieUpdate::new();
    let (outcome, error) = run_evm(
        &mut trie,
        "alice".to_string(),
        "bob".to_string(),
        0,
        "get_storage_at".to_string(),
        vec![0u8; 52],
    );
    assert!(error.is_none());
    assert_eq!(value_of(outcome), vec![0u8; 32]);
}

#[test]
fn get_storage_at_reads_a_written_slot() {
    let mut context =
        EvmContext::new(TrieUpdate::new(), "alice".to_string(), "bob".to_string(), 0);
    let address = Address { bytes: vec![3u8; 20] };
    let slot = vec![4u8; 32];
    let word = vec![9u8; 32];
    context.write_contract_storage(&address, &slot, &word);
    let mut trie = context.trie_update;
    let mut args = vec![3u8; 20];
    args.extend_from_slice(&slot);
    let (outcome, error) = run_evm(
        &mut trie,
        "alice".to_string(),
        "bob".to_string(),
        0,
        "get_storage_at".to_string(),
        args,
    );
    assert!(error.is_none());
    assert_eq!(value_of(outcome), word);
}

#[test]
fn get_code_of_fresh_address_is_empty() {
    let mut trie = TrieUpdate::new();
    let (outcome, error) = run_evm(
        &mut trie,
        "alice".to_string(),
        "bob".to_string(),
        0,
        "get_code".to_string(),
        vec![0u8; 20],
    );
    assert!(error.is_none());
    assert_eq!(value_of(outcome), Vec::<u8>::new());
}

#[test]
fn get_code_returns_deployed_bytecode() {
    let mut context =
        EvmContext::new(TrieUpdate::new(), "alice".to_string(), "bob".to_string(), 0);
    let address = Address { bytes: vec![5u8; 20] };
    context.set_code(&address, &[0x60, 0x60]);
    let mut trie = context.trie_update;
    let (outcome, error) = run_evm(
        &mut trie,
        "alice".to_string(),
        "bob".to_string(),
        0,
        "get_code".to_string(),
        vec![5u8; 20],
    );
    assert!(error.is_none());
    assert_eq!(value_of(outcome), vec![0x60, 0x60]);
}

#[test]
fn get_balance_rejects_malformed_length() {
    let mut trie = TrieUpdate::new();
    let (outcome, error) = run_evm(
        &mut trie,
        "alice".to_string(),
        "bob".to_string(),
        0,
        "get_balance".to_string(),
        vec![0u8; 19],
    );
    assert!(outcome.is_none());
    assert_eq!(error.unwrap(), EvmError::ArgumentParseError);
}

#[test]
fn withdraw_rejects_malformed_length() {
    let mut trie = TrieUpdate::new();
    let (outcome, error) = run_evm(
        &mut trie,
        "alice".to_string(),
        "bob".to_string(),
        0,
        "withdraw_near".to_string(),
        vec![0u8; 15],
    );
    assert!(outcome.is_none());
    assert_eq!(error.unwrap(), EvmError::ArgumentParseError);
}

#[test]
fn deploy_code_prepares_an_interpreter_creation() {
    let mut trie = TrieUpdate::new();
    let (outcome, error) = run_evm(
        &mut trie,
        "alice".to_string(),
        "bob".to_string(),
        100,
        "deploy_code".to_string(),
        vec![0xaa, 0xbb],
    );
    assert!(error.is_none());
    let request = match outcome.unwrap() {
        RunOutcome::Interpreter(request) => request,
        RunOutcome::Value(_) => panic!("expected an interpreter invocation"),
    };
    let sender = near_evm_runner::utils::near_account_id_to_evm_address(&b"bob".to_vec());
    assert_eq!(request.sender.bytes, sender.bytes);
    assert_eq!(request.origin.bytes, sender.bytes);
    assert_eq!(request.value.unwrap(), U256::from_u128(100));
    assert_eq!(request.call_depth, 0);
    assert!(request.should_commit);
    match request.action {
        InterpreterAction::Create { scheme, bytecode } => {
            assert!(matches!(scheme, CreateScheme::FromSenderAndNonce));
            assert_eq!(bytecode, vec![0xaa, 0xbb]);
        }
        InterpreterAction::Call { .. } => panic!("expected a creation"),
    }
}

#[test]
fn call_function_splits_target_and_input() {
    let mut trie = TrieUpdate::new();
    let mut args = vec![7u8; 20];
    args.extend_from_slice(&[1, 2, 3]);
    let (outcome, error) = run_evm(
        &mut trie,
        "alice".to_string(),
        "bob".to_string(),
        0,
        "call_function".to_string(),
        args,
    );
    assert!(error.is_none());
    let request = match outcome.unwrap() {
        RunOutcome::Interpreter(request) => request,
        RunOutcome::Value(_) => panic!("expected an interpreter invocation"),
    };
    // no value travels with a zero deposit
    assert!(request.value.is_none());
    match request.action {
        InterpreterAction::Call { target, input } => {
            assert_eq!(target.bytes, vec![7u8; 20]);
            assert_eq!(input, vec![1, 2, 3]);
        }
        InterpreterAction::Create { .. } => panic!("expected a message call"),
    }
}

#[test]
fn call_function_rejects_short_buffer() {
    let mut trie = TrieUpdate::new();
    let (outcome, error) = run_evm(
        &mut trie,
        "alice".to_string(),
        "bob".to_string(),
        0,
        "call_function".to_string(),
        vec![0u8; 19],
    );
    assert!(outcome.is_none());
    assert_eq!(error.unwrap(), EvmError::ArgumentParseError);
}

#[test]
fn deposit_overflowing_a_balance_reports_unknown_error() {
    let mut context =
        EvmContext::new(TrieUpdate::new(), "alice".to_string(), "bob".to_string(), 1);
    let address = Address { bytes: vec![0u8; 20] };
    let saturated =
        EvmAccount { balance: U256 { lo: u128::MAX, hi: u128::MAX }, nonce: U256::zero() };
    context.set_account(&address, &saturated);
    let outcome = context.deposit_near(vec![0u8; 20]);
    assert_eq!(outcome.unwrap_err(), EvmError::UnknownError);
    assert_eq!(context.get_account(&address), saturated);
}

#[test]
fn deposit_accumulates_on_a_prior_balance() {
    let mut trie = TrieUpdate::new();
    for deposit in [100u128, 40] {
        run_evm(
            &mut trie,
            "alice".to_string(),
            "bob".to_string(),
            deposit,
            "deposit_near".to_string(),
            vec![0u8; 20],
        );
    }
    let (outcome, _) = run_evm(
        &mut trie,
        "alice".to_string(),
        "bob".to_string(),
        0,
        "get_balance".to_string(),
        vec![0u8; 20],
    );
    assert_eq!(value_of(outcome), be32(140));
}

#[test]
fn large_deposit_encodes_across_bytes() {
    let mut trie = TrieUpdate::new();
    let deposit: u128 = (1u128 << 80) + 5;
    let (outcome, error) = run_evm(
        &mut trie,
        "alice".to_string(),
        "bob".to_string(),
        deposit,
        "deposit_near".to_string(),
        vec![0u8; 20],
    );
    assert!(error.is_none());
    let mut expected = vec![0u8; 16];
    expected.extend_from_slice(&deposit.to_be_bytes());
    assert_eq!(value_of(outcome), expected);
}
