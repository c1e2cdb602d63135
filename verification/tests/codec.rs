use near_evm_runner::errors::EvmError;
use near_evm_runner::evm_state::{decode_account, encode_account, EvmAccount};
use near_evm_runner::types::{Address, GetCodeArgs, GetStorageAtArgs, WithdrawNearArgs};
use near_evm_runner::u256::U256;

#[test]
fn u256_from_u128_layout() {
    let v = U256::from_u128(100);
    assert_eq!(v.lo, 100);
    assert_eq!(v.hi, 0);
}

#[test]
fn u256_be_bytes_of_100() {
    let v = U256::from_u128(100);
    let bytes = v.to_be_bytes();
    let mut expected = vec![0u8; 32];
    expected[31] = 100;
    assert_eq!(bytes, expected);
}

#[test]
fn u256_be_bytes_of_multi_byte_value() {
    let v = U256::from_u128(0x0102);
    let bytes = v.to_be_bytes();
    assert_eq!(bytes[30], 0x01);
    assert_eq!(bytes[31], 0x02);
    assert_eq!(&bytes[..30], &[0u8; 30][..]);
}

#[test]
fn u256_add_carries_across_limbs() {
    let a = U256 { lo: u128::MAX, hi: 0 };
    let one = U256::from_u128(1);
    let sum = a.checked_add(one).unwrap();
    assert_eq!(sum.lo, 0);
    assert_eq!(sum.hi, 1);
}

#[test]
fn u256_add_overflow_is_none() {
    let max = U256 { lo: u128::MAX, hi: u128::MAX };
    let one = U256::from_u128(1);
    assert!(max.checked_add(one).is_none());
}

#[test]
fn u256_sub_borrows_across_limbs() {
    let a = U256 { lo: 0, hi: 1 };
    let one = U256::from_u128(1);
    let diff = a.checked_sub(one).unwrap();
    assert_eq!(diff.lo, u128::MAX);
    assert_eq!(diff.hi, 0);
}

#[test]
fn u256_sub_underflow_is_none() {
    let a = U256::from_u128(5);
    let b = U256::from_u128(6);
    assert!(a.checked_sub(b).is_none());
}

#[test]
fn u256_ordering() {
    let small = U256 { lo: u128::MAX, hi: 0 };
    let large = U256 { lo: 0, hi: 1 };
    assert!(small.lt(large));
    assert!(!large.lt(small));
    assert!(!small.lt(small));
}

#[test]
fn u256_le_bytes_round_trip() {
    let v = U256 { lo: 0xdead_beef, hi: 7 };
    let bytes = v.to_le_bytes();
    assert_eq!(bytes.len(), 32);
    let back = U256::from_le_bytes(bytes.as_slice());
    assert_eq!(back, v);
}

#[test]
fn account_codec_round_trip() {
    let record = EvmAccount { balance: U256::from_u128(42), nonce: U256::from_u128(3) };
    let encoded = encode_account(&record);
    assert_eq!(encoded.len(), 64);
    let decoded = decode_account(encoded.as_slice()).unwrap();
    assert_eq!(decoded, record);
}

#[test]
fn account_decode_rejects_wrong_length() {
    assert!(decode_account(&[0u8; 63]).is_none());
    assert!(decode_account(&[0u8; 65]).is_none());
    assert!(decode_account(&[]).is_none());
}

#[test]
fn address_from_slice_checks_length() {
    assert!(Address::from_slice(&[7u8; 20]).is_ok());
    assert_eq!(Address::from_slice(&[7u8; 19]).unwrap_err(), EvmError::ArgumentParseError);
    assert_eq!(Address::from_slice(&[7u8; 21]).unwrap_err(), EvmError::ArgumentParseError);
}

#[test]
fn get_code_args_decode_checks_length() {
    let ok = GetCodeArgs::decode(&[9u8; 20]).unwrap();
    assert_eq!(ok.address.bytes, vec![9u8; 20]);
    assert_eq!(GetCodeArgs::decode(&[9u8; 19]).unwrap_err(), EvmError::ArgumentParseError);
}

#[test]
fn get_storage_at_args_decode_splits_fields() {
    let mut args = vec![1u8; 20];
    args.extend_from_slice(&[2u8; 32]);
    let decoded = GetStorageAtArgs::decode(args.as_slice()).unwrap();
    assert_eq!(decoded.address.bytes, vec![1u8; 20]);
    assert_eq!(decoded.key, vec![2u8; 32]);
}

#[test]
fn get_storage_at_args_decode_rejects_wrong_lengths() {
    for len in [0usize, 51, 53] {
        let args = vec![0u8; len];
        assert_eq!(
            GetStorageAtArgs::decode(args.as_slice()).unwrap_err(),
            EvmError::ArgumentParseError
        );
    }
}

#[test]
fn withdraw_args_decode_little_endian() {
    let amount: u128 = 300;
    let decoded = WithdrawNearArgs::decode(&amount.to_le_bytes()).unwrap();
    assert_eq!(decoded.amount, 300);
}

#[test]
fn withdraw_args_decode_rejects_wrong_lengths() {
    assert_eq!(WithdrawNearArgs::decode(&[0u8; 15]).unwrap_err(), EvmError::ArgumentParseError);
    assert_eq!(WithdrawNearArgs::decode(&[0u8; 17]).unwrap_err(), EvmError::ArgumentParseError);
}
