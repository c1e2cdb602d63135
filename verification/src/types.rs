use crate::errors::EvmError;
use vstd::bytes::{spec_u128_from_le_bytes, spec_u128_to_le_bytes, u128_from_le_bytes};
use vstd::prelude::*;

verus! {

/// A 20-byte EVM address.
#[derive(Debug)]
pub struct Address {
    pub bytes: Vec<u8>,
}

impl View for Address {
    type V = Seq<u8>;

    open spec fn view(&self) -> Seq<u8> {
        self.bytes@
    }
}

impl Address {
    /// Every address holds exactly 20 bytes.
    pub open spec fn wf(&self) -> bool {
        self@.len() == 20
    }

    /// Reads an address out of a raw buffer that must hold exactly 20 bytes.
    pub fn from_slice(s: &[u8]) -> (r: Result<Address, EvmError>)
        ensures
            match r {
                Ok(a) => s@.len() == 20 && a.wf() && a@ == s@,
                Err(e) => s@.len() != 20 && e == EvmError::ArgumentParseError,
            },
    {
        if s.len() == 20 {
            Ok(Address { bytes: vstd::slice::slice_to_vec(s) })
        } else {
            Err(EvmError::ArgumentParseError)
        }
    }

    /// The raw 20 bytes of the address.
    pub fn to_vec(&self) -> (r: Vec<u8>)
        ensures
            r@ == self@,
    {
        vstd::slice::slice_to_vec(self.bytes.as_slice())
    }
}

/// Arguments of the `get_code` method: one address, nothing else.
#[derive(Debug)]
pub struct GetCodeArgs {
    pub address: Address,
}

impl GetCodeArgs {
    /// Accepts exactly a 20-byte buffer.
    pub fn decode(args: &[u8]) -> (r: Result<GetCodeArgs, EvmError>)
        ensures
            match r {
                Ok(a) => args@.len() == 20 && a.address.wf() && a.address@ == args@,
                Err(e) => args@.len() != 20 && e == EvmError::ArgumentParseError,
            },
    {
        match Address::from_slice(args) {
            Ok(address) => Ok(GetCodeArgs { address }),
            Err(e) => Err(e),
        }
    }
}

/// Arguments of the `get_storage_at` method: an address followed by a
/// 32-byte storage slot key.
#[derive(Debug)]
pub struct GetStorageAtArgs {
    pub address: Address,
    pub key: Vec<u8>,
}

impl GetStorageAtArgs {
    /// Accepts exactly a 52-byte buffer: 20 address bytes, then 32 slot bytes.
    pub fn decode(args: &[u8]) -> (r: Result<GetStorageAtArgs, EvmError>)
        ensures
            match r {
                Ok(a) => {
                    &&& args@.len() == 52
                    &&& a.address.wf()
                    &&& a.address@ == args@.subrange(0, 20)
                    &&& a.key@ == args@.subrange(20, 52)
                    &&& a.key@.len() == 32
                },
                Err(e) => args@.len() != 52 && e == EvmError::ArgumentParseError,
            },
    {
        if args.len() == 52 {
            let address_part = vstd::slice::slice_subrange(args, 0, 20);
            let key_part = vstd::slice::slice_subrange(args, 20, 52);
            Ok(
                GetStorageAtArgs {
                    address: Address { bytes: vstd::slice::slice_to_vec(address_part) },
                    key: vstd::slice::slice_to_vec(key_part),
                },
            )
        } else {
            Err(EvmError::ArgumentParseError)
        }
    }
}

/// Arguments of the `withdraw_near` method: an unsigned amount of native
/// tokens, carried as its 16-byte little-endian representation.
#[derive(Debug)]
pub struct WithdrawNearArgs {
    pub amount: u128,
}

impl WithdrawNearArgs {
    /// Accepts exactly a 16-byte buffer holding the amount little-endian.
    pub fn decode(args: &[u8]) -> (r: Result<WithdrawNearArgs, EvmError>)
        ensures
            match r {
                Ok(a) => {
                    &&& args@.len() == 16
                    &&& a.amount == spec_u128_from_le_bytes(args@)
                    &&& spec_u128_to_le_bytes(a.amount) == args@
                },
                Err(e) => args@.len() != 16 && e == EvmError::ArgumentParseError,
            },
    {
        if args.len() == 16 {
            proof {
                vstd::bytes::lemma_auto_spec_u128_to_from_le_bytes();
            }
            Ok(WithdrawNearArgs { amount: u128_from_le_bytes(args) })
        } else {
            Err(EvmError::ArgumentParseError)
        }
    }
}

} // verus!
