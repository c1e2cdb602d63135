use crate::types::Address;
use crate::u256::U256;
use vstd::prelude::*;

verus! {

/// The fixed derivation of a host account's EVM address from the raw bytes
/// of its account id: the last 20 bytes, left-padded with zeroes when the
/// id is shorter. The same account id always yields the same address.
pub open spec fn spec_evm_address(id: Seq<u8>) -> Seq<u8> {
    if id.len() >= 20 {
        id.subrange(id.len() - 20, id.len() as int)
    } else {
        Seq::new((20 - id.len()) as nat, |i: int| 0u8) + id
    }
}

/// Derives the EVM address of a host account id.
pub fn near_account_id_to_evm_address(account_id: &Vec<u8>) -> (r: Address)
    ensures
        r.wf(),
        r@ == spec_evm_address(account_id@),
{
    let mut bytes: Vec<u8> = Vec::new();
    if account_id.len() >= 20 {
        let start = account_id.len() - 20;
        let tail = vstd::slice::slice_subrange(account_id.as_slice(), start, account_id.len());
        bytes = vstd::slice::slice_to_vec(tail);
    } else {
        let pad = 20 - account_id.len();
        let mut i: usize = 0;
        while i < pad
            invariant
                i <= pad,
                pad == 20 - account_id@.len(),
                bytes@ =~= Seq::new(i as nat, |j: int| 0u8),
            decreases pad - i,
        {
            bytes.push(0);
            proof {
                assert(bytes@ =~= Seq::new((i + 1) as nat, |j: int| 0u8));
            }
            i = i + 1;
        }
        bytes.extend_from_slice(account_id.as_slice());
        proof {
            assert(bytes@ =~= spec_evm_address(account_id@));
        }
    }
    Address { bytes }
}

/// The raw 20 bytes of an address, as the dispatch surface returns it.
pub fn address_to_vec(address: &Address) -> (r: Vec<u8>)
    ensures
        r@ == address@,
{
    address.to_vec()
}

/// The canonical 32-byte big-endian representation of a 256-bit integer,
/// as the dispatch surface returns it.
pub fn u256_to_vec(value: &U256) -> (r: Vec<u8>)
    ensures
        r@ == value.spec_be_bytes(),
        r@.len() == 32,
{
    value.to_be_bytes()
}

} // verus!
