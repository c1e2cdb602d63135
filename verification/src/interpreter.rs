use crate::types::Address;
use crate::u256::U256;
use vstd::prelude::*;

verus! {

/// How the interpreter derives the address of a newly created contract.
pub enum CreateScheme {
    /// From the sender's address and its current nonce.
    FromSenderAndNonce,
}

/// What the interpreter is asked to run.
pub enum InterpreterAction {
    /// Contract creation: execute `bytecode` as an init program and store
    /// the code it returns at the derived address.
    Create { scheme: CreateScheme, bytecode: Vec<u8> },
    /// A message call into the contract deployed at `target`, with `input`
    /// as call data.
    Call { target: Address, input: Vec<u8> },
}

/// One prepared invocation of the bytecode interpreter, the external
/// collaborator of this layer. The dispatch layer fixes every field here;
/// the interpreter executes the action against an `EvmState` backend at
/// the given depth and reports either output bytes or a typed execution
/// failure, which the dispatcher surfaces unchanged.
pub struct InterpreterRequest {
    /// The EVM address the execution runs as.
    pub sender: Address,
    /// The origin of the whole call chain; at depth zero, the sender.
    pub origin: Address,
    /// Native value forwarded with the execution, when any.
    pub value: Option<U256>,
    /// Nesting depth; a dispatched call always starts at zero.
    pub call_depth: u64,
    /// Whether a successful execution's frame is merged into the backing
    /// state.
    pub should_commit: bool,
    pub action: InterpreterAction,
}

} // verus!
