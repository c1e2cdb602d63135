use vstd::prelude::*;

verus! {

/// The error taxonomy surfaced by the dispatch layer.
///
/// Every dispatched operation returns either a value or exactly one of these
/// kinds; the dispatcher translates them unchanged into the host runtime's
/// outcome/error pair.
#[derive(Clone, Copy, Debug, PartialEq, Eq, Structural)]
pub enum EvmError {
    /// The raw argument buffer does not match the layout the requested
    /// method expects.
    ArgumentParseError,
    /// A deposit-requiring operation was invoked with zero attached native
    /// tokens.
    MissingDeposit,
    /// A debit was requested for more than the current balance.
    InsufficientFunds,
    /// The method name has no registered handler, or an unclassified
    /// condition (such as a balance overflowing its 256-bit representation)
    /// occurred.
    UnknownError,
}

} // verus!
