//! Plain values shared by the ledger and the pool.

use vstd::prelude::*;

verus! {

/// An identity known to the platform: an account or a contract.
pub type Address = u64;

/// What the platform tells an operation about its invocation.
#[derive(Clone, Copy, Debug, PartialEq, Eq, Structural)]
pub struct Context {
    /// The identity whose authorization backs this invocation.
    pub caller: Address,
    /// The identity of the contract that is being invoked.
    pub contract: Address,
    /// The current value of the platform's ledger sequence counter.
    pub sequence: u32,
}

/// Why an operation was aborted. An aborted operation changes nothing.
#[derive(Clone, Copy, Debug, PartialEq, Eq, Structural)]
pub enum ContractError {
    /// `initialize` was called on a contract that already has an admin.
    AlreadyInitialized,
    /// The operation needs a configuration that `initialize` has not set yet.
    NotInitialized,
    /// The caller is not the identity that must authorize the action.
    Unauthorized,
    /// An amount that must be positive is zero or negative.
    NonPositiveAmount,
    /// An amount spent from an allowance is negative.
    NegativeAmount,
    /// The expiration of an allowance is not after the current ledger sequence.
    ExpirationNotInFuture,
    /// The integer square root was asked of a negative number.
    NegativeInput,
    /// The balance of the paying identity is below the amount.
    InsufficientBalance,
    /// The live allowance of the spender is below the amount.
    InsufficientAllowance,
    /// A deposit would mint fewer shares than the provider asked for.
    InsufficientShares,
    /// A computed amount is below the minimum that the caller accepts.
    SlippageExceeded,
    /// A swap was attempted while a reserve is zero.
    PoolEmpty,
    /// A provider tried to redeem more shares than it holds.
    InsufficientShareBalance,
    /// A division by zero.
    DivisionByZero,
    /// An intermediate result does not fit in a signed 128-bit integer.
    ArithmeticOverflow,
}

} // verus!
