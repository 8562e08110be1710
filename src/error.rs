//! Errors of the trade executor. Every one aborts the operation with no
//! change to the ledger.

use vstd::prelude::*;

verus! {

#[derive(Clone, Copy, Debug, PartialEq, Eq, Structural)]
pub enum ContractError {
    /// The address has no membership enabled.
    IssuerNotRegistered {},
    /// The address already has a membership enabled.
    MembershipAlreadyEnabled {},
    /// A trade of zero keys.
    InvalidAmount {},
    InsufficientFundsToPayDuringBuy { needed: u128, available: u128 },
    InsufficientFundsToPayDuringSell { needed: u128, available: u128 },
    InsufficientKeysToSell { sell: u128, available: u128 },
    CannotSellLastKey { sell: u128, total_supply: u128 },
    /// An amount left the range of `u128`.
    Overflow {},
}

} // verus!
