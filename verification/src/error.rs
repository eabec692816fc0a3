//! Why the market refuses a call.

use vstd::prelude::*;

verus! {

/// The reason a call was refused. A refused call leaves the market as it was.
#[derive(Clone, Copy, Debug, PartialEq, Eq, Structural)]
pub enum MarketError {
    /// No listing under the given contract and token.
    SaleNotFound,
    /// The caller is not the account that the operation belongs to.
    Unauthorized,
    /// The fungible token is not among those approved for listings.
    UnapprovedPaymentToken,
    /// The approval came straight from the signer, not through a token contract.
    InvalidApprovalOrigin,
    /// The signer's prepaid storage does not cover one more listing.
    InsufficientStorage {
        /// What is missing for the next listing.
        shortfall: u128,
    },
    /// The message of the approval held no sale conditions.
    InvalidSaleTerms,
    /// A storage deposit below the cost of one listing.
    InsufficientDeposit,
    /// The listing is to be paid in another currency.
    WrongCurrency,
    /// The seller tried to buy the own listing.
    SelfPurchase,
    /// Less was tendered than the listing asks.
    InsufficientFunds,
    /// An offer with nothing attached.
    ZeroDeposit,
    /// The call must carry exactly one unit of the smallest denomination.
    RequiresOneYocto,
    /// The deposit would take the balance past what a balance can hold.
    BalanceOverflow,
}

} // verus!
