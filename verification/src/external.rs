//! What the market asks of the token contract and of the ledger.
//!
//! The market sends nothing itself. An operation that has something to send
//! returns it as a value, and whoever drives the market passes it on.

use vstd::prelude::*;
use crate::model::opt_name;

verus! {

/// How many payees the market asks the token contract for at most.
pub const MAX_LEN_PAYOUT: u32 = 7;

/// An amount for an account.
#[derive(Debug, PartialEq, Eq)]
pub struct Payment {
    pub receiver_id: String,
    pub amount: u128,
}

/// An amount for an account, as a mathematical value.
pub struct PaymentView {
    pub receiver_id: Seq<char>,
    pub amount: u128,
}

impl View for Payment {
    type V = PaymentView;

    open spec fn view(&self) -> PaymentView {
        PaymentView { receiver_id: self.receiver_id@, amount: self.amount }
    }
}

impl Clone for Payment {
    fn clone(&self) -> (r: Self)
        ensures
            r == *self,
    {
        Payment { receiver_id: self.receiver_id.clone(), amount: self.amount }
    }
}

/// The payments in a vector of payments.
pub open spec fn payments_view(v: Seq<Payment>) -> Seq<PaymentView> {
    v.map_values(|p: Payment| p@)
}

/// What the market asks of the token contract once a purchase is under way:
/// to hand the token to the buyer and to say who is to be paid what. The
/// answer is settled for `receiver_id`, `balance` and `ft_contract_id`.
#[derive(Debug, PartialEq, Eq)]
pub struct TransferRequest {
    /// The token contract to ask.
    pub nft_contract_id: String,
    /// The buyer, who gets the token.
    pub receiver_id: String,
    pub token_id: String,
    /// The seller's approval, which lets the market transfer the token.
    pub approval_id: u64,
    pub memo: String,
    /// What the buyer tendered, to be split among the payees.
    pub balance: u128,
    /// How many payees the answer may name.
    pub max_len_payout: u32,
    /// The fungible token that was tendered; none for the native currency.
    pub ft_contract_id: Option<String>,
}

/// A request to the token contract, as a mathematical value.
pub struct TransferRequestView {
    pub nft_contract_id: Seq<char>,
    pub receiver_id: Seq<char>,
    pub token_id: Seq<char>,
    pub approval_id: u64,
    pub memo: Seq<char>,
    pub balance: u128,
    pub max_len_payout: u32,
    pub ft_contract_id: Option<Seq<char>>,
}

impl View for TransferRequest {
    type V = TransferRequestView;

    open spec fn view(&self) -> TransferRequestView {
        TransferRequestView {
            nft_contract_id: self.nft_contract_id@,
            receiver_id: self.receiver_id@,
            token_id: self.token_id@,
            approval_id: self.approval_id,
            memo: self.memo@,
            balance: self.balance,
            max_len_payout: self.max_len_payout,
            ft_contract_id: opt_name(self.ft_contract_id),
        }
    }
}

/// What becomes of fungible tokens sent to the market.
#[derive(Debug, PartialEq, Eq)]
pub enum TokenTransferOutcome {
    /// The transfer named no token to buy: the amount goes back unused.
    Returned(u128),
    /// A purchase is under way.
    Purchase(TransferRequest),
}

/// How a purchase ended: what is to be paid to whom, and in which currency.
#[derive(Debug, PartialEq, Eq)]
pub struct Settlement {
    /// The payments to send: to the payees as the token contract named
    /// them, or the whole price back to the buyer.
    pub payments: Vec<Payment>,
    /// The fungible token to pay in; none for the native currency.
    pub ft_contract_id: Option<String>,
    /// Whether the buyer is refunded.
    pub refunded: bool,
    /// What the buyer had tendered.
    pub price: u128,
}

impl Settlement {
    /// The memo that goes with each payment in a fungible token.
    pub fn memo(&self) -> (r: String)
        ensures
            r@ == (if self.refunded {
                "Marketplace Refund"@
            } else {
                "Marketplace Royalties"@
            }),
    {
        if self.refunded {
            "Marketplace Refund".to_owned()
        } else {
            "Marketplace Royalties".to_owned()
        }
    }
}

} // verus!
