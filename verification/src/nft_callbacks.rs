//! What arrives with an approval or a token transfer, and the listing of an
//! approved token.

use vstd::prelude::*;
use crate::error::MarketError;
use crate::model::SaleView;
use crate::sale::Sale;
use crate::{Contract, STORAGE_PER_SALE};

verus! {

/// The conditions of a sale: what is asked, and in which currency.
#[derive(Debug, PartialEq, Eq)]
pub struct SaleConditionArgs {
    /// The price in the smallest unit of the currency.
    pub price: u128,
    /// The fungible token to pay with; `near` for the native currency.
    pub ft_contract_id: String,
}

impl Clone for SaleConditionArgs {
    fn clone(&self) -> (r: Self)
        ensures
            r == *self,
    {
        SaleConditionArgs { price: self.price, ft_contract_id: self.ft_contract_id.clone() }
    }
}

/// What a buyer who pays with a fungible token wants to buy.
#[derive(Debug, PartialEq, Eq)]
pub struct PurchaseArgs {
    pub nft_contract_id: String,
    pub token_id: String,
}

impl Clone for PurchaseArgs {
    fn clone(&self) -> (r: Self)
        ensures
            r == *self,
    {
        PurchaseArgs { nft_contract_id: self.nft_contract_id.clone(), token_id: self.token_id.clone() }
    }
}

impl Contract {
    /// Lists a token that its owner has approved the market to transfer.
    ///
    /// `predecessor` is the token contract that delivered the approval and
    /// `signer` the account that signed the transaction behind it. The sale
    /// conditions are what the approval's message held, if it held any.
    pub fn nft_on_approve(
        &mut self,
        predecessor: &String,
        signer: &String,
        token_id: String,
        owner_id: String,
        approval_id: u64,
        sale_conditions: Option<SaleConditionArgs>,
    ) -> (r: Result<(), MarketError>)
        requires
            old(self).wf(),
        ensures
            final(self).wf(),
            match r {
                Ok(()) => {
                    &&& old(self)@.approval_refusal(
                        predecessor@,
                        signer@,
                        owner_id@,
                        sale_conditions is Some,
                    ) is None
                    &&& final(self)@ == old(self)@.with_sale(
                        SaleView {
                            owner_id: owner_id@,
                            approval_id: approval_id,
                            nft_contract_id: predecessor@,
                            token_id: token_id@,
                            price: sale_conditions.unwrap().price,
                            ft_contract_id: sale_conditions.unwrap().ft_contract_id@,
                        },
                    )
                },
                Err(e) => {
                    &&& old(self)@.approval_refusal(
                        predecessor@,
                        signer@,
                        owner_id@,
                        sale_conditions is Some,
                    ) == Some(e)
                    &&& final(self)@ == old(self)@
                },
            },
    {
        if *predecessor == *signer {
            return Err(MarketError::InvalidApprovalOrigin);
        }
        if owner_id != *signer {
            return Err(MarketError::Unauthorized);
        }
        let owner_paid_storage = self.storage_balance_of(signer);
        let listed = self.by_owner_id.count(signer);
        assert(self@.required_storage(signer@) <= self@.balance_of(signer@));
        let held: u128 = (listed as u128) * STORAGE_PER_SALE;
        let spare: u128 = owner_paid_storage - held;
        if spare < STORAGE_PER_SALE {
            return Err(MarketError::InsufficientStorage { shortfall: STORAGE_PER_SALE - spare });
        }
        match sale_conditions {
            None => Err(MarketError::InvalidSaleTerms),
            Some(conditions) => {
                self.insert_sale(
                    Sale {
                        owner_id: owner_id,
                        approval_id: approval_id,
                        nft_contract_id: predecessor.clone(),
                        token_id: token_id,
                        sale_conditions: conditions,
                    },
                );
                Ok(())
            },
        }
    }
}

} // verus!
