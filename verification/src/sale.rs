//! Listings, and the purchase of one.

use vstd::prelude::*;
use crate::error::MarketError;
use crate::external::{
    payments_view, Payment, PaymentView, Settlement, TokenTransferOutcome, TransferRequest,
    MAX_LEN_PAYOUT,
};
use crate::model::{
    disbursed, lemma_repriced_consistent, opt_name, payout_accepted, total,
    transfer_request, KeyView, SaleView,
};
use crate::nft_callbacks::{PurchaseArgs, SaleConditionArgs};
use crate::{opt_payout, Contract, Payout};

verus! {

/// Information about each sale on the market.
#[derive(Debug, PartialEq, Eq)]
pub struct Sale {
    /// The seller.
    pub owner_id: String,
    /// The market's approval to transfer the token on behalf of the seller.
    pub approval_id: u64,
    /// The contract where the token was minted.
    pub nft_contract_id: String,
    /// The token for sale.
    pub token_id: String,
    /// What the seller asks.
    pub sale_conditions: SaleConditionArgs,
}

impl View for Sale {
    type V = SaleView;

    open spec fn view(&self) -> SaleView {
        SaleView {
            owner_id: self.owner_id@,
            approval_id: self.approval_id,
            nft_contract_id: self.nft_contract_id@,
            token_id: self.token_id@,
            price: self.sale_conditions.price,
            ft_contract_id: self.sale_conditions.ft_contract_id@,
        }
    }
}

impl Clone for Sale {
    fn clone(&self) -> (r: Self)
        ensures
            r == *self,
    {
        Sale {
            owner_id: self.owner_id.clone(),
            approval_id: self.approval_id,
            nft_contract_id: self.nft_contract_id.clone(),
            token_id: self.token_id.clone(),
            sale_conditions: self.sale_conditions.clone(),
        }
    }
}

/// The listings in a vector of listings.
pub open spec fn sales_view(v: Seq<Sale>) -> Seq<SaleView> {
    v.map_values(|s: Sale| s@)
}

/// The key of a listing: the token contract and the token in it.
#[derive(Debug, PartialEq, Eq)]
pub struct SaleKey {
    pub nft_contract_id: String,
    pub token_id: String,
}

impl View for SaleKey {
    type V = KeyView;

    open spec fn view(&self) -> KeyView {
        KeyView { nft_contract_id: self.nft_contract_id@, token_id: self.token_id@ }
    }
}

impl Clone for SaleKey {
    fn clone(&self) -> (r: Self)
        ensures
            r == *self,
    {
        SaleKey { nft_contract_id: self.nft_contract_id.clone(), token_id: self.token_id.clone() }
    }
}

/// The sum over a longer run of payments is no less.
pub proof fn lemma_total_grows(p: Seq<PaymentView>, n: int)
    requires
        0 <= n <= p.len(),
    ensures
        0 <= total(p.subrange(0, n)) <= total(p),
    decreases p.len() - n,
{
    if n == p.len() {
        assert(p.subrange(0, n) =~= p);
        lemma_total_nonnegative(p);
    } else {
        lemma_total_grows(p, n + 1);
        assert(p.subrange(0, n + 1).drop_last() =~= p.subrange(0, n));
        lemma_total_nonnegative(p.subrange(0, n));
    }
}

/// A sum of payments is not negative.
pub proof fn lemma_total_nonnegative(p: Seq<PaymentView>)
    ensures
        0 <= total(p),
    decreases p.len(),
{
    if p.len() > 0 {
        lemma_total_nonnegative(p.drop_last());
    }
}

impl Payout {
    /// Whether the payout is paid out as it stands for a purchase at the
    /// given price.
    pub fn is_acceptable(&self, price: u128) -> (r: bool)
        ensures
            r == payout_accepted(Some(self@), price),
    {
        let n = self.payout.len();
        if n == 0 || n > MAX_LEN_PAYOUT as usize {
            return false;
        }
        let ghost all = self@;
        // What is left of the price, or that the sum is one above it.
        let mut remainder: u128 = price;
        let mut above: bool = false;
        let mut i: usize = 0;
        assert(all.subrange(0, 0) =~= Seq::<PaymentView>::empty());
        while i < n
            invariant
                i <= n,
                n == self.payout.len(),
                all == self@,
                !above ==> total(all.subrange(0, i as int)) == price - remainder,
                above ==> total(all.subrange(0, i as int)) == price + 1,
            decreases n - i,
        {
            let amount = self.payout[i].amount;
            proof {
                assert(all.subrange(0, i as int + 1).drop_last() =~= all.subrange(0, i as int));
                assert(all.subrange(0, i as int + 1).last() == all[i as int]);
                lemma_total_grows(all, i as int + 1);
            }
            if above {
                if amount > 0 {
                    return false;
                }
            } else if amount <= remainder {
                remainder = remainder - amount;
            } else if amount - remainder == 1 {
                above = true;
            } else {
                return false;
            }
            i += 1;
        }
        assert(all.subrange(0, n as int) =~= all);
        above || remainder <= 1
    }
}

impl Contract {
    /// Takes the seller's listing of a token off the market. The call must
    /// carry exactly one unit.
    pub fn remove_sale(
        &mut self,
        caller: &String,
        attached: u128,
        nft_contract_id: String,
        token_id: String,
    ) -> (r: Result<(), MarketError>)
        requires
            old(self).wf(),
        ensures
            final(self).wf(),
            match r {
                Ok(()) => {
                    &&& old(self)@.seller_refusal(
                        caller@,
                        attached,
                        KeyView { nft_contract_id: nft_contract_id@, token_id: token_id@ },
                    ) is None
                    &&& final(self)@ == old(self)@.without_sale(
                        KeyView { nft_contract_id: nft_contract_id@, token_id: token_id@ },
                    )
                },
                Err(e) => {
                    &&& old(self)@.seller_refusal(
                        caller@,
                        attached,
                        KeyView { nft_contract_id: nft_contract_id@, token_id: token_id@ },
                    ) == Some(e)
                    &&& final(self)@ == old(self)@
                },
            },
    {
        if attached != 1 {
            return Err(MarketError::RequiresOneYocto);
        }
        let by_seller = match self.sales.get(&nft_contract_id, &token_id) {
            None => {
                return Err(MarketError::SaleNotFound);
            },
            Some(sale) => sale.owner_id == *caller,
        };
        if !by_seller {
            return Err(MarketError::Unauthorized);
        }
        let _ = self.delete_sale(&nft_contract_id, &token_id);
        Ok(())
    }

    /// Sets a new price on the seller's listing and, if one is given, a new
    /// currency, which must be approved. The call must carry exactly one unit.
    pub fn update_price(
        &mut self,
        caller: &String,
        attached: u128,
        nft_contract_id: String,
        token_id: String,
        price: u128,
        ft_contract_id: Option<String>,
    ) -> (r: Result<(), MarketError>)
        requires
            old(self).wf(),
        ensures
            final(self).wf(),
            match r {
                Ok(()) => {
                    &&& old(self)@.update_refusal(
                        caller@,
                        attached,
                        KeyView { nft_contract_id: nft_contract_id@, token_id: token_id@ },
                        opt_name(ft_contract_id),
                    ) is None
                    &&& final(self)@ == old(self)@.repriced(
                        KeyView { nft_contract_id: nft_contract_id@, token_id: token_id@ },
                        price,
                        opt_name(ft_contract_id),
                    )
                },
                Err(e) => {
                    &&& old(self)@.update_refusal(
                        caller@,
                        attached,
                        KeyView { nft_contract_id: nft_contract_id@, token_id: token_id@ },
                        opt_name(ft_contract_id),
                    ) == Some(e)
                    &&& final(self)@ == old(self)@
                },
            },
    {
        let ghost before = self@;
        let ghost k = KeyView { nft_contract_id: nft_contract_id@, token_id: token_id@ };
        if attached != 1 {
            return Err(MarketError::RequiresOneYocto);
        }
        let mut sale = match self.sales.get(&nft_contract_id, &token_id) {
            None => {
                return Err(MarketError::SaleNotFound);
            },
            Some(sale) => sale.clone(),
        };
        if sale.owner_id != *caller {
            return Err(MarketError::Unauthorized);
        }
        sale.sale_conditions.price = price;
        match ft_contract_id {
            Some(token) => {
                if !self.approved_ft_tokens.contains(&token) {
                    return Err(MarketError::UnapprovedPaymentToken);
                }
                sale.sale_conditions.ft_contract_id = token;
            },
            None => {},
        }
        proof {
            lemma_repriced_consistent(before, k, price, opt_name(ft_contract_id));
        }
        self.sales.put(sale);
        assert(self@ == before.repriced(k, price, opt_name(ft_contract_id)));
        assert forall|a: Seq<char>| #[trigger] self@.required_storage(a) <= self@.balance_of(a) by {
            assert(before.required_storage(a) <= before.balance_of(a));
        }
        Ok(())
    }

    /// Buys a listed token with the native currency attached to the call.
    /// All that is attached is tendered, also what is above the price.
    pub fn offer(&mut self, buyer_id: &String, deposit: u128, nft_contract_id: String, token_id: String) -> (r:
        Result<TransferRequest, MarketError>)
        requires
            old(self).wf(),
        ensures
            final(self).wf(),
            match r {
                Ok(request) => {
                    &&& old(self)@.offer_refusal(
                        KeyView { nft_contract_id: nft_contract_id@, token_id: token_id@ },
                        buyer_id@,
                        deposit,
                    ) is None
                    &&& final(self)@ == old(self)@.without_sale(
                        KeyView { nft_contract_id: nft_contract_id@, token_id: token_id@ },
                    )
                    &&& request@ == transfer_request(
                        old(self)@.sales[KeyView {
                            nft_contract_id: nft_contract_id@,
                            token_id: token_id@,
                        }],
                        buyer_id@,
                        deposit,
                        None,
                    )
                },
                Err(e) => {
                    &&& old(self)@.offer_refusal(
                        KeyView { nft_contract_id: nft_contract_id@, token_id: token_id@ },
                        buyer_id@,
                        deposit,
                    ) == Some(e)
                    &&& final(self)@ == old(self)@
                },
            },
    {
        if deposit == 0 {
            return Err(MarketError::ZeroDeposit);
        }
        let near_contract_id = "near".to_owned();
        match self.check_purchase(&nft_contract_id, &token_id, buyer_id, deposit, &near_contract_id) {
            Some(e) => Err(e),
            None => self.process_purchase(nft_contract_id, token_id, deposit, buyer_id.clone(), None),
        }
    }

    /// Takes fungible tokens that `sender_id` sent to the market through the
    /// token's contract `ft_contract_id`, and buys with them what the
    /// transfer's message names. Without a message the tokens go back.
    pub fn ft_on_transfer(
        &mut self,
        ft_contract_id: &String,
        sender_id: String,
        amount: u128,
        msg: Option<PurchaseArgs>,
    ) -> (r: Result<TokenTransferOutcome, MarketError>)
        requires
            old(self).wf(),
        ensures
            final(self).wf(),
            msg is None ==> r == Ok::<TokenTransferOutcome, MarketError>(
                TokenTransferOutcome::Returned(amount),
            ) && final(self)@ == old(self)@,
            msg is Some ==> match r {
                Ok(outcome) => {
                    &&& old(self)@.purchase_refusal(
                        KeyView {
                            nft_contract_id: msg.unwrap().nft_contract_id@,
                            token_id: msg.unwrap().token_id@,
                        },
                        sender_id@,
                        amount,
                        ft_contract_id@,
                    ) is None
                    &&& final(self)@ == old(self)@.without_sale(
                        KeyView {
                            nft_contract_id: msg.unwrap().nft_contract_id@,
                            token_id: msg.unwrap().token_id@,
                        },
                    )
                    &&& outcome is Purchase
                    &&& outcome->Purchase_0@ == transfer_request(
                        old(self)@.sales[KeyView {
                            nft_contract_id: msg.unwrap().nft_contract_id@,
                            token_id: msg.unwrap().token_id@,
                        }],
                        sender_id@,
                        amount,
                        Some(ft_contract_id@),
                    )
                },
                Err(e) => {
                    &&& old(self)@.purchase_refusal(
                        KeyView {
                            nft_contract_id: msg.unwrap().nft_contract_id@,
                            token_id: msg.unwrap().token_id@,
                        },
                        sender_id@,
                        amount,
                        ft_contract_id@,
                    ) == Some(e)
                    &&& final(self)@ == old(self)@
                },
            },
    {
        let args = match msg {
            Some(args) => args,
            None => {
                return Ok(TokenTransferOutcome::Returned(amount));
            },
        };
        match self.check_purchase(&args.nft_contract_id, &args.token_id, &sender_id, amount, ft_contract_id) {
            Some(e) => Err(e),
            None => {
                let request = self.process_purchase(
                    args.nft_contract_id,
                    args.token_id,
                    amount,
                    sender_id,
                    Some(ft_contract_id.clone()),
                );
                match request {
                    Ok(request) => Ok(TokenTransferOutcome::Purchase(request)),
                    Err(e) => Err(e),
                }
            },
        }
    }

    /// Why a purchase would be refused, if it would.
    pub fn check_purchase(
        &self,
        nft_contract_id: &String,
        token_id: &String,
        buyer_id: &String,
        tendered: u128,
        currency: &String,
    ) -> (r: Option<MarketError>)
        requires
            self.wf(),
        ensures
            r == self@.purchase_refusal(
                KeyView { nft_contract_id: nft_contract_id@, token_id: token_id@ },
                buyer_id@,
                tendered,
                currency@,
            ),
    {
        match self.sales.get(nft_contract_id, token_id) {
            None => Some(MarketError::SaleNotFound),
            Some(sale) => {
                if sale.sale_conditions.ft_contract_id != *currency {
                    Some(MarketError::WrongCurrency)
                } else if sale.owner_id == *buyer_id {
                    Some(MarketError::SelfPurchase)
                } else if tendered < sale.sale_conditions.price {
                    Some(MarketError::InsufficientFunds)
                } else {
                    None
                }
            },
        }
    }

    /// Takes the listing off the market, whatever comes of the purchase, and
    /// says what to ask of the token contract: to transfer the token to the
    /// buyer and to name the payees of the price.
    pub fn process_purchase(
        &mut self,
        nft_contract_id: String,
        token_id: String,
        price: u128,
        buyer_id: String,
        ft_contract_id: Option<String>,
    ) -> (r: Result<TransferRequest, MarketError>)
        requires
            old(self).wf(),
        ensures
            final(self).wf(),
            match r {
                Ok(request) => {
                    &&& old(self)@.listed(
                        KeyView { nft_contract_id: nft_contract_id@, token_id: token_id@ },
                    )
                    &&& final(self)@ == old(self)@.without_sale(
                        KeyView { nft_contract_id: nft_contract_id@, token_id: token_id@ },
                    )
                    &&& request@ == transfer_request(
                        old(self)@.sales[KeyView {
                            nft_contract_id: nft_contract_id@,
                            token_id: token_id@,
                        }],
                        buyer_id@,
                        price,
                        opt_name(ft_contract_id),
                    )
                },
                Err(e) => {
                    &&& e == MarketError::SaleNotFound
                    &&& !old(self)@.listed(
                        KeyView { nft_contract_id: nft_contract_id@, token_id: token_id@ },
                    )
                    &&& final(self)@ == old(self)@
                },
            },
    {
        match self.delete_sale(&nft_contract_id, &token_id) {
            Err(e) => Err(e),
            Ok(sale) => Ok(
                TransferRequest {
                    nft_contract_id: nft_contract_id,
                    receiver_id: buyer_id,
                    token_id: token_id,
                    approval_id: sale.approval_id,
                    memo: "payout from market".to_owned(),
                    balance: price,
                    max_len_payout: MAX_LEN_PAYOUT,
                    ft_contract_id: ft_contract_id,
                },
            ),
        }
    }

    /// Settles a purchase once the token contract has answered. `payout` is
    /// its answer, or nothing where the transfer failed or the answer could
    /// not be read. An acceptable payout is paid as it stands; otherwise the
    /// buyer gets the whole price back.
    pub fn resolve_purchase(
        buyer_id: String,
        price: u128,
        ft_contract_id: Option<String>,
        payout: Option<Payout>,
    ) -> (r: Settlement)
        ensures
            payments_view(r.payments@) == disbursed(buyer_id@, price, opt_payout(payout)),
            r.refunded == !payout_accepted(opt_payout(payout), price),
            r.price == price,
            opt_name(r.ft_contract_id) == opt_name(ft_contract_id),
    {
        let accepted = match payout {
            Some(p) => {
                if p.is_acceptable(price) {
                    Some(p.payout)
                } else {
                    None
                }
            },
            None => None,
        };
        match accepted {
            Some(payments) => Settlement { payments, ft_contract_id, refunded: false, price },
            None => {
                let mut payments: Vec<Payment> = Vec::new();
                payments.push(Payment { receiver_id: buyer_id, amount: price });
                assert(payments_view(payments@) =~= seq![
                    PaymentView { receiver_id: buyer_id@, amount: price },
                ]);
                Settlement { payments, ft_contract_id, refunded: true, price }
            },
        }
    }
}

} // verus!
