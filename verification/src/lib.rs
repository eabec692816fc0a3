//! The transactional core of a marketplace for non-fungible tokens: a registry
//! of listings with two secondary indices, a ledger of prepaid listing storage,
//! and the two-phase settlement of a purchase.
//!
//! Every operation takes the market state and the facts of the call (who calls,
//! what was attached) as plain values, and hands back what is to be sent out.
//! Nothing here talks to a chain; the state is an ordinary value.

pub mod error;
pub mod external;
pub mod internal;
pub mod keyed;
pub mod laws;
pub mod model;
pub mod nft_callbacks;
pub mod restore;
pub mod sale;
pub mod sale_views;
pub mod storage;

use vstd::prelude::*;
use crate::error::MarketError;
use crate::external::{payments_view, Payment, PaymentView};
use crate::model::{lemma_push_contains, names, MarketView};
use crate::keyed::{as_map, distinct_keys};
use crate::sale::Sale;
use crate::storage::{deposit_entries, sale_entries, DepositTable, KeyIndex, SaleTable, TokenSet};

verus! {

/// What one listing costs in prepaid storage, in the smallest native unit.
pub const STORAGE_PER_SALE: u128 = 10_000_000_000_000_000_000_000;

/// The market: its listings with their two indices, the approved fungible
/// tokens, and what each account has prepaid for storage.
pub struct Contract {
    owner_id: String,
    sales: SaleTable,
    by_owner_id: KeyIndex,
    by_nft_contract_id: KeyIndex,
    approved_ft_tokens: TokenSet,
    storage_deposits: DepositTable,
}

impl View for Contract {
    type V = MarketView;

    closed spec fn view(&self) -> MarketView {
        MarketView {
            owner_id: self.owner_id@,
            sales: self.sales@,
            by_owner_id: self.by_owner_id@,
            by_nft_contract_id: self.by_nft_contract_id@,
            approved_ft_tokens: self.approved_ft_tokens@,
            storage_deposits: self.storage_deposits@,
        }
    }
}

impl Contract {
    /// The tables are in order, each for itself.
    pub closed spec fn stored(&self) -> bool {
        &&& self.sales.wf()
        &&& self.by_owner_id.wf()
        &&& self.by_nft_contract_id.wf()
        &&& self.storage_deposits.wf()
    }

    /// The market is valid: its tables are in order, the registry and its
    /// indices agree, and every account has prepaid for its listings.
    pub open spec fn wf(&self) -> bool {
        &&& self.stored()
        &&& self@.consistent()
        &&& self@.funded()
    }

    /// A market with the given owner; only the native currency is approved.
    pub fn new(owner_id: String) -> (r: Self)
        ensures
            r.wf(),
            r@ == MarketView::initial(owner_id@),
    {
        let mut approved = TokenSet::new();
        let near = "near".to_owned();
        approved.insert(&near);
        let r = Contract {
            owner_id,
            sales: SaleTable::new(),
            by_owner_id: KeyIndex::new(),
            by_nft_contract_id: KeyIndex::new(),
            approved_ft_tokens: approved,
            storage_deposits: DepositTable::new(),
        };
        assert(forall|a: Seq<char>| #[trigger] r@.required_storage(a) == 0);
        r
    }

    /// The account that may approve fungible tokens.
    pub fn owner_id(&self) -> (r: String)
        ensures
            r@ == self@.owner_id,
    {
        self.owner_id.clone()
    }

    /// The fungible tokens that a listing may ask for.
    pub fn approved_ft_tokens(&self) -> (r: Vec<String>)
        ensures
            names(r@).to_set() == self@.approved_ft_tokens,
    {
        self.approved_ft_tokens.to_vec()
    }

    /// What each account has prepaid, each account once.
    pub fn storage_balances(&self) -> (r: Vec<(String, u128)>)
        requires
            self.wf(),
        ensures
            distinct_keys(deposit_entries(r@)),
            as_map(deposit_entries(r@)) == self@.storage_deposits,
    {
        self.storage_deposits.to_vec()
    }

    /// All the listings, each key once.
    pub fn all_sales(&self) -> (r: Vec<Sale>)
        requires
            self.wf(),
        ensures
            distinct_keys(sale_entries(r@)),
            as_map(sale_entries(r@)) == self@.sales,
    {
        self.sales.to_vec()
    }

    /// Approves fungible tokens for listings, on behalf of the market's
    /// owner. Says of each token whether it was new.
    pub fn add_ft_token_ids(&mut self, caller: &String, ft_token_ids: Vec<String>) -> (r: Result<
        Vec<bool>,
        MarketError,
    >)
        requires
            old(self).wf(),
        ensures
            final(self).wf(),
            match r {
                Ok(added) => {
                    &&& caller@ == old(self)@.owner_id
                    &&& final(self)@ == old(self)@.with_tokens(names(ft_token_ids@))
                    &&& added@.len() == ft_token_ids@.len()
                    &&& forall|i: int|
                        0 <= i < added@.len() ==> #[trigger] added@[i] == (!old(
                            self,
                        )@.approved_ft_tokens.contains(names(ft_token_ids@)[i]) && !names(
                            ft_token_ids@,
                        ).subrange(0, i).contains(names(ft_token_ids@)[i]))
                },
                Err(e) => {
                    &&& caller@ != old(self)@.owner_id
                    &&& e == MarketError::Unauthorized
                    &&& final(self)@ == old(self)@
                },
            },
    {
        if *caller != self.owner_id {
            return Err(MarketError::Unauthorized);
        }
        let ghost before = self@;
        let ghost ids = names(ft_token_ids@);
        let mut added: Vec<bool> = Vec::new();
        let mut i: usize = 0;
        assert(ids.subrange(0, 0).to_set() =~= Set::<Seq<char>>::empty());
        assert(before.approved_ft_tokens.union(Set::<Seq<char>>::empty()) =~= before.approved_ft_tokens);
        while i < ft_token_ids.len()
            invariant
                i <= ft_token_ids.len(),
                ids == names(ft_token_ids@),
                self.stored(),
                before.consistent(),
                before.funded(),
                self@ == before.with_tokens(ids.subrange(0, i as int)),
                added@.len() == i,
                forall|j: int|
                    0 <= j < i ==> #[trigger] added@[j] == (!before.approved_ft_tokens.contains(ids[j])
                        && !ids.subrange(0, j).contains(ids[j])),
            decreases ft_token_ids.len() - i,
        {
            let fresh = self.approved_ft_tokens.insert(&ft_token_ids[i]);
            added.push(fresh);
            proof {
                let done = ids.subrange(0, i as int);
                let next = ids.subrange(0, i as int + 1);
                assert(next =~= done.push(ids[i as int]));
                assert forall|q: Seq<char>| #[trigger] next.contains(q) <==> done.contains(q) || q == ids[i as int] by {
                    lemma_push_contains(done, ids[i as int], q);
                }
                assert(before.approved_ft_tokens.union(next.to_set()) =~= before.approved_ft_tokens.union(
                    done.to_set(),
                ).insert(ids[i as int]));
            }
            i += 1;
        }
        assert(ids.subrange(0, i as int) =~= ids);
        assert(self@.sales == before.sales);
        assert forall|a: Seq<char>| #[trigger] self@.required_storage(a) <= self@.balance_of(a) by {
            assert(before.required_storage(a) <= before.balance_of(a));
        }
        Ok(added)
    }

    /// Adds to what an account has prepaid for the storage of its listings:
    /// the given account, or the caller where none is given.
    pub fn storage_deposit(&mut self, caller: &String, account_id: Option<String>, deposit: u128) -> (r:
        Result<(), MarketError>)
        requires
            old(self).wf(),
        ensures
            final(self).wf(),
            match r {
                Ok(()) => {
                    &&& old(self)@.deposit_refusal(beneficiary(caller@, account_id), deposit) is None
                    &&& final(self)@ == old(self)@.with_deposit(
                        beneficiary(caller@, account_id),
                        deposit,
                    )
                },
                Err(e) => {
                    &&& old(self)@.deposit_refusal(beneficiary(caller@, account_id), deposit) == Some(e)
                    &&& final(self)@ == old(self)@
                },
            },
    {
        let storage_account_id = match account_id {
            Some(a) => a,
            None => caller.clone(),
        };
        if deposit < STORAGE_PER_SALE {
            return Err(MarketError::InsufficientDeposit);
        }
        let balance = self.storage_balance_of(&storage_account_id);
        match balance.checked_add(deposit) {
            None => Err(MarketError::BalanceOverflow),
            Some(total) => {
                let ghost before = self@;
                self.storage_deposits.insert(&storage_account_id, total);
                assert(self@.sales == before.sales);
                assert forall|a: Seq<char>| #[trigger] self@.required_storage(a) <= self@.balance_of(a) by {
                    assert(before.required_storage(a) <= before.balance_of(a));
                }
                Ok(())
            },
        }
    }

    /// Hands the caller what it has prepaid beyond what its listings require.
    /// The call must carry exactly one unit. The payment to send is returned;
    /// there is none where nothing is left over.
    pub fn storage_withdraw(&mut self, caller: &String, attached: u128) -> (r: Result<
        Option<Payment>,
        MarketError,
    >)
        requires
            old(self).wf(),
        ensures
            final(self).wf(),
            match r {
                Ok(payment) => {
                    &&& attached == 1
                    &&& final(self)@ == old(self)@.after_withdrawal(caller@)
                    &&& payment is Some <==> old(self)@.surplus(caller@) > 0
                    &&& payment is Some ==> payment.unwrap()@ == (PaymentView {
                        receiver_id: caller@,
                        amount: old(self)@.surplus(caller@) as u128,
                    })
                },
                Err(e) => {
                    &&& attached != 1
                    &&& e == MarketError::RequiresOneYocto
                    &&& final(self)@ == old(self)@
                },
            },
    {
        if attached != 1 {
            return Err(MarketError::RequiresOneYocto);
        }
        let ghost before = self@;
        let balance = self.storage_balance_of(caller);
        let count = self.by_owner_id.count(caller);
        assert(before.required_storage(caller@) <= before.balance_of(caller@));
        let required: u128 = (count as u128) * STORAGE_PER_SALE;
        let surplus: u128 = balance - required;
        if required > 0 {
            self.storage_deposits.insert(caller, required);
        } else {
            self.storage_deposits.remove(caller);
        }
        assert(self@.sales == before.sales);
        assert forall|a: Seq<char>| #[trigger] self@.required_storage(a) <= self@.balance_of(a) by {
            assert(before.required_storage(a) <= before.balance_of(a));
        }
        if surplus > 0 {
            Ok(Some(Payment { receiver_id: caller.clone(), amount: surplus }))
        } else {
            Ok(None)
        }
    }

    /// The least that a storage deposit may be: the cost of one listing.
    pub fn storage_minimum_balance(&self) -> (r: u128)
        ensures
            r == STORAGE_PER_SALE,
    {
        STORAGE_PER_SALE
    }

    /// What the account has prepaid; nothing for an account never seen.
    pub fn storage_balance_of(&self, account_id: &String) -> (r: u128)
        requires
            self.wf(),
        ensures
            r == self@.balance_of(account_id@),
    {
        match self.storage_deposits.get(account_id) {
            Some(amount) => amount,
            None => 0,
        }
    }
}

/// What the token contract answers to a transfer request: who is to be paid
/// what. It comes from outside and is checked before anything is paid.
#[derive(Debug, PartialEq, Eq)]
pub struct Payout {
    pub payout: Vec<Payment>,
}

impl View for Payout {
    type V = Seq<PaymentView>;

    open spec fn view(&self) -> Seq<PaymentView> {
        payments_view(self.payout@)
    }
}

/// The payments in an optional payout.
pub open spec fn opt_payout(o: Option<Payout>) -> Option<Seq<PaymentView>> {
    match o {
        Some(p) => Some(p@),
        None => None,
    }
}

/// The account that a storage deposit is for.
pub open spec fn beneficiary(caller: Seq<char>, account_id: Option<String>) -> Seq<char> {
    match account_id {
        Some(a) => a@,
        None => caller,
    }
}

} // verus!
