//! What holds of the market whatever is done with it.
//!
//! Each law is stated over the views and the functions on views that the
//! contracts of the operations use, so it holds of the executable market too.

use vstd::prelude::*;
use crate::error::MarketError;
use crate::external::PaymentView;
use crate::model::{
    disbursed, indexed, lemma_repriced_consistent, lemma_with_sale_consistent,
    lemma_without_sale_consistent, page, payout_accepted, total, KeyView, MarketView, SaleView,
};
use crate::STORAGE_PER_SALE;

verus! {

/// One attempt to buy a listed token.
pub struct Attempt {
    pub key: KeyView,
    pub buyer: Seq<char>,
    pub tendered: u128,
    /// The currency tendered, under the name a listing would ask for it.
    pub currency: Seq<char>,
}

impl MarketView {
    /// Why the attempt is refused, if it is.
    pub open spec fn refusal_of(self, a: Attempt) -> Option<MarketError> {
        self.purchase_refusal(a.key, a.buyer, a.tendered, a.currency)
    }

    /// The market after the attempt: without the listing where the purchase
    /// went ahead, unchanged where it was refused.
    pub open spec fn after_attempt(self, a: Attempt) -> MarketView {
        if self.refusal_of(a) is None {
            self.without_sale(a.key)
        } else {
            self
        }
    }

    /// The market after the attempts, one after the other.
    pub open spec fn after_attempts(self, s: Seq<Attempt>) -> MarketView
        decreases s.len(),
    {
        if s.len() == 0 {
            self
        } else {
            self.after_attempts(s.drop_last()).after_attempt(s.last())
        }
    }

    /// How many of the attempts, made one after the other, went ahead.
    pub open spec fn purchases(self, s: Seq<Attempt>) -> nat
        decreases s.len(),
    {
        if s.len() == 0 {
            0
        } else {
            let went_ahead: nat = if self.after_attempts(s.drop_last()).refusal_of(s.last()) is None {
                1
            } else {
                0
            };
            self.purchases(s.drop_last()) + went_ahead
        }
    }
}

/// No double sale. Of any attempts to buy the same listing, made one after
/// the other, at most one goes ahead; once one has, the listing is gone.
pub proof fn lemma_no_double_sale(m: MarketView, k: KeyView, s: Seq<Attempt>)
    requires
        forall|i: int| 0 <= i < s.len() ==> (#[trigger] s[i]).key == k,
    ensures
        m.purchases(s) <= 1,
        m.purchases(s) == 1 ==> !m.after_attempts(s).listed(k),
    decreases s.len(),
{
    if s.len() > 0 {
        assert(s.last().key == k);
        lemma_no_double_sale(m, k, s.drop_last());
    }
}

/// No double sale. Every attempt to buy a listing that comes after one that
/// went ahead finds no listing.
pub proof fn lemma_later_attempts_find_nothing(m: MarketView, k: KeyView, s: Seq<Attempt>, i: int)
    requires
        forall|j: int| 0 <= j < s.len() ==> (#[trigger] s[j]).key == k,
        0 <= i < s.len(),
        m.purchases(s.subrange(0, i)) == 1,
    ensures
        m.after_attempts(s.subrange(0, i)).refusal_of(s[i]) == Some(MarketError::SaleNotFound),
{
    lemma_no_double_sale(m, k, s.subrange(0, i));
}

/// No double sale. A purchase that went ahead leaves nothing for a second
/// one, whoever makes it and whatever is tendered. An offer in the native
/// currency finds no listing either, unless nothing is attached to it, which
/// is refused before the registry is looked at.
pub proof fn lemma_second_purchase_refused(m: MarketView, first: Attempt, second: Attempt)
    requires
        first.key == second.key,
        m.refusal_of(first) is None,
    ensures
        m.after_attempt(first).refusal_of(second) == Some(MarketError::SaleNotFound),
        m.after_attempt(first).after_attempt(second) == m.after_attempt(first),
        second.tendered > 0 ==> m.after_attempt(first).offer_refusal(
            second.key,
            second.buyer,
            second.tendered,
        ) == Some(MarketError::SaleNotFound),
        second.tendered == 0 ==> m.after_attempt(first).offer_refusal(
            second.key,
            second.buyer,
            second.tendered,
        ) == Some(MarketError::ZeroDeposit),
{
}

/// Payout conservation. What is paid out for an accepted payout adds up to
/// the price, give or take one unit; for any other the buyer gets exactly
/// the price back, and nobody else gets anything.
pub proof fn lemma_payout_conserved(buyer: Seq<char>, price: u128, payout: Option<Seq<PaymentView>>)
    ensures
        payout_accepted(payout, price) ==> price - 1 <= total(disbursed(buyer, price, payout)) <= price
            + 1,
        !payout_accepted(payout, price) ==> disbursed(buyer, price, payout) == seq![
            PaymentView { receiver_id: buyer, amount: price },
        ] && total(disbursed(buyer, price, payout)) == price,
{
    let refund = seq![PaymentView { receiver_id: buyer, amount: price }];
    assert(refund.drop_last() =~= Seq::<PaymentView>::empty());
    assert(total(refund.drop_last()) == 0);
    assert(refund.last().amount == price);
}

/// One change of the registry.
pub enum RegistryOp {
    /// A listing is put in.
    Insert(SaleView),
    /// The listing under the key is taken out.
    Remove(KeyView),
    /// The listing under the key gets a new price and perhaps a new currency.
    Update(KeyView, u128, Option<Seq<char>>),
}

impl MarketView {
    /// The market after the change. Removing or updating what is not listed
    /// changes nothing.
    pub open spec fn after_op(self, op: RegistryOp) -> MarketView {
        match op {
            RegistryOp::Insert(sale) => self.with_sale(sale),
            RegistryOp::Remove(k) => self.without_sale(k),
            RegistryOp::Update(k, price, token) => if self.listed(k) {
                self.repriced(k, price, token)
            } else {
                self
            },
        }
    }

    /// The market after the changes, one after the other.
    pub open spec fn after_ops(self, ops: Seq<RegistryOp>) -> MarketView
        decreases ops.len(),
    {
        if ops.len() == 0 {
            self
        } else {
            self.after_ops(ops.drop_last()).after_op(ops.last())
        }
    }
}

/// Index consistency. A market without listings is consistent.
pub proof fn lemma_initial_consistent(owner_id: Seq<char>)
    ensures
        MarketView::initial(owner_id).consistent(),
        MarketView::initial(owner_id).funded(),
{
    let m = MarketView::initial(owner_id);
    assert forall|a: Seq<char>| #[trigger] m.required_storage(a) <= m.balance_of(a) by {
        assert(m.listing_count(a) == 0);
    }
}

/// Index consistency. Whatever listings are put in, taken out and updated,
/// in whatever order, the registry and its two indices stay in step.
pub proof fn lemma_registry_stays_consistent(m: MarketView, ops: Seq<RegistryOp>)
    requires
        m.consistent(),
    ensures
        m.after_ops(ops).consistent(),
    decreases ops.len(),
{
    if ops.len() > 0 {
        lemma_registry_stays_consistent(m, ops.drop_last());
        let before = m.after_ops(ops.drop_last());
        match ops.last() {
            RegistryOp::Insert(sale) => {
                lemma_with_sale_consistent(before, sale);
            },
            RegistryOp::Remove(k) => {
                lemma_without_sale_consistent(before, k);
            },
            RegistryOp::Update(k, price, token) => {
                if before.listed(k) {
                    lemma_repriced_consistent(before, k, price, token);
                }
            },
        }
    }
}

/// Index consistency. In a consistent market a key is listed exactly when it
/// is filed under its seller and under its token contract; it is filed under
/// no other account; and no account has an empty list.
pub proof fn lemma_listed_iff_indexed(m: MarketView, k: KeyView)
    requires
        m.consistent(),
    ensures
        m.listed(k) <==> (exists|a: Seq<char>| indexed(m.by_owner_id, a, k)) && indexed(
            m.by_nft_contract_id,
            k.nft_contract_id,
            k,
        ),
        m.listed(k) ==> indexed(m.by_owner_id, m.sales[k].owner_id, k),
        forall|a: Seq<char>| #[trigger] indexed(m.by_owner_id, a, k) ==> m.listed(k) && a == m.sales[k].owner_id,
        forall|c: Seq<char>| #[trigger] indexed(m.by_nft_contract_id, c, k) ==> m.listed(k) && c == k.nft_contract_id,
        forall|a: Seq<char>| #[trigger] m.by_owner_id.contains_key(a) ==> m.by_owner_id[a].len() > 0,
        forall|c: Seq<char>| #[trigger] m.by_nft_contract_id.contains_key(c) ==> m.by_nft_contract_id[c].len() > 0,
{
    if m.listed(k) {
        assert(indexed(m.by_owner_id, m.sales[k].owner_id, k));
    }
}

/// The refusal is one for want of prepaid storage.
pub open spec fn refused_for_storage(refusal: Option<MarketError>) -> bool {
    refusal is Some && refusal.unwrap() is InsufficientStorage
}

/// The quota gate. An approval that came through a token contract for a
/// token of the signer is refused for want of storage exactly when the
/// signer has prepaid less than one listing more would require; the refusal
/// names what is missing.
pub proof fn lemma_quota_gate(
    m: MarketView,
    predecessor: Seq<char>,
    signer: Seq<char>,
    with_conditions: bool,
)
    requires
        predecessor != signer,
    ensures
        refused_for_storage(m.approval_refusal(predecessor, signer, signer, with_conditions))
            <==> m.balance_of(signer) < (m.listing_count(signer) + 1) * STORAGE_PER_SALE,
        refused_for_storage(m.approval_refusal(predecessor, signer, signer, with_conditions))
            && m.funded() ==> m.approval_refusal(
            predecessor,
            signer,
            signer,
            with_conditions,
        ).unwrap()->shortfall == (m.listing_count(signer) + 1) * STORAGE_PER_SALE - m.balance_of(
            signer,
        ),
{
    assert((m.listing_count(signer) + 1) * STORAGE_PER_SALE == m.required_storage(signer)
        + STORAGE_PER_SALE) by (nonlinear_arith)
        requires
            m.required_storage(signer) == m.listing_count(signer) * STORAGE_PER_SALE,
    ;
}

/// Pages join. Reading `n` items from place `k` and then `m` items from
/// place `k + n` gives, one after the other, what reading `n + m` items from
/// place `k` gives.
pub proof fn lemma_pages_join<A>(s: Seq<A>, k: nat, n: nat, m: nat)
    ensures
        page(s, k, n) + page(s, k + n, m) == page(s, k, n + m),
{
    assert(page(s, k, n) + page(s, k + n, m) =~= page(s, k, n + m));
}

} // verus!
