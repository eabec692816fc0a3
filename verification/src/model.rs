//! The market as a mathematical value, and what each operation makes of it.
//!
//! The executable state keeps vectors; its view is a `MarketView` of maps and
//! sets. Every operation of the market is described here as a function from
//! one view to the next, and the invariants are stated and proved on views.

use vstd::prelude::*;
use crate::error::MarketError;
use crate::external::{PaymentView, TransferRequestView, MAX_LEN_PAYOUT};
use crate::STORAGE_PER_SALE;

verus! {

/// What identifies a listing: the token contract and the token in it.
pub struct KeyView {
    pub nft_contract_id: Seq<char>,
    pub token_id: Seq<char>,
}

/// One listing.
pub struct SaleView {
    pub owner_id: Seq<char>,
    pub approval_id: u64,
    pub nft_contract_id: Seq<char>,
    pub token_id: Seq<char>,
    pub price: u128,
    pub ft_contract_id: Seq<char>,
}

impl SaleView {
    pub open spec fn key(self) -> KeyView {
        KeyView { nft_contract_id: self.nft_contract_id, token_id: self.token_id }
    }
}

/// A secondary index: for each account the keys filed under it, oldest first.
pub type IndexView = Map<Seq<char>, Seq<KeyView>>;

/// The key is filed under the account.
pub open spec fn indexed(m: IndexView, id: Seq<char>, k: KeyView) -> bool {
    m.contains_key(id) && m[id].contains(k)
}

/// How many keys are filed under the account.
pub open spec fn index_len(m: IndexView, id: Seq<char>) -> nat {
    if m.contains_key(id) {
        m[id].len()
    } else {
        0
    }
}

/// No account has an empty list, and no list names a key twice.
pub open spec fn index_wf(m: IndexView) -> bool {
    forall|id: Seq<char>| #[trigger] m.contains_key(id) ==> m[id].len() > 0 && m[id].no_duplicates()
}

/// Files the key under the account, at the end of its list, unless it is there.
pub open spec fn index_add(m: IndexView, id: Seq<char>, k: KeyView) -> IndexView {
    if !m.contains_key(id) {
        m.insert(id, seq![k])
    } else if m[id].contains(k) {
        m
    } else {
        m.insert(id, m[id].push(k))
    }
}

/// Takes the key out of the account's list, and the list away once it is empty.
pub open spec fn index_drop(m: IndexView, id: Seq<char>, k: KeyView) -> IndexView {
    if indexed(m, id, k) {
        let rest = m[id].remove(m[id].index_of(k));
        if rest.len() == 0 {
            m.remove(id)
        } else {
            m.insert(id, rest)
        }
    } else {
        m
    }
}

pub proof fn lemma_push_contains<A>(s: Seq<A>, x: A, q: A)
    ensures
        s.push(x).contains(q) <==> s.contains(q) || q == x,
{
    let t = s.push(x);
    if s.contains(q) {
        let i = s.index_of(q);
        assert(t[i] == q);
    }
    if q == x {
        assert(t[s.len() as int] == q);
    }
    if t.contains(q) {
        let i = t.index_of(q);
        if i < s.len() {
            assert(s[i] == q);
        }
    }
}

pub proof fn lemma_remove_contains<A>(s: Seq<A>, i: int)
    requires
        s.no_duplicates(),
        0 <= i < s.len(),
    ensures
        s.remove(i).no_duplicates(),
        s.remove(i).len() == s.len() - 1,
        forall|q: A| #[trigger] s.remove(i).contains(q) <==> s.contains(q) && q != s[i],
{
    let t = s.remove(i);
    assert forall|a: int, b: int| 0 <= a < t.len() && 0 <= b < t.len() && a != b implies t[a] != t[b] by {
        let a0 = if a < i { a } else { a + 1 };
        let b0 = if b < i { b } else { b + 1 };
        assert(t[a] == s[a0] && t[b] == s[b0]);
    }
    assert forall|q: A| #[trigger] t.contains(q) <==> s.contains(q) && q != s[i] by {
        if t.contains(q) {
            let j = t.index_of(q);
            let j0 = if j < i { j } else { j + 1 };
            assert(t[j] == s[j0]);
        }
        if s.contains(q) && q != s[i] {
            let j0 = s.index_of(q);
            let j = if j0 < i { j0 } else { j0 - 1 };
            assert(t[j] == s[j0]);
        }
    }
}

/// What filing a key changes: that key under that account, and nothing else.
pub proof fn lemma_index_add(m: IndexView, id: Seq<char>, k: KeyView)
    requires
        index_wf(m),
    ensures
        index_wf(index_add(m, id, k)),
        forall|a: Seq<char>, q: KeyView| #[trigger]
            indexed(index_add(m, id, k), a, q) <==> indexed(m, a, q) || (a == id && q == k),
        forall|a: Seq<char>| a != id ==> #[trigger] index_len(index_add(m, id, k), a) == index_len(m, a),
        index_len(index_add(m, id, k), id) == index_len(m, id) + (if indexed(m, id, k) { 0nat } else { 1nat }),
{
    let r = index_add(m, id, k);
    if !m.contains_key(id) {
        assert(seq![k][0] == k);
    } else if !m[id].contains(k) {
        let s = m[id];
        let t = s.push(k);
        assert forall|a: int, b: int| 0 <= a < t.len() && 0 <= b < t.len() && a != b implies t[a] != t[b] by {
            if a < s.len() && b < s.len() {
                assert(s[a] != s[b]);
            } else if a < s.len() {
                assert(s[a] == t[a]);
            } else {
                assert(s[b] == t[b]);
            }
        }
        assert forall|a: Seq<char>, q: KeyView| #[trigger]
            indexed(r, a, q) <==> indexed(m, a, q) || (a == id && q == k) by {
            lemma_push_contains(s, k, q);
        }
    }
}

/// What taking a key out changes: that key under that account, and nothing else.
pub proof fn lemma_index_drop(m: IndexView, id: Seq<char>, k: KeyView)
    requires
        index_wf(m),
    ensures
        index_wf(index_drop(m, id, k)),
        forall|a: Seq<char>, q: KeyView| #[trigger]
            indexed(index_drop(m, id, k), a, q) <==> indexed(m, a, q) && !(a == id && q == k),
        forall|a: Seq<char>| a != id ==> #[trigger] index_len(index_drop(m, id, k), a) == index_len(m, a),
        index_len(index_drop(m, id, k), id) == index_len(m, id) - (if indexed(m, id, k) { 1int } else { 0int }),
{
    let r = index_drop(m, id, k);
    if indexed(m, id, k) {
        let s = m[id];
        let i = s.index_of(k);
        let rest = s.remove(i);
        lemma_remove_contains(s, i);
        assert forall|a: Seq<char>, q: KeyView| #[trigger]
            indexed(r, a, q) <==> indexed(m, a, q) && !(a == id && q == k) by {
            if a == id && rest.len() == 0 && s.contains(q) {
                assert(s[s.index_of(q)] == q);
            }
        }
    }
}

/// The name under which the native currency stands in a listing.
pub open spec fn native_currency() -> Seq<char> {
    "near"@
}

/// The names in a vector of account names.
pub open spec fn names(v: Seq<String>) -> Seq<Seq<char>> {
    v.map_values(|s: String| s@)
}

/// The name in an optional account name.
pub open spec fn opt_name(o: Option<String>) -> Option<Seq<char>> {
    match o {
        Some(s) => Some(s@),
        None => None,
    }
}

/// What the market asks of the token contract when the listing is bought.
pub open spec fn transfer_request(
    sale: SaleView,
    buyer: Seq<char>,
    price: u128,
    currency: Option<Seq<char>>,
) -> TransferRequestView {
    TransferRequestView {
        nft_contract_id: sale.nft_contract_id,
        receiver_id: buyer,
        token_id: sale.token_id,
        approval_id: sale.approval_id,
        memo: "payout from market"@,
        balance: price,
        max_len_payout: MAX_LEN_PAYOUT,
        ft_contract_id: currency,
    }
}

/// The sum of the amounts.
pub open spec fn total(p: Seq<PaymentView>) -> int
    decreases p.len(),
{
    if p.len() == 0 {
        0
    } else {
        total(p.drop_last()) + p.last().amount
    }
}

/// Whether what the token contract answered is paid out as it stands: there
/// is an answer, it names at least one payee and no more than asked for, and
/// its amounts add up to the price, give or take one unit.
pub open spec fn payout_accepted(payout: Option<Seq<PaymentView>>, price: u128) -> bool {
    match payout {
        None => false,
        Some(p) => 1 <= p.len() <= MAX_LEN_PAYOUT && price - 1 <= total(p) <= price + 1,
    }
}

/// The payments that settle a purchase: the payout as it stands where it is
/// accepted, else the whole price back to the buyer.
pub open spec fn disbursed(buyer: Seq<char>, price: u128, payout: Option<Seq<PaymentView>>) -> Seq<
    PaymentView,
> {
    if payout_accepted(payout, price) {
        payout.unwrap()
    } else {
        seq![PaymentView { receiver_id: buyer, amount: price }]
    }
}

/// The part of a sequence that a reader gets who skips `from` items and then
/// takes up to `limit`.
pub open spec fn page<A>(s: Seq<A>, from: nat, limit: nat) -> Seq<A> {
    if from >= s.len() {
        Seq::empty()
    } else if from + limit >= s.len() {
        s.subrange(from as int, s.len() as int)
    } else {
        s.subrange(from as int, (from + limit) as int)
    }
}

/// The whole state of the market.
pub struct MarketView {
    /// The account that may approve fungible tokens.
    pub owner_id: Seq<char>,
    /// The listings, by key.
    pub sales: Map<KeyView, SaleView>,
    /// For each seller the keys of the seller's listings.
    pub by_owner_id: IndexView,
    /// For each token contract the keys of the listings of its tokens.
    pub by_nft_contract_id: IndexView,
    /// The fungible tokens that a listing may ask for.
    pub approved_ft_tokens: Set<Seq<char>>,
    /// For each account what it has prepaid for storage.
    pub storage_deposits: Map<Seq<char>, u128>,
}

impl MarketView {
    /// A listing exists under the key.
    pub open spec fn listed(self, k: KeyView) -> bool {
        self.sales.contains_key(k)
    }

    /// How many listings the account has.
    pub open spec fn listing_count(self, account: Seq<char>) -> nat {
        index_len(self.by_owner_id, account)
    }

    /// What the account has prepaid; nothing for an account never seen.
    pub open spec fn balance_of(self, account: Seq<char>) -> u128 {
        if self.storage_deposits.contains_key(account) {
            self.storage_deposits[account]
        } else {
            0
        }
    }

    /// A key is listed exactly when it is filed under its seller and under its
    /// token contract; the indices hold nothing else, and no empty list.
    pub open spec fn consistent(self) -> bool {
        &&& forall|k: KeyView| #[trigger]
            self.sales.contains_key(k) ==> {
                &&& self.sales[k].key() == k
                &&& indexed(self.by_owner_id, self.sales[k].owner_id, k)
                &&& indexed(self.by_nft_contract_id, k.nft_contract_id, k)
            }
        &&& forall|a: Seq<char>, k: KeyView| #[trigger]
            indexed(self.by_owner_id, a, k) ==> self.sales.contains_key(k) && self.sales[k].owner_id == a
        &&& forall|c: Seq<char>, k: KeyView| #[trigger]
            indexed(self.by_nft_contract_id, c, k) ==> self.sales.contains_key(k) && k.nft_contract_id == c
        &&& index_wf(self.by_owner_id)
        &&& index_wf(self.by_nft_contract_id)
    }

    /// The listings filed under the account in an index, oldest first.
    pub open spec fn listings(self, index: IndexView, id: Seq<char>) -> Seq<SaleView> {
        if index.contains_key(id) {
            index[id].map_values(|k: KeyView| self.sales[k])
        } else {
            Seq::empty()
        }
    }

    /// What the account must keep prepaid for the listings it has.
    pub open spec fn required_storage(self, account: Seq<char>) -> int {
        self.listing_count(account) * STORAGE_PER_SALE
    }

    /// What the account has prepaid beyond what its listings require.
    pub open spec fn surplus(self, account: Seq<char>) -> int {
        self.balance_of(account) - self.required_storage(account)
    }

    /// Every account has prepaid for the listings it has.
    pub open spec fn funded(self) -> bool {
        forall|a: Seq<char>| #[trigger] self.required_storage(a) <= self.balance_of(a)
    }

    /// A market of the given owner with no listing and no deposit, in which
    /// only the native currency is approved.
    pub open spec fn initial(owner_id: Seq<char>) -> MarketView {
        MarketView {
            owner_id: owner_id,
            sales: Map::empty(),
            by_owner_id: Map::empty(),
            by_nft_contract_id: Map::empty(),
            approved_ft_tokens: Set::empty().insert(native_currency()),
            storage_deposits: Map::empty(),
        }
    }

    /// The market with these fungible tokens approved as well.
    pub open spec fn with_tokens(self, ids: Seq<Seq<char>>) -> MarketView {
        MarketView { approved_ft_tokens: self.approved_ft_tokens.union(ids.to_set()), ..self }
    }

    /// Why a storage deposit is refused, if it is.
    pub open spec fn deposit_refusal(self, account: Seq<char>, amount: u128) -> Option<MarketError> {
        if amount < STORAGE_PER_SALE {
            Some(MarketError::InsufficientDeposit)
        } else if self.balance_of(account) + amount > u128::MAX {
            Some(MarketError::BalanceOverflow)
        } else {
            None
        }
    }

    /// The market with the amount added to what the account has prepaid.
    pub open spec fn with_deposit(self, account: Seq<char>, amount: u128) -> MarketView {
        MarketView {
            storage_deposits: self.storage_deposits.insert(
                account,
                (self.balance_of(account) + amount) as u128,
            ),
            ..self
        }
    }

    /// The market after the account took its surplus out: it keeps what its
    /// listings require, and no entry at all when they require nothing.
    pub open spec fn after_withdrawal(self, account: Seq<char>) -> MarketView {
        MarketView {
            storage_deposits: if self.required_storage(account) > 0 {
                self.storage_deposits.insert(account, self.required_storage(account) as u128)
            } else {
                self.storage_deposits.remove(account)
            },
            ..self
        }
    }

    /// What the account lacks to prepay one listing more; none where this is
    /// not above zero.
    pub open spec fn storage_shortfall(self, account: Seq<char>) -> int {
        self.required_storage(account) + STORAGE_PER_SALE - self.balance_of(account)
    }

    /// Why the approval of a token is not turned into a listing, if it is
    /// not. The approval must have come through a token contract, for a token
    /// of the signer, who must have prepaid for one listing more, and it must
    /// have carried sale conditions: the first of these that fails decides.
    pub open spec fn approval_refusal(
        self,
        predecessor: Seq<char>,
        signer: Seq<char>,
        owner_id: Seq<char>,
        with_conditions: bool,
    ) -> Option<MarketError> {
        if predecessor == signer {
            Some(MarketError::InvalidApprovalOrigin)
        } else if owner_id != signer {
            Some(MarketError::Unauthorized)
        } else if self.storage_shortfall(signer) > 0 {
            Some(MarketError::InsufficientStorage { shortfall: self.storage_shortfall(signer) as u128 })
        } else if !with_conditions {
            Some(MarketError::InvalidSaleTerms)
        } else {
            None
        }
    }

    /// Why a purchase is refused, if it is: the listing must exist, ask for
    /// the currency tendered, belong to another account than the buyer, and
    /// cost no more than was tendered. The first of these that fails decides.
    pub open spec fn purchase_refusal(
        self,
        k: KeyView,
        buyer: Seq<char>,
        tendered: u128,
        currency: Seq<char>,
    ) -> Option<MarketError> {
        if !self.listed(k) {
            Some(MarketError::SaleNotFound)
        } else if self.sales[k].ft_contract_id != currency {
            Some(MarketError::WrongCurrency)
        } else if self.sales[k].owner_id == buyer {
            Some(MarketError::SelfPurchase)
        } else if tendered < self.sales[k].price {
            Some(MarketError::InsufficientFunds)
        } else {
            None
        }
    }

    /// Why an offer in the native currency is refused, if it is.
    pub open spec fn offer_refusal(self, k: KeyView, buyer: Seq<char>, deposit: u128) -> Option<
        MarketError,
    > {
        if deposit == 0 {
            Some(MarketError::ZeroDeposit)
        } else {
            self.purchase_refusal(k, buyer, deposit, native_currency())
        }
    }

    /// Why the seller's call on a listing is refused, if it is: the call must
    /// carry exactly one unit, the listing must exist, and the caller must be
    /// its seller.
    pub open spec fn seller_refusal(self, caller: Seq<char>, attached: u128, k: KeyView) -> Option<
        MarketError,
    > {
        if attached != 1 {
            Some(MarketError::RequiresOneYocto)
        } else if !self.listed(k) {
            Some(MarketError::SaleNotFound)
        } else if self.sales[k].owner_id != caller {
            Some(MarketError::Unauthorized)
        } else {
            None
        }
    }

    /// Why a change of price or currency is refused, if it is: as for any call
    /// of the seller, and a new currency must be approved.
    pub open spec fn update_refusal(
        self,
        caller: Seq<char>,
        attached: u128,
        k: KeyView,
        token: Option<Seq<char>>,
    ) -> Option<MarketError> {
        if self.seller_refusal(caller, attached, k) is Some {
            self.seller_refusal(caller, attached, k)
        } else if token is Some && !self.approved_ft_tokens.contains(token.unwrap()) {
            Some(MarketError::UnapprovedPaymentToken)
        } else {
            None
        }
    }

    /// The market with each of the balances set, one after the other.
    pub open spec fn with_balances(self, entries: Seq<(Seq<char>, u128)>) -> MarketView
        decreases entries.len(),
    {
        if entries.len() == 0 {
            self
        } else {
            let m = self.with_balances(entries.drop_last());
            MarketView {
                storage_deposits: m.storage_deposits.insert(entries.last().0, entries.last().1),
                ..m
            }
        }
    }

    /// The market with each of the listings put in, one after the other.
    pub open spec fn with_sales(self, sales: Seq<SaleView>) -> MarketView
        decreases sales.len(),
    {
        if sales.len() == 0 {
            self
        } else {
            self.with_sales(sales.drop_last()).with_sale(sales.last())
        }
    }

    /// Each of the listings, put in one after the other, finds that its
    /// seller has prepaid for one listing more.
    pub open spec fn admits(self, sales: Seq<SaleView>) -> bool
        decreases sales.len(),
    {
        sales.len() == 0 || (self.admits(sales.drop_last()) && self.with_sales(
            sales.drop_last(),
        ).storage_shortfall(sales.last().owner_id) <= 0)
    }

    /// The market without the listing under the key.
    pub open spec fn without_sale(self, k: KeyView) -> MarketView {
        if self.sales.contains_key(k) {
            MarketView {
                sales: self.sales.remove(k),
                by_owner_id: index_drop(self.by_owner_id, self.sales[k].owner_id, k),
                by_nft_contract_id: index_drop(self.by_nft_contract_id, k.nft_contract_id, k),
                ..self
            }
        } else {
            self
        }
    }

    /// The market with the listing. A listing of the same seller under the
    /// same key is overwritten where it stands; one of another seller is
    /// taken out first, and the new one filed at the end.
    pub open spec fn with_sale(self, sale: SaleView) -> MarketView {
        let k = sale.key();
        let base = if self.sales.contains_key(k) && self.sales[k].owner_id != sale.owner_id {
            self.without_sale(k)
        } else {
            self
        };
        MarketView {
            sales: base.sales.insert(k, sale),
            by_owner_id: index_add(base.by_owner_id, sale.owner_id, k),
            by_nft_contract_id: index_add(base.by_nft_contract_id, k.nft_contract_id, k),
            ..base
        }
    }

    /// The market with a new price on the listing and, if one is given, a new
    /// currency.
    pub open spec fn repriced(self, k: KeyView, price: u128, token: Option<Seq<char>>) -> MarketView {
        let before = self.sales[k];
        let after = SaleView {
            price: price,
            ft_contract_id: match token {
                Some(t) => t,
                None => before.ft_contract_id,
            },
            ..before
        };
        MarketView { sales: self.sales.insert(k, after), ..self }
    }
}

/// Taking a listing out keeps the registry and its indices in step.
pub proof fn lemma_without_sale_consistent(m: MarketView, k: KeyView)
    requires
        m.consistent(),
    ensures
        m.without_sale(k).consistent(),
        !m.without_sale(k).listed(k),
{
    if m.sales.contains_key(k) {
        lemma_index_drop(m.by_owner_id, m.sales[k].owner_id, k);
        lemma_index_drop(m.by_nft_contract_id, k.nft_contract_id, k);
    }
}

/// Putting a listing in keeps the registry and its indices in step.
pub proof fn lemma_with_sale_consistent(m: MarketView, sale: SaleView)
    requires
        m.consistent(),
    ensures
        m.with_sale(sale).consistent(),
        m.with_sale(sale).listed(sale.key()),
{
    let k = sale.key();
    let base = if m.sales.contains_key(k) && m.sales[k].owner_id != sale.owner_id {
        m.without_sale(k)
    } else {
        m
    };
    lemma_without_sale_consistent(m, k);
    lemma_index_add(base.by_owner_id, sale.owner_id, k);
    lemma_index_add(base.by_nft_contract_id, k.nft_contract_id, k);
}

/// Taking a listing out leaves every account funded.
pub proof fn lemma_without_sale_funded(m: MarketView, k: KeyView)
    requires
        m.consistent(),
        m.funded(),
    ensures
        m.without_sale(k).funded(),
        forall|a: Seq<char>| #[trigger] m.without_sale(k).listing_count(a) <= m.listing_count(a),
{
    let r = m.without_sale(k);
    if m.sales.contains_key(k) {
        lemma_index_drop(m.by_owner_id, m.sales[k].owner_id, k);
    }
    assert forall|a: Seq<char>| #[trigger] r.listing_count(a) <= m.listing_count(a) by {
        if m.sales.contains_key(k) {
            if a != m.sales[k].owner_id {
                assert(index_len(r.by_owner_id, a) == index_len(m.by_owner_id, a));
            }
        }
    }
    assert forall|a: Seq<char>| #[trigger] r.required_storage(a) <= r.balance_of(a) by {
        assert(r.listing_count(a) <= m.listing_count(a));
        assert(m.required_storage(a) <= m.balance_of(a));
    }
}

/// Putting a listing in leaves every account funded, where the seller has
/// prepaid for one listing more.
pub proof fn lemma_with_sale_funded(m: MarketView, sale: SaleView)
    requires
        m.consistent(),
        m.funded(),
        m.required_storage(sale.owner_id) + STORAGE_PER_SALE <= m.balance_of(sale.owner_id),
    ensures
        m.with_sale(sale).funded(),
{
    let k = sale.key();
    let base = if m.sales.contains_key(k) && m.sales[k].owner_id != sale.owner_id {
        m.without_sale(k)
    } else {
        m
    };
    let r = m.with_sale(sale);
    lemma_without_sale_consistent(m, k);
    lemma_without_sale_funded(m, k);
    lemma_index_add(base.by_owner_id, sale.owner_id, k);
    assert forall|a: Seq<char>| #[trigger] r.required_storage(a) <= r.balance_of(a) by {
        assert(base.listing_count(a) <= m.listing_count(a));
        assert(m.required_storage(a) <= m.balance_of(a));
        if a == sale.owner_id {
            assert(r.listing_count(a) <= base.listing_count(a) + 1);
        } else {
            assert(index_len(r.by_owner_id, a) == index_len(base.by_owner_id, a));
        }
    }
}

/// A new price or currency leaves the indices as they are.
pub proof fn lemma_repriced_consistent(m: MarketView, k: KeyView, price: u128, token: Option<Seq<char>>)
    requires
        m.consistent(),
        m.listed(k),
    ensures
        m.repriced(k, price, token).consistent(),
{
}

} // verus!
