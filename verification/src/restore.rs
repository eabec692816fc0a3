//! Building a market from what `owner_id`, `approved_ft_tokens`,
//! `storage_balances` and `all_sales` gave of an earlier one.

use vstd::prelude::*;
use crate::model::{names, MarketView};
use crate::sale::{sales_view, Sale};
use crate::storage::deposit_entries;
use crate::{Contract, STORAGE_PER_SALE};

verus! {

impl Contract {
    /// A market of the given owner with these tokens approved, these
    /// balances prepaid and these listings, put in one after the other.
    /// There is none where a seller has not prepaid for a listing.
    pub fn restore(
        owner_id: String,
        ft_token_ids: Vec<String>,
        balances: Vec<(String, u128)>,
        sales: Vec<Sale>,
    ) -> (r: Option<Contract>)
        ensures
            r is Some <==> MarketView::initial(owner_id@).with_tokens(names(ft_token_ids@)).with_balances(
                deposit_entries(balances@),
            ).admits(sales_view(sales@)),
            r is Some ==> r.unwrap().wf(),
            r is Some ==> r.unwrap()@ == MarketView::initial(owner_id@).with_tokens(
                names(ft_token_ids@),
            ).with_balances(deposit_entries(balances@)).with_sales(sales_view(sales@)),
    {
        let ghost start = MarketView::initial(owner_id@).with_tokens(names(ft_token_ids@)).with_balances(
            deposit_entries(balances@),
        );
        let owner = owner_id.clone();
        let mut market = Contract::new(owner_id);
        let approved = market.add_ft_token_ids(&owner, ft_token_ids);
        assert(approved is Ok);
        let ghost opened = market@;
        let ghost entries = deposit_entries(balances@);
        let mut i: usize = 0;
        assert(entries.subrange(0, 0) =~= Seq::<(Seq<char>, u128)>::empty());
        while i < balances.len()
            invariant
                i <= balances.len(),
                entries == deposit_entries(balances@),
                market.stored(),
                opened.consistent(),
                opened.sales == Map::<crate::model::KeyView, crate::model::SaleView>::empty(),
                opened.by_owner_id == Map::<Seq<char>, Seq<crate::model::KeyView>>::empty(),
                market@ == opened.with_balances(entries.subrange(0, i as int)),
                market@.sales == opened.sales,
                market@.by_owner_id == opened.by_owner_id,
                market@.by_nft_contract_id == opened.by_nft_contract_id,
            decreases balances.len() - i,
        {
            let ghost done = market@;
            market.storage_deposits.insert(&balances[i].0, balances[i].1);
            proof {
                assert(entries.subrange(0, i as int + 1).drop_last() =~= entries.subrange(0, i as int));
                assert(entries.subrange(0, i as int + 1).last() == entries[i as int]);
                assert(market@ == (MarketView {
                    storage_deposits: done.storage_deposits.insert(entries[i as int].0, entries[i as int].1),
                    ..done
                }));
            }
            i += 1;
        }
        assert(entries.subrange(0, i as int) =~= entries);
        let ghost base = market@;
        assert(base == start);
        assert(base.consistent());
        assert forall|a: Seq<char>| #[trigger] base.required_storage(a) <= base.balance_of(a) by {
            assert(base.listing_count(a) == 0);
        }
        let ghost listings = sales_view(sales@);
        let mut j: usize = 0;
        assert(listings.subrange(0, 0) =~= Seq::<crate::model::SaleView>::empty());
        while j < sales.len()
            invariant
                j <= sales.len(),
                listings == sales_view(sales@),
                base == start,
                start == MarketView::initial(owner_id@).with_tokens(names(ft_token_ids@)).with_balances(
                    deposit_entries(balances@),
                ),
                market.wf(),
                base.admits(listings.subrange(0, j as int)),
                market@ == base.with_sales(listings.subrange(0, j as int)),
            decreases sales.len() - j,
        {
            proof {
                assert(listings.subrange(0, j as int + 1).drop_last() =~= listings.subrange(0, j as int));
                assert(listings.subrange(0, j as int + 1).last() == listings[j as int]);
            }
            let paid = market.storage_balance_of(&sales[j].owner_id);
            let listed = market.by_owner_id.count(&sales[j].owner_id);
            assert(market@.required_storage(sales@[j as int].owner_id@) <= market@.balance_of(
                sales@[j as int].owner_id@,
            ));
            let held: u128 = (listed as u128) * STORAGE_PER_SALE;
            if paid - held < STORAGE_PER_SALE {
                proof {
                    if base.admits(listings) {
                        lemma_admits_prefix(base, listings, j as int + 1);
                        assert(market@.storage_shortfall(listings[j as int].owner_id) <= 0);
                    }
                }
                return None;
            }
            market.insert_sale(sales[j].clone());
            j += 1;
        }
        assert(listings.subrange(0, j as int) =~= listings);
        Some(market)
    }
}

/// Listings that can all be put in can be put in up to any point.
pub proof fn lemma_admits_prefix(m: MarketView, sales: Seq<crate::model::SaleView>, n: int)
    requires
        0 <= n <= sales.len(),
        m.admits(sales),
    ensures
        m.admits(sales.subrange(0, n)),
    decreases sales.len(),
{
    if n == sales.len() {
        assert(sales.subrange(0, n) =~= sales);
    } else {
        lemma_admits_prefix(m, sales.drop_last(), n);
        assert(sales.drop_last().subrange(0, n) =~= sales.subrange(0, n));
    }
}

} // verus!
