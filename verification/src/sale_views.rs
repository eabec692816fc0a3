//! Reading the market: counts, single listings, and listings page by page.

use vstd::prelude::*;
use crate::model::{index_len, indexed, page, KeyView, SaleView};
use crate::sale::{sales_view, Sale, SaleKey};
use crate::storage::keys_view;
use crate::Contract;

verus! {

impl Contract {
    /// How many listings the market holds.
    pub fn get_supply_sales(&self) -> (r: u64)
        requires
            self.wf(),
        ensures
            r == self@.sales.dom().len(),
            self@.sales.dom().finite(),
    {
        self.sales.len() as u64
    }

    /// How many listings the account has.
    pub fn get_supply_by_owner_id(&self, account_id: String) -> (r: u64)
        requires
            self.wf(),
        ensures
            r == self@.listing_count(account_id@),
    {
        self.by_owner_id.count(&account_id) as u64
    }

    /// The account's listings, oldest first: those after the first
    /// `from_index`, and no more than `limit` of them. Without a limit there
    /// are none.
    pub fn get_sales_by_owner_id(&self, account_id: String, from_index: Option<u128>, limit: Option<u64>) -> (r:
        Vec<Sale>)
        requires
            self.wf(),
        ensures
            sales_view(r@) == page(
                self@.listings(self@.by_owner_id, account_id@),
                from_index.unwrap_or(0) as nat,
                limit.unwrap_or(0) as nat,
            ),
    {
        match self.by_owner_id.keys(&account_id) {
            None => {
                let r: Vec<Sale> = Vec::new();
                assert(sales_view(r@) =~= Seq::<SaleView>::empty());
                r
            },
            Some(keys) => {
                assert forall|i: int| 0 <= i < keys@.len() implies self@.sales.contains_key(
                    #[trigger] keys_view(keys@)[i],
                ) by {
                    assert(indexed(self@.by_owner_id, account_id@, keys_view(keys@)[i]));
                }
                self.page_of(keys, from_index.unwrap_or(0), limit.unwrap_or(0))
            },
        }
    }

    /// How many tokens of the contract are listed.
    pub fn get_supply_by_nft_contract_id(&self, nft_contract_id: String) -> (r: u64)
        requires
            self.wf(),
        ensures
            r == index_len(self@.by_nft_contract_id, nft_contract_id@),
    {
        self.by_nft_contract_id.count(&nft_contract_id) as u64
    }

    /// The listings of the contract's tokens, oldest first: those after the
    /// first `from_index`, and no more than `limit` of them. Without a limit
    /// there are none.
    pub fn get_sales_by_nft_contract_id(
        &self,
        nft_contract_id: String,
        from_index: Option<u128>,
        limit: Option<u64>,
    ) -> (r: Vec<Sale>)
        requires
            self.wf(),
        ensures
            sales_view(r@) == page(
                self@.listings(self@.by_nft_contract_id, nft_contract_id@),
                from_index.unwrap_or(0) as nat,
                limit.unwrap_or(0) as nat,
            ),
    {
        match self.by_nft_contract_id.keys(&nft_contract_id) {
            None => {
                let r: Vec<Sale> = Vec::new();
                assert(sales_view(r@) =~= Seq::<SaleView>::empty());
                r
            },
            Some(keys) => {
                assert forall|i: int| 0 <= i < keys@.len() implies self@.sales.contains_key(
                    #[trigger] keys_view(keys@)[i],
                ) by {
                    assert(indexed(self@.by_nft_contract_id, nft_contract_id@, keys_view(keys@)[i]));
                }
                self.page_of(keys, from_index.unwrap_or(0), limit.unwrap_or(0))
            },
        }
    }

    /// The listing of the token, if there is one.
    pub fn get_sale(&self, nft_contract_id: String, token_id: String) -> (r: Option<Sale>)
        requires
            self.wf(),
        ensures
            r is Some <==> self@.listed(
                KeyView { nft_contract_id: nft_contract_id@, token_id: token_id@ },
            ),
            r is Some ==> r.unwrap()@ == self@.sales[KeyView {
                nft_contract_id: nft_contract_id@,
                token_id: token_id@,
            }],
    {
        match self.sales.get(&nft_contract_id, &token_id) {
            Some(sale) => Some(sale.clone()),
            None => None,
        }
    }

    /// The listings under the keys from place `start` on, up to `limit` of
    /// them.
    fn page_of(&self, keys: &Vec<SaleKey>, start: u128, limit: u64) -> (r: Vec<Sale>)
        requires
            self.wf(),
            forall|i: int| 0 <= i < keys@.len() ==> self@.sales.contains_key(#[trigger] keys_view(keys@)[i]),
        ensures
            sales_view(r@) == page(
                keys_view(keys@).map_values(|k: KeyView| self@.sales[k]),
                start as nat,
                limit as nat,
            ),
    {
        let ghost all = keys_view(keys@).map_values(|k: KeyView| self@.sales[k]);
        let mut out: Vec<Sale> = Vec::new();
        let len = keys.len();
        if start >= len as u128 {
            assert(sales_view(out@) =~= Seq::<SaleView>::empty());
            return out;
        }
        let first = start as usize;
        let room = len - first;
        let end = if limit as u128 >= room as u128 {
            len
        } else {
            first + limit as usize
        };
        let mut i = first;
        assert(sales_view(out@) =~= all.subrange(first as int, first as int));
        while i < end
            invariant
                self.wf(),
                first <= i <= end <= len,
                len == keys.len(),
                all == keys_view(keys@).map_values(|k: KeyView| self@.sales[k]),
                forall|j: int| 0 <= j < keys@.len() ==> self@.sales.contains_key(#[trigger] keys_view(keys@)[j]),
                sales_view(out@) == all.subrange(first as int, i as int),
            decreases end - i,
        {
            assert(self@.sales.contains_key(keys_view(keys@)[i as int]));
            match self.sales.get(&keys[i].nft_contract_id, &keys[i].token_id) {
                Some(sale) => {
                    let ghost before = sales_view(out@);
                    out.push(sale.clone());
                    assert(sales_view(out@) =~= before.push(sale@));
                    assert(all.subrange(first as int, i as int + 1) =~= all.subrange(
                        first as int,
                        i as int,
                    ).push(all[i as int]));
                },
                None => {},
            }
            i += 1;
        }
        out
    }
}

} // verus!
