//! The registry: putting a listing in and taking one out, with both indices
//! kept in step.

use vstd::prelude::*;
use crate::error::MarketError;
use crate::model::{
    lemma_with_sale_consistent, lemma_with_sale_funded, lemma_without_sale_consistent,
    lemma_without_sale_funded, KeyView,
};
use crate::sale::{Sale, SaleKey};
use crate::{Contract, STORAGE_PER_SALE};

verus! {

impl Contract {
    /// Takes the listing of a token out of the registry and out of both
    /// indices, and hands it back.
    pub fn delete_sale(&mut self, nft_contract_id: &String, token_id: &String) -> (r: Result<
        Sale,
        MarketError,
    >)
        requires
            old(self).wf(),
        ensures
            final(self).wf(),
            match r {
                Ok(sale) => {
                    &&& old(self)@.listed(
                        KeyView { nft_contract_id: nft_contract_id@, token_id: token_id@ },
                    )
                    &&& sale@ == old(self)@.sales[KeyView {
                        nft_contract_id: nft_contract_id@,
                        token_id: token_id@,
                    }]
                    &&& final(self)@ == old(self)@.without_sale(
                        KeyView { nft_contract_id: nft_contract_id@, token_id: token_id@ },
                    )
                },
                Err(e) => {
                    &&& e == MarketError::SaleNotFound
                    &&& !old(self)@.listed(
                        KeyView { nft_contract_id: nft_contract_id@, token_id: token_id@ },
                    )
                    &&& final(self)@ == old(self)@
                },
            },
    {
        let ghost before = self@;
        let ghost k = KeyView { nft_contract_id: nft_contract_id@, token_id: token_id@ };
        match self.sales.take(nft_contract_id, token_id) {
            None => {
                assert(self@.sales =~= before.sales);
                Err(MarketError::SaleNotFound)
            },
            Some(sale) => {
                self.by_owner_id.drop_key(&sale.owner_id, nft_contract_id, token_id);
                self.by_nft_contract_id.drop_key(nft_contract_id, nft_contract_id, token_id);
                proof {
                    lemma_without_sale_consistent(before, k);
                    lemma_without_sale_funded(before, k);
                    assert(self@ == before.without_sale(k));
                }
                Ok(sale)
            },
        }
    }

    /// Puts the listing into the registry and files it in both indices. A
    /// listing that another seller has under the same key leaves first.
    pub(crate) fn insert_sale(&mut self, sale: Sale)
        requires
            old(self).wf(),
            old(self)@.required_storage(sale@.owner_id) + STORAGE_PER_SALE <= old(self)@.balance_of(
                sale@.owner_id,
            ),
        ensures
            final(self).wf(),
            final(self)@ == old(self)@.with_sale(sale@),
    {
        let ghost before = self@;
        let resold = match self.sales.get(&sale.nft_contract_id, &sale.token_id) {
            Some(listed) => listed.owner_id != sale.owner_id,
            None => false,
        };
        if resold {
            let _ = self.delete_sale(&sale.nft_contract_id, &sale.token_id);
        }
        let key = SaleKey {
            nft_contract_id: sale.nft_contract_id.clone(),
            token_id: sale.token_id.clone(),
        };
        self.by_owner_id.add(&sale.owner_id, key.clone());
        self.by_nft_contract_id.add(&sale.nft_contract_id, key);
        proof {
            lemma_with_sale_consistent(before, sale@);
            lemma_with_sale_funded(before, sale@);
        }
        self.sales.put(sale);
        assert(self@ == before.with_sale(sale@));
    }
}

} // verus!
