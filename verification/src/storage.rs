//! The tables that hold the market's state.
//!
//! Each is a vector searched from the front and stands for a finite map or
//! set. New entries go to the end and an entry that leaves closes the gap, so a
//! table keeps its entries in the order in which they came.

use vstd::prelude::*;
use crate::keyed::{
    as_map, distinct_keys, lemma_as_map_at, lemma_as_map_len, lemma_as_map_push,
    lemma_as_map_remove, lemma_as_map_update,
};
use crate::model::{index_add, index_drop, index_len, IndexView, KeyView, SaleView};
use crate::sale::{Sale, SaleKey};

verus! {

/// Each listing with its key.
pub open spec fn sale_entries(v: Seq<Sale>) -> Seq<(KeyView, SaleView)> {
    v.map_values(|s: Sale| (s@.key(), s@))
}

/// Each balance with its account.
pub open spec fn deposit_entries(v: Seq<(String, u128)>) -> Seq<(Seq<char>, u128)> {
    v.map_values(|d: (String, u128)| (d.0@, d.1))
}

/// The listings, by key.
pub struct SaleTable {
    items: Vec<Sale>,
}

impl View for SaleTable {
    type V = Map<KeyView, SaleView>;

    closed spec fn view(&self) -> Map<KeyView, SaleView> {
        as_map(self.entries())
    }
}

impl SaleTable {
    pub closed spec fn entries(&self) -> Seq<(KeyView, SaleView)> {
        sale_entries(self.items@)
    }

    /// No two listings share a key.
    pub closed spec fn wf(&self) -> bool {
        distinct_keys(self.entries())
    }

    pub fn new() -> (r: Self)
        ensures
            r.wf(),
            r@ == Map::<KeyView, SaleView>::empty(),
    {
        let r = SaleTable { items: Vec::new() };
        assert(r@ =~= Map::<KeyView, SaleView>::empty());
        r
    }

    fn find(&self, nft_contract_id: &String, token_id: &String) -> (r: Option<usize>)
        requires
            self.wf(),
        ensures
            match r {
                Some(i) => i < self.items.len() && self.items[i as int]@.key() == (KeyView {
                    nft_contract_id: nft_contract_id@,
                    token_id: token_id@,
                }),
                None => !self@.contains_key(
                    KeyView { nft_contract_id: nft_contract_id@, token_id: token_id@ },
                ),
            },
    {
        let ghost k = KeyView { nft_contract_id: nft_contract_id@, token_id: token_id@ };
        let mut i: usize = 0;
        while i < self.items.len()
            invariant
                i <= self.items.len(),
                k == (KeyView { nft_contract_id: nft_contract_id@, token_id: token_id@ }),
                forall|j: int| 0 <= j < i ==> (#[trigger] self.entries()[j]).0 != k,
            decreases self.items.len() - i,
        {
            if self.items[i].nft_contract_id == *nft_contract_id && self.items[i].token_id == *token_id {
                return Some(i);
            }
            i += 1;
        }
        None
    }

    /// The listing under the key, if there is one.
    pub fn get(&self, nft_contract_id: &String, token_id: &String) -> (r: Option<&Sale>)
        requires
            self.wf(),
        ensures
            r is Some <==> self@.contains_key(
                KeyView { nft_contract_id: nft_contract_id@, token_id: token_id@ },
            ),
            r is Some ==> r.unwrap()@ == self@[KeyView {
                nft_contract_id: nft_contract_id@,
                token_id: token_id@,
            }],
    {
        match self.find(nft_contract_id, token_id) {
            Some(i) => {
                proof {
                    lemma_as_map_at(self.entries(), i as int);
                }
                Some(&self.items[i])
            },
            None => None,
        }
    }

    /// Puts the listing under its key: over the one that is there, else at
    /// the end.
    pub fn put(&mut self, sale: Sale)
        requires
            old(self).wf(),
        ensures
            final(self).wf(),
            final(self)@ == old(self)@.insert(sale@.key(), sale@),
    {
        let ghost before = self.entries();
        match self.find(&sale.nft_contract_id, &sale.token_id) {
            Some(i) => {
                proof {
                    lemma_as_map_update(before, i as int, sale@);
                }
                self.items.set(i, sale);
                assert(self.entries() =~= before.update(i as int, (before[i as int].0, sale@)));
            },
            None => {
                proof {
                    lemma_as_map_push(before, sale@.key(), sale@);
                }
                self.items.push(sale);
                assert(self.entries() =~= before.push((sale@.key(), sale@)));
            },
        }
    }

    /// Takes the listing under the key out, if there is one.
    pub fn take(&mut self, nft_contract_id: &String, token_id: &String) -> (r: Option<Sale>)
        requires
            old(self).wf(),
        ensures
            final(self).wf(),
            r is Some <==> old(self)@.contains_key(
                KeyView { nft_contract_id: nft_contract_id@, token_id: token_id@ },
            ),
            r is Some ==> r.unwrap()@ == old(self)@[KeyView {
                nft_contract_id: nft_contract_id@,
                token_id: token_id@,
            }],
            final(self)@ == old(self)@.remove(
                KeyView { nft_contract_id: nft_contract_id@, token_id: token_id@ },
            ),
    {
        let ghost before = self.entries();
        let ghost k = KeyView { nft_contract_id: nft_contract_id@, token_id: token_id@ };
        match self.find(nft_contract_id, token_id) {
            Some(i) => {
                proof {
                    lemma_as_map_at(before, i as int);
                    lemma_as_map_remove(before, i as int);
                }
                let sale = self.items.remove(i);
                assert(self.entries() =~= before.remove(i as int));
                Some(sale)
            },
            None => {
                assert(self@ =~= self@.remove(k));
                None
            },
        }
    }

    /// All the listings, each key once.
    pub fn to_vec(&self) -> (r: Vec<Sale>)
        requires
            self.wf(),
        ensures
            distinct_keys(sale_entries(r@)),
            as_map(sale_entries(r@)) == self@,
    {
        let mut out: Vec<Sale> = Vec::new();
        let mut i: usize = 0;
        while i < self.items.len()
            invariant
                i <= self.items.len(),
                out@.len() == i,
                forall|j: int| 0 <= j < i ==> (#[trigger] out@[j])@ == self.items@[j]@,
            decreases self.items.len() - i,
        {
            out.push(self.items[i].clone());
            i += 1;
        }
        assert(sale_entries(out@) =~= self.entries());
        out
    }

    /// How many listings there are.
    pub fn len(&self) -> (n: usize)
        requires
            self.wf(),
        ensures
            n == self@.dom().len(),
            self@.dom().finite(),
    {
        proof {
            lemma_as_map_len(self.entries());
        }
        self.items.len()
    }
}

/// The keys of a vector of keys.
pub open spec fn keys_view(keys: Seq<SaleKey>) -> Seq<KeyView> {
    keys.map_values(|k: SaleKey| k@)
}

/// The keys filed under one account.
pub struct KeyGroup {
    id: String,
    keys: Vec<SaleKey>,
}

/// A secondary index: for each account the keys filed under it, oldest first.
pub struct KeyIndex {
    groups: Vec<KeyGroup>,
}

impl View for KeyIndex {
    type V = IndexView;

    closed spec fn view(&self) -> IndexView {
        as_map(self.entries())
    }
}

fn find_key(keys: &Vec<SaleKey>, nft_contract_id: &String, token_id: &String) -> (r: Option<usize>)
    ensures
        match r {
            Some(j) => j < keys.len() && keys[j as int]@ == (KeyView {
                nft_contract_id: nft_contract_id@,
                token_id: token_id@,
            }),
            None => !keys_view(keys@).contains(
                KeyView { nft_contract_id: nft_contract_id@, token_id: token_id@ },
            ),
        },
{
    let ghost k = KeyView { nft_contract_id: nft_contract_id@, token_id: token_id@ };
    let mut j: usize = 0;
    while j < keys.len()
        invariant
            j <= keys.len(),
            k == (KeyView { nft_contract_id: nft_contract_id@, token_id: token_id@ }),
            forall|x: int| 0 <= x < j ==> #[trigger] keys_view(keys@)[x] != k,
        decreases keys.len() - j,
    {
        if keys[j].nft_contract_id == *nft_contract_id && keys[j].token_id == *token_id {
            return Some(j);
        }
        j += 1;
    }
    None
}

impl KeyIndex {
    pub closed spec fn entries(&self) -> Seq<(Seq<char>, Seq<KeyView>)> {
        self.groups@.map_values(|g: KeyGroup| (g.id@, keys_view(g.keys@)))
    }

    /// No two lists belong to one account, no list is empty, and none names
    /// a key twice.
    pub closed spec fn wf(&self) -> bool {
        &&& distinct_keys(self.entries())
        &&& forall|i: int|
            0 <= i < self.entries().len() ==> (#[trigger] self.entries()[i]).1.len() > 0
                && self.entries()[i].1.no_duplicates()
    }

    pub fn new() -> (r: Self)
        ensures
            r.wf(),
            r@ == Map::<Seq<char>, Seq<KeyView>>::empty(),
    {
        let r = KeyIndex { groups: Vec::new() };
        assert(r@ =~= Map::<Seq<char>, Seq<KeyView>>::empty());
        r
    }

    fn find(&self, id: &String) -> (r: Option<usize>)
        requires
            self.wf(),
        ensures
            match r {
                Some(i) => i < self.groups.len() && self.groups[i as int].id@ == id@
                    && self@.contains_key(id@) && self@[id@] == keys_view(
                    self.groups[i as int].keys@,
                ),
                None => !self@.contains_key(id@),
            },
    {
        let mut i: usize = 0;
        while i < self.groups.len()
            invariant
                self.wf(),
                i <= self.groups.len(),
                forall|j: int| 0 <= j < i ==> (#[trigger] self.entries()[j]).0 != id@,
            decreases self.groups.len() - i,
        {
            if self.groups[i].id == *id {
                proof {
                    lemma_as_map_at(self.entries(), i as int);
                }
                return Some(i);
            }
            i += 1;
        }
        None
    }

    /// The keys filed under the account, if there are any.
    pub fn keys(&self, id: &String) -> (r: Option<&Vec<SaleKey>>)
        requires
            self.wf(),
        ensures
            r is Some <==> self@.contains_key(id@),
            r is Some ==> keys_view(r.unwrap()@) == self@[id@],
    {
        match self.find(id) {
            Some(i) => Some(&self.groups[i].keys),
            None => None,
        }
    }

    /// How many keys are filed under the account.
    pub fn count(&self, id: &String) -> (n: usize)
        requires
            self.wf(),
        ensures
            n == index_len(self@, id@),
    {
        match self.find(id) {
            Some(i) => self.groups[i].keys.len(),
            None => 0,
        }
    }

    /// Files the key under the account, at the end of its list, unless it is
    /// there already.
    pub fn add(&mut self, id: &String, key: SaleKey)
        requires
            old(self).wf(),
        ensures
            final(self).wf(),
            final(self)@ == index_add(old(self)@, id@, key@),
    {
        let ghost before = self.entries();
        match self.find(id) {
            None => {
                let mut keys: Vec<SaleKey> = Vec::new();
                keys.push(key);
                assert(keys_view(keys@) =~= seq![key@]);
                proof {
                    lemma_as_map_push(before, id@, seq![key@]);
                }
                self.groups.push(KeyGroup { id: id.clone(), keys });
                assert(self.entries() =~= before.push((id@, seq![key@])));
            },
            Some(i) => {
                let found = find_key(&self.groups[i].keys, &key.nft_contract_id, &key.token_id);
                match found {
                    Some(j) => {
                        assert(keys_view(self.groups[i as int].keys@)[j as int] == key@);
                    },
                    None => {
                        let ghost list = keys_view(self.groups[i as int].keys@);
                        proof {
                            lemma_as_map_update(before, i as int, list.push(key@));
                            assert forall|a: int, b: int|
                                0 <= a < list.len() + 1 && 0 <= b < list.len() + 1 && a != b implies list.push(
                                key@,
                            )[a] != list.push(key@)[b] by {
                                if a < list.len() && b < list.len() {
                                    assert(list[a] != list[b]);
                                } else if a < list.len() {
                                    assert(list[a] != key@);
                                } else {
                                    assert(list[b] != key@);
                                }
                            }
                        }
                        self.groups[i].keys.push(key);
                        assert(keys_view(self.groups[i as int].keys@) =~= list.push(key@));
                        assert(self.entries() =~= before.update(i as int, (id@, list.push(key@))));
                    },
                }
            },
        }
    }

    /// Takes the key out of the account's list, and the list away once it is
    /// empty.
    pub fn drop_key(&mut self, id: &String, nft_contract_id: &String, token_id: &String)
        requires
            old(self).wf(),
        ensures
            final(self).wf(),
            final(self)@ == index_drop(
                old(self)@,
                id@,
                KeyView { nft_contract_id: nft_contract_id@, token_id: token_id@ },
            ),
    {
        let ghost before = self.entries();
        let ghost k = KeyView { nft_contract_id: nft_contract_id@, token_id: token_id@ };
        match self.find(id) {
            None => {},
            Some(i) => {
                let found = find_key(&self.groups[i].keys, nft_contract_id, token_id);
                match found {
                    None => {},
                    Some(j) => {
                        let ghost list = keys_view(self.groups[i as int].keys@);
                        proof {
                            assert(list[j as int] == k);
                            assert(list.contains(k));
                            let x = list.index_of(k);
                            assert(x == j);
                            crate::model::lemma_remove_contains(list, j as int);
                        }
                        if self.groups[i].keys.len() == 1 {
                            proof {
                                lemma_as_map_remove(before, i as int);
                            }
                            self.groups.remove(i);
                            assert(self.entries() =~= before.remove(i as int));
                        } else {
                            proof {
                                lemma_as_map_update(before, i as int, list.remove(j as int));
                            }
                            self.groups[i].keys.remove(j);
                            assert(keys_view(self.groups[i as int].keys@) =~= list.remove(j as int));
                            assert(self.entries() =~= before.update(
                                i as int,
                                (id@, list.remove(j as int)),
                            ));
                        }
                    },
                }
            },
        }
    }
}

/// What one account has prepaid for storage.
pub struct Deposit {
    account: String,
    amount: u128,
}

/// The prepaid storage, by account.
pub struct DepositTable {
    items: Vec<Deposit>,
}

impl View for DepositTable {
    type V = Map<Seq<char>, u128>;

    closed spec fn view(&self) -> Map<Seq<char>, u128> {
        as_map(self.entries())
    }
}

impl DepositTable {
    pub closed spec fn entries(&self) -> Seq<(Seq<char>, u128)> {
        self.items@.map_values(|d: Deposit| (d.account@, d.amount))
    }

    /// No account has two balances.
    pub closed spec fn wf(&self) -> bool {
        distinct_keys(self.entries())
    }

    pub fn new() -> (r: Self)
        ensures
            r.wf(),
            r@ == Map::<Seq<char>, u128>::empty(),
    {
        let r = DepositTable { items: Vec::new() };
        assert(r@ =~= Map::<Seq<char>, u128>::empty());
        r
    }

    fn find(&self, account: &String) -> (r: Option<usize>)
        requires
            self.wf(),
        ensures
            match r {
                Some(i) => i < self.items.len() && self.items[i as int].account@ == account@
                    && self@.contains_key(account@) && self@[account@] == self.items[i as int].amount,
                None => !self@.contains_key(account@),
            },
    {
        let mut i: usize = 0;
        while i < self.items.len()
            invariant
                self.wf(),
                i <= self.items.len(),
                forall|j: int| 0 <= j < i ==> (#[trigger] self.entries()[j]).0 != account@,
            decreases self.items.len() - i,
        {
            if self.items[i].account == *account {
                proof {
                    lemma_as_map_at(self.entries(), i as int);
                }
                return Some(i);
            }
            i += 1;
        }
        None
    }

    /// The balance of the account, if it has one.
    pub fn get(&self, account: &String) -> (r: Option<u128>)
        requires
            self.wf(),
        ensures
            r is Some <==> self@.contains_key(account@),
            r is Some ==> r.unwrap() == self@[account@],
    {
        match self.find(account) {
            Some(i) => Some(self.items[i].amount),
            None => None,
        }
    }

    /// Sets the balance of the account.
    pub fn insert(&mut self, account: &String, amount: u128)
        requires
            old(self).wf(),
        ensures
            final(self).wf(),
            final(self)@ == old(self)@.insert(account@, amount),
    {
        let ghost before = self.entries();
        match self.find(account) {
            Some(i) => {
                proof {
                    lemma_as_map_update(before, i as int, amount);
                }
                self.items[i].amount = amount;
                assert(self.entries() =~= before.update(i as int, (account@, amount)));
            },
            None => {
                proof {
                    lemma_as_map_push(before, account@, amount);
                }
                self.items.push(Deposit { account: account.clone(), amount });
                assert(self.entries() =~= before.push((account@, amount)));
            },
        }
    }

    /// All the balances, each with its account.
    pub fn to_vec(&self) -> (r: Vec<(String, u128)>)
        requires
            self.wf(),
        ensures
            distinct_keys(deposit_entries(r@)),
            as_map(deposit_entries(r@)) == self@,
    {
        let mut out: Vec<(String, u128)> = Vec::new();
        let mut i: usize = 0;
        while i < self.items.len()
            invariant
                i <= self.items.len(),
                out@.len() == i,
                forall|j: int|
                    0 <= j < i ==> (#[trigger] out@[j]).0@ == self.items@[j].account@ && out@[j].1
                        == self.items@[j].amount,
            decreases self.items.len() - i,
        {
            out.push((self.items[i].account.clone(), self.items[i].amount));
            i += 1;
        }
        assert(deposit_entries(out@) =~= self.entries());
        out
    }

    /// Forgets the balance of the account.
    pub fn remove(&mut self, account: &String)
        requires
            old(self).wf(),
        ensures
            final(self).wf(),
            final(self)@ == old(self)@.remove(account@),
    {
        let ghost before = self.entries();
        match self.find(account) {
            Some(i) => {
                proof {
                    lemma_as_map_remove(before, i as int);
                }
                self.items.remove(i);
                assert(self.entries() =~= before.remove(i as int));
            },
            None => {
                assert(self@ =~= self@.remove(account@));
            },
        }
    }
}

/// The fungible tokens that a listing may ask for.
pub struct TokenSet {
    items: Vec<String>,
}

impl View for TokenSet {
    type V = Set<Seq<char>>;

    closed spec fn view(&self) -> Set<Seq<char>> {
        self.items@.map_values(|t: String| t@).to_set()
    }
}

impl TokenSet {
    pub fn new() -> (r: Self)
        ensures
            r@ == Set::<Seq<char>>::empty(),
    {
        let r = TokenSet { items: Vec::new() };
        assert(r@ =~= Set::<Seq<char>>::empty());
        r
    }

    /// Whether the token is in the set.
    pub fn contains(&self, token: &String) -> (r: bool)
        ensures
            r == self@.contains(token@),
    {
        let ghost names = self.items@.map_values(|t: String| t@);
        let mut i: usize = 0;
        while i < self.items.len()
            invariant
                i <= self.items.len(),
                names == self.items@.map_values(|t: String| t@),
                forall|j: int| 0 <= j < i ==> #[trigger] names[j] != token@,
            decreases self.items.len() - i,
        {
            if self.items[i] == *token {
                assert(names[i as int] == token@);
                return true;
            }
            i += 1;
        }
        false
    }

    /// All the tokens of the set.
    pub fn to_vec(&self) -> (r: Vec<String>)
        ensures
            crate::model::names(r@).to_set() == self@,
    {
        let mut out: Vec<String> = Vec::new();
        let mut i: usize = 0;
        while i < self.items.len()
            invariant
                i <= self.items.len(),
                out@.len() == i,
                forall|j: int| 0 <= j < i ==> (#[trigger] out@[j])@ == self.items@[j]@,
            decreases self.items.len() - i,
        {
            out.push(self.items[i].clone());
            i += 1;
        }
        assert(crate::model::names(out@) =~= self.items@.map_values(|t: String| t@));
        out
    }

    /// Adds the token; says whether it was new.
    pub fn insert(&mut self, token: &String) -> (r: bool)
        ensures
            final(self)@ == old(self)@.insert(token@),
            r == !old(self)@.contains(token@),
    {
        let ghost names = self.items@.map_values(|t: String| t@);
        if self.contains(token) {
            assert(self@ =~= self@.insert(token@));
            false
        } else {
            self.items.push(token.clone());
            assert(self.items@.map_values(|t: String| t@) =~= names.push(token@));
            assert forall|q: Seq<char>| #[trigger] names.push(token@).contains(q) <==> names.contains(q) || q == token@ by {
                crate::model::lemma_push_contains(names, token@, q);
            }
            assert(self@ =~= old(self)@.insert(token@));
            true
        }
    }
}

} // verus!
