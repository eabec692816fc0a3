use nft_market::error::MarketError;
use nft_market::external::Payment;
use nft_market::nft_callbacks::SaleConditionArgs;
use nft_market::{Contract, STORAGE_PER_SALE};

fn s(x: &str) -> String {
    x.to_string()
}

fn near_terms(price: u128) -> Option<SaleConditionArgs> {
    Some(SaleConditionArgs { price, ft_contract_id: s("near") })
}

#[test]
fn storage_cost_is_a_thousand_bytes() {
    assert_eq!(STORAGE_PER_SALE, 1000 * 10_000_000_000_000_000_000u128);
    let m = Contract::new(s("market.near"));
    assert_eq!(m.storage_minimum_balance(), 10_000_000_000_000_000_000_000u128);
}

#[test]
fn unknown_account_has_no_balance() {
    let m = Contract::new(s("market.near"));
    assert_eq!(m.storage_balance_of(&s("nobody.near")), 0);
}

#[test]
fn deposit_adds_to_the_balance() {
    let mut m = Contract::new(s("market.near"));
    let alice = s("alice.near");
    assert_eq!(m.storage_deposit(&alice, None, STORAGE_PER_SALE), Ok(()));
    assert_eq!(m.storage_balance_of(&alice), STORAGE_PER_SALE);
    assert_eq!(m.storage_deposit(&alice, None, STORAGE_PER_SALE + 5), Ok(()));
    assert_eq!(m.storage_balance_of(&alice), 2 * STORAGE_PER_SALE + 5);
}

#[test]
fn deposit_for_another_account() {
    let mut m = Contract::new(s("market.near"));
    let alice = s("alice.near");
    let bob = s("bob.near");
    assert_eq!(m.storage_deposit(&alice, Some(bob.clone()), STORAGE_PER_SALE), Ok(()));
    assert_eq!(m.storage_balance_of(&alice), 0);
    assert_eq!(m.storage_balance_of(&bob), STORAGE_PER_SALE);
}

#[test]
fn deposit_below_the_minimum_is_refused() {
    let mut m = Contract::new(s("market.near"));
    let alice = s("alice.near");
    assert_eq!(
        m.storage_deposit(&alice, None, STORAGE_PER_SALE - 1),
        Err(MarketError::InsufficientDeposit)
    );
    assert_eq!(m.storage_deposit(&alice, None, 0), Err(MarketError::InsufficientDeposit));
    assert_eq!(m.storage_balance_of(&alice), 0);
}

#[test]
fn deposit_past_the_largest_balance_is_refused() {
    let mut m = Contract::new(s("market.near"));
    let alice = s("alice.near");
    assert_eq!(m.storage_deposit(&alice, None, u128::MAX - 3), Ok(()));
    assert_eq!(m.storage_deposit(&alice, None, STORAGE_PER_SALE), Err(MarketError::BalanceOverflow));
    assert_eq!(m.storage_balance_of(&alice), u128::MAX - 3);
}

#[test]
fn withdraw_needs_exactly_one_unit() {
    let mut m = Contract::new(s("market.near"));
    let alice = s("alice.near");
    m.storage_deposit(&alice, None, STORAGE_PER_SALE).unwrap();
    assert_eq!(m.storage_withdraw(&alice, 0), Err(MarketError::RequiresOneYocto));
    assert_eq!(m.storage_withdraw(&alice, 2), Err(MarketError::RequiresOneYocto));
    assert_eq!(m.storage_balance_of(&alice), STORAGE_PER_SALE);
}

#[test]
fn withdraw_without_listings_pays_everything() {
    let mut m = Contract::new(s("market.near"));
    let alice = s("alice.near");
    m.storage_deposit(&alice, None, 3 * STORAGE_PER_SALE + 7).unwrap();
    assert_eq!(
        m.storage_withdraw(&alice, 1),
        Ok(Some(Payment { receiver_id: alice.clone(), amount: 3 * STORAGE_PER_SALE + 7 }))
    );
    assert_eq!(m.storage_balance_of(&alice), 0);
    assert_eq!(m.storage_withdraw(&alice, 1), Ok(None));
}

#[test]
fn withdraw_leaves_what_the_listings_require() {
    let mut m = Contract::new(s("market.near"));
    let alice = s("alice.near");
    let nft = s("nft.near");
    m.storage_deposit(&alice, None, 3 * STORAGE_PER_SALE + 7).unwrap();
    m.nft_on_approve(&nft, &alice, s("t1"), alice.clone(), 1, near_terms(10)).unwrap();
    m.nft_on_approve(&nft, &alice, s("t2"), alice.clone(), 2, near_terms(20)).unwrap();
    assert_eq!(
        m.storage_withdraw(&alice, 1),
        Ok(Some(Payment { receiver_id: alice.clone(), amount: STORAGE_PER_SALE + 7 }))
    );
    assert_eq!(m.storage_balance_of(&alice), 2 * STORAGE_PER_SALE);
}

#[test]
fn withdraw_with_exact_quota_pays_nothing() {
    let mut m = Contract::new(s("market.near"));
    let alice = s("alice.near");
    let nft = s("nft.near");
    m.storage_deposit(&alice, None, STORAGE_PER_SALE).unwrap();
    m.nft_on_approve(&nft, &alice, s("t1"), alice.clone(), 1, near_terms(10)).unwrap();
    assert_eq!(m.storage_withdraw(&alice, 1), Ok(None));
    assert_eq!(m.storage_balance_of(&alice), STORAGE_PER_SALE);
}

#[test]
fn only_the_owner_approves_tokens() {
    let mut m = Contract::new(s("market.near"));
    assert_eq!(
        m.add_ft_token_ids(&s("alice.near"), vec![s("usdt.near")]),
        Err(MarketError::Unauthorized)
    );
    assert_eq!(
        m.add_ft_token_ids(&s("market.near"), vec![s("usdt.near"), s("near"), s("usdt.near"), s("dai.near")]),
        Ok(vec![true, false, false, true])
    );
    assert_eq!(m.add_ft_token_ids(&s("market.near"), vec![]), Ok(vec![]));
    assert_eq!(m.add_ft_token_ids(&s("market.near"), vec![s("dai.near")]), Ok(vec![false]));
}

#[test]
fn a_market_comes_back_from_its_parts() {
    let mut m = Contract::new(s("market.near"));
    m.add_ft_token_ids(&s("market.near"), vec![s("usdt.near")]).unwrap();
    m.storage_deposit(&s("alice.near"), None, 2 * STORAGE_PER_SALE + 1).unwrap();
    m.storage_deposit(&s("bob.near"), None, STORAGE_PER_SALE).unwrap();
    m.nft_on_approve(&s("nft.near"), &s("alice.near"), s("t1"), s("alice.near"), 1, near_terms(10)).unwrap();
    m.nft_on_approve(&s("nft.near"), &s("bob.near"), s("t2"), s("bob.near"), 2, near_terms(20)).unwrap();
    m.nft_on_approve(&s("art.near"), &s("alice.near"), s("t1"), s("alice.near"), 3, near_terms(30)).unwrap();
    assert_eq!(m.owner_id(), s("market.near"));
    assert_eq!(m.approved_ft_tokens(), vec![s("near"), s("usdt.near")]);
    assert_eq!(
        m.storage_balances(),
        vec![(s("alice.near"), 2 * STORAGE_PER_SALE + 1), (s("bob.near"), STORAGE_PER_SALE)]
    );
    assert_eq!(m.all_sales().len(), 3);
    let again =
        Contract::restore(m.owner_id(), m.approved_ft_tokens(), m.storage_balances(), m.all_sales()).unwrap();
    assert_eq!(again.owner_id(), m.owner_id());
    assert_eq!(again.approved_ft_tokens(), m.approved_ft_tokens());
    assert_eq!(again.storage_balances(), m.storage_balances());
    assert_eq!(again.all_sales(), m.all_sales());
    assert_eq!(
        again.get_sales_by_owner_id(s("alice.near"), None, Some(9)),
        m.get_sales_by_owner_id(s("alice.near"), None, Some(9))
    );
    assert_eq!(
        again.get_sales_by_nft_contract_id(s("nft.near"), None, Some(9)),
        m.get_sales_by_nft_contract_id(s("nft.near"), None, Some(9))
    );
    assert_eq!(again.get_supply_by_owner_id(s("alice.near")), 2);
}

#[test]
fn listings_without_prepaid_storage_do_not_come_back() {
    let mut m = Contract::new(s("market.near"));
    m.storage_deposit(&s("alice.near"), None, STORAGE_PER_SALE).unwrap();
    m.nft_on_approve(&s("nft.near"), &s("alice.near"), s("t1"), s("alice.near"), 1, near_terms(10)).unwrap();
    assert!(Contract::restore(s("market.near"), vec![], vec![], m.all_sales()).is_none());
    assert!(Contract::restore(
        s("market.near"),
        vec![],
        vec![(s("alice.near"), STORAGE_PER_SALE - 1)],
        m.all_sales()
    )
    .is_none());
    let empty = Contract::restore(s("market.near"), vec![], vec![], vec![]).unwrap();
    assert_eq!(empty.get_supply_sales(), 0);
    assert_eq!(empty.approved_ft_tokens(), vec![s("near")]);
}
