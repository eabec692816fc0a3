use nft_market::error::MarketError;
use nft_market::external::{Payment, TokenTransferOutcome, TransferRequest, MAX_LEN_PAYOUT};
use nft_market::nft_callbacks::{PurchaseArgs, SaleConditionArgs};
use nft_market::{Contract, Payout, STORAGE_PER_SALE};

fn s(x: &str) -> String {
    x.to_string()
}

fn market_with(nft: &str, owner: &str, token: &str, price: u128, ft: &str) -> Contract {
    let mut m = Contract::new(s("market.near"));
    m.storage_deposit(&s(owner), None, STORAGE_PER_SALE).unwrap();
    m.nft_on_approve(
        &s(nft),
        &s(owner),
        s(token),
        s(owner),
        11,
        Some(SaleConditionArgs { price, ft_contract_id: s(ft) }),
    )
    .unwrap();
    m
}

fn pay(to: &str, amount: u128) -> Payment {
    Payment { receiver_id: s(to), amount }
}

fn payout(entries: &[(&str, u128)]) -> Option<Payout> {
    Some(Payout { payout: entries.iter().map(|(a, n)| pay(a, *n)).collect() })
}

#[test]
fn a_listing_is_sold_once() {
    let mut m = Contract::new(s("market.near"));
    assert_eq!(m.storage_deposit(&s("alice.near"), None, m.storage_minimum_balance()), Ok(()));
    m.nft_on_approve(
        &s("nft.near"),
        &s("alice.near"),
        s("x"),
        s("alice.near"),
        11,
        Some(SaleConditionArgs { price: 500, ft_contract_id: s("near") }),
    )
    .unwrap();
    let request = m.offer(&s("bob.near"), 500, s("nft.near"), s("x")).unwrap();
    assert_eq!(
        request,
        TransferRequest {
            nft_contract_id: s("nft.near"),
            receiver_id: s("bob.near"),
            token_id: s("x"),
            approval_id: 11,
            memo: s("payout from market"),
            balance: 500,
            max_len_payout: 7,
            ft_contract_id: None,
        }
    );
    assert_eq!(m.get_sale(s("nft.near"), s("x")), None);
    assert_eq!(m.get_supply_sales(), 0);
    let settlement = Contract::resolve_purchase(s("bob.near"), 500, None, payout(&[("alice.near", 500)]));
    assert_eq!(settlement.price, 500);
    assert!(!settlement.refunded);
    assert_eq!(settlement.payments, vec![pay("alice.near", 500)]);
    assert_eq!(m.offer(&s("carol.near"), 500, s("nft.near"), s("x")), Err(MarketError::SaleNotFound));
    assert_eq!(m.offer(&s("bob.near"), 900, s("nft.near"), s("x")), Err(MarketError::SaleNotFound));
}

#[test]
fn what_is_tendered_above_the_price_is_forwarded() {
    let mut m = market_with("nft.near", "alice.near", "x", 500, "near");
    let request = m.offer(&s("bob.near"), 650, s("nft.near"), s("x")).unwrap();
    assert_eq!(request.balance, 650);
    assert_eq!(request.max_len_payout, MAX_LEN_PAYOUT);
}

#[test]
fn refused_offers_change_nothing() {
    let mut m = market_with("nft.near", "alice.near", "x", 500, "near");
    assert_eq!(m.offer(&s("bob.near"), 0, s("nft.near"), s("x")), Err(MarketError::ZeroDeposit));
    assert_eq!(m.offer(&s("bob.near"), 0, s("nft.near"), s("nope")), Err(MarketError::ZeroDeposit));
    assert_eq!(m.offer(&s("bob.near"), 500, s("nft.near"), s("nope")), Err(MarketError::SaleNotFound));
    assert_eq!(m.offer(&s("alice.near"), 500, s("nft.near"), s("x")), Err(MarketError::SelfPurchase));
    assert_eq!(m.offer(&s("bob.near"), 499, s("nft.near"), s("x")), Err(MarketError::InsufficientFunds));
    assert_eq!(m.get_supply_sales(), 1);
    assert!(m.get_sale(s("nft.near"), s("x")).is_some());
}

#[test]
fn a_listing_in_a_token_is_not_for_native_currency() {
    let mut m = market_with("nft.near", "alice.near", "x", 500, "usdt.near");
    assert_eq!(m.offer(&s("bob.near"), 500, s("nft.near"), s("x")), Err(MarketError::WrongCurrency));
    assert_eq!(m.offer(&s("alice.near"), 1, s("nft.near"), s("x")), Err(MarketError::WrongCurrency));
    assert_eq!(m.get_supply_sales(), 1);
}

#[test]
fn tokens_without_a_message_go_back() {
    let mut m = market_with("nft.near", "alice.near", "x", 500, "usdt.near");
    assert_eq!(
        m.ft_on_transfer(&s("usdt.near"), s("bob.near"), 500, None),
        Ok(TokenTransferOutcome::Returned(500))
    );
    assert_eq!(m.get_supply_sales(), 1);
}

#[test]
fn tokens_buy_a_listing() {
    let mut m = market_with("nft.near", "alice.near", "x", 500, "usdt.near");
    let args = PurchaseArgs { nft_contract_id: s("nft.near"), token_id: s("x") };
    assert_eq!(
        m.ft_on_transfer(&s("usdt.near"), s("bob.near"), 501, Some(args.clone())),
        Ok(TokenTransferOutcome::Purchase(TransferRequest {
            nft_contract_id: s("nft.near"),
            receiver_id: s("bob.near"),
            token_id: s("x"),
            approval_id: 11,
            memo: s("payout from market"),
            balance: 501,
            max_len_payout: 7,
            ft_contract_id: Some(s("usdt.near")),
        }))
    );
    assert_eq!(m.get_supply_sales(), 0);
    assert_eq!(
        m.ft_on_transfer(&s("usdt.near"), s("carol.near"), 501, Some(args)),
        Err(MarketError::SaleNotFound)
    );
}

#[test]
fn refused_token_purchases_change_nothing() {
    let mut m = market_with("nft.near", "alice.near", "x", 500, "usdt.near");
    let args = PurchaseArgs { nft_contract_id: s("nft.near"), token_id: s("x") };
    let gone = PurchaseArgs { nft_contract_id: s("nft.near"), token_id: s("y") };
    assert_eq!(m.ft_on_transfer(&s("usdt.near"), s("bob.near"), 500, Some(gone)), Err(MarketError::SaleNotFound));
    assert_eq!(
        m.ft_on_transfer(&s("dai.near"), s("bob.near"), 500, Some(args.clone())),
        Err(MarketError::WrongCurrency)
    );
    assert_eq!(
        m.ft_on_transfer(&s("usdt.near"), s("alice.near"), 500, Some(args.clone())),
        Err(MarketError::SelfPurchase)
    );
    assert_eq!(
        m.ft_on_transfer(&s("usdt.near"), s("bob.near"), 499, Some(args.clone())),
        Err(MarketError::InsufficientFunds)
    );
    assert_eq!(m.get_supply_sales(), 1);
    assert_eq!(
        m.check_purchase(&s("nft.near"), &s("x"), &s("bob.near"), 500, &s("usdt.near")),
        None
    );
}

#[test]
fn process_purchase_removes_before_the_outcome() {
    let mut m = market_with("nft.near", "alice.near", "x", 500, "near");
    let request = m.process_purchase(s("nft.near"), s("x"), 500, s("bob.near"), Some(s("usdt.near"))).unwrap();
    assert_eq!(request.ft_contract_id, Some(s("usdt.near")));
    assert_eq!(request.approval_id, 11);
    assert_eq!(m.get_supply_by_owner_id(s("alice.near")), 0);
    assert_eq!(
        m.process_purchase(s("nft.near"), s("x"), 500, s("bob.near"), None),
        Err(MarketError::SaleNotFound)
    );
    // The listing stays gone when the purchase is refunded; the seller lists again.
    let settlement = Contract::resolve_purchase(s("bob.near"), 500, None, None);
    assert!(settlement.refunded);
    assert_eq!(m.get_sale(s("nft.near"), s("x")), None);
    m.nft_on_approve(
        &s("nft.near"),
        &s("alice.near"),
        s("x"),
        s("alice.near"),
        12,
        Some(SaleConditionArgs { price: 500, ft_contract_id: s("near") }),
    )
    .unwrap();
    assert!(m.offer(&s("bob.near"), 500, s("nft.near"), s("x")).is_ok());
}

#[test]
fn a_payout_one_above_the_price_is_paid() {
    let settlement =
        Contract::resolve_purchase(s("bob.near"), 300, None, payout(&[("alice.near", 270), ("artist.near", 31)]));
    assert!(!settlement.refunded);
    assert_eq!(settlement.price, 300);
    assert_eq!(settlement.payments, vec![pay("alice.near", 270), pay("artist.near", 31)]);
    assert_eq!(settlement.ft_contract_id, None);
    assert_eq!(settlement.memo(), s("Marketplace Royalties"));
}

#[test]
fn a_payout_one_below_the_price_is_paid() {
    let settlement =
        Contract::resolve_purchase(s("bob.near"), 300, Some(s("usdt.near")), payout(&[("a.near", 100), ("b.near", 199)]));
    assert!(!settlement.refunded);
    assert_eq!(settlement.payments, vec![pay("a.near", 100), pay("b.near", 199)]);
    assert_eq!(settlement.ft_contract_id, Some(s("usdt.near")));
}

#[test]
fn a_payout_with_eight_payees_is_refunded() {
    let eight = payout(&[
        ("a.near", 100),
        ("b.near", 100),
        ("c.near", 50),
        ("d.near", 10),
        ("e.near", 10),
        ("f.near", 10),
        ("g.near", 10),
        ("h.near", 10),
    ]);
    let settlement = Contract::resolve_purchase(s("bob.near"), 300, None, eight);
    assert!(settlement.refunded);
    assert_eq!(settlement.price, 300);
    assert_eq!(settlement.payments, vec![pay("bob.near", 300)]);
    assert_eq!(settlement.memo(), s("Marketplace Refund"));
}

#[test]
fn a_payout_with_seven_payees_is_paid() {
    let seven: Vec<(&str, u128)> = vec![
        ("a.near", 100),
        ("b.near", 100),
        ("c.near", 50),
        ("d.near", 20),
        ("e.near", 10),
        ("f.near", 10),
        ("g.near", 10),
    ];
    let settlement = Contract::resolve_purchase(s("bob.near"), 300, None, payout(&seven));
    assert!(!settlement.refunded);
    assert_eq!(settlement.payments.len(), 7);
    assert_eq!(settlement.payments.iter().map(|p| p.amount).sum::<u128>(), 300);
}

#[test]
fn a_payout_off_by_two_is_refunded() {
    for entries in [vec![("a.near", 302u128)], vec![("a.near", 298)], vec![("a.near", 150), ("b.near", 152)]] {
        let settlement = Contract::resolve_purchase(s("bob.near"), 300, Some(s("usdt.near")), payout(&entries));
        assert!(settlement.refunded);
        assert_eq!(settlement.payments, vec![pay("bob.near", 300)]);
        assert_eq!(settlement.ft_contract_id, Some(s("usdt.near")));
    }
}

#[test]
fn an_empty_or_missing_payout_is_refunded() {
    for p in [payout(&[]), None] {
        let settlement = Contract::resolve_purchase(s("bob.near"), 300, None, p);
        assert!(settlement.refunded);
        assert_eq!(settlement.payments, vec![pay("bob.near", 300)]);
    }
    let free = Contract::resolve_purchase(s("bob.near"), 0, None, payout(&[]));
    assert!(free.refunded);
    assert_eq!(free.payments, vec![pay("bob.near", 0)]);
}

#[test]
fn sums_beyond_the_largest_amount_are_told_apart() {
    let max = u128::MAX;
    assert!(Payout { payout: vec![pay("a.near", max), pay("b.near", 1)] }.is_acceptable(max));
    assert!(Payout { payout: vec![pay("a.near", max), pay("b.near", 1), pay("c.near", 0)] }.is_acceptable(max));
    assert!(!Payout { payout: vec![pay("a.near", max), pay("b.near", 2)] }.is_acceptable(max));
    assert!(!Payout { payout: vec![pay("a.near", max), pay("b.near", 1), pay("c.near", 1)] }.is_acceptable(max));
    assert!(!Payout { payout: vec![pay("a.near", max), pay("b.near", max)] }.is_acceptable(5));
    assert!(Payout { payout: vec![pay("a.near", 0)] }.is_acceptable(0));
    assert!(Payout { payout: vec![pay("a.near", 1)] }.is_acceptable(0));
    assert!(Payout { payout: vec![pay("a.near", 0)] }.is_acceptable(1));
    assert!(!Payout { payout: vec![pay("a.near", 2)] }.is_acceptable(0));
    assert!(!Payout { payout: vec![] }.is_acceptable(0));
}

#[test]
fn what_is_paid_adds_up_or_goes_back() {
    for price in [0u128, 1, 2, 299, 300, 301] {
        for a in [0u128, 1, 149, 150, 151, 300] {
            for b in [0u128, 1, 149, 150, 151] {
                let settlement = Contract::resolve_purchase(s("bob.near"), price, None, payout(&[("a.near", a), ("b.near", b)]));
                let sum: u128 = settlement.payments.iter().map(|p| p.amount).sum();
                if settlement.refunded {
                    assert_eq!(settlement.payments, vec![pay("bob.near", price)]);
                    assert!(a + b > price + 1 || a + b + 1 < price);
                } else {
                    assert_eq!(settlement.payments, vec![pay("a.near", a), pay("b.near", b)]);
                    assert!(sum <= price + 1 && sum + 1 >= price);
                }
            }
        }
    }
}
