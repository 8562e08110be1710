use key_market::{
    buy_key, cost_to_buy, cost_to_sell, sell_key, BuyMembershipMsg, Config, ContractError,
    CostToBuyMembershipResponse, FeeConfig, KeyLedger, QueryCostToBuyMembershipMsg,
    QueryCostToSellMembershipMsg, SellMembershipMsg, Transfer,
};

const FEE_DENOM: &str = "uluna";
const ADMIN: &str = "terra1";
const REGISTER_ADMIN: &str = "terra2";
const FEE_COLLECTOR: &str = "terra3";
const USER_1: &str = "terra4";
const USER_2: &str = "terra5";

fn config() -> Config {
    Config {
        admin_addr: ADMIN.to_string(),
        registration_admin_addr: REGISTER_ADMIN.to_string(),
        protocol_fee_collector_addr: FEE_COLLECTOR.to_string(),
        fee_denom: FEE_DENOM.to_string(),
        fees: FeeConfig { protocol_fee_bps: 500, issuer_fee_bps: 500, all_members_fee_bps: 500 },
    }
}

fn ledger_with(issuer: &str) -> KeyLedger {
    let mut ledger = KeyLedger::new();
    ledger.enable_membership(&issuer.to_string()).unwrap();
    ledger
}

fn quote_buy_of(ledger: &KeyLedger, issuer: &str, amount: u128) -> CostToBuyMembershipResponse {
    cost_to_buy(
        ledger,
        &QueryCostToBuyMembershipMsg { membership_issuer_addr: issuer.to_string(), amount },
        &config().fees,
    )
    .unwrap()
}

fn buy(ledger: &mut KeyLedger, who: &str, issuer: &str, amount: u128, paid: u128) -> Result<Vec<Transfer>, ContractError> {
    buy_key(
        ledger,
        &who.to_string(),
        &BuyMembershipMsg { membership_issuer_addr: issuer.to_string(), amount },
        &config(),
        paid,
    )
}

fn sell(ledger: &mut KeyLedger, who: &str, issuer: &str, amount: u128, paid: u128) -> Result<Vec<Transfer>, ContractError> {
    sell_key(
        ledger,
        &who.to_string(),
        &SellMembershipMsg { membership_issuer_addr: issuer.to_string(), amount },
        &config(),
        paid,
    )
}

fn supply_equals_sum(ledger: &KeyLedger, issuer: &str) -> bool {
    let s = ledger.supply(&issuer.to_string()).unwrap();
    let sum: u128 = ledger.holders(&issuer.to_string()).iter().map(|h| h.amount).sum();
    s == sum && s >= 1
}

#[test]
fn test_sell_key_insufficient_funds() {
    let mut ledger = ledger_with(USER_1);
    let uint_128_amount_30: u128 = 30;
    let uint_128_amount_10: u128 = 10;

    // User 1 buys 30 of its own keys, paying exactly the quote.
    let buy_quote = quote_buy_of(&ledger, USER_1, uint_128_amount_30);
    println!("query_user_1_simulate_buy_key_res {:?}", buy_quote);
    buy(&mut ledger, USER_1, USER_1, uint_128_amount_30, buy_quote.total_needed_from_user).unwrap();

    // Selling 10 with 1 uluna attached does not cover the fees.
    let sell_quote = cost_to_sell(
        &ledger,
        &QueryCostToSellMembershipMsg {
            membership_issuer_addr: USER_1.to_string(),
            amount: uint_128_amount_10,
        },
        &config().fees,
    )
    .unwrap();
    assert_eq!(
        sell(&mut ledger, USER_1, USER_1, uint_128_amount_10, 1),
        Err(ContractError::InsufficientFundsToPayDuringSell {
            needed: sell_quote.total_needed_from_user,
            available: 1,
        })
    );
    assert_eq!(sell_quote.total_needed_from_user, 61_734);
    assert_eq!(ledger.supply(&USER_1.to_string()), Ok(31));
}

#[test]
fn buy_thirty_from_fresh_issuer() {
    let mut ledger = ledger_with(USER_1);
    let q = quote_buy_of(&ledger, USER_1, 30);
    assert_eq!(
        q,
        CostToBuyMembershipResponse {
            price: 590_937,
            protocol_fee: 29_546,
            issuer_fee: 29_546,
            all_members_fee: 29_546,
            total_needed_from_user: 679_575,
        }
    );
    let transfers = buy(&mut ledger, USER_2, USER_1, 30, q.total_needed_from_user).unwrap();
    assert_eq!(ledger.supply(&USER_1.to_string()), Ok(31));
    assert_eq!(ledger.holding(&USER_2.to_string(), &USER_1.to_string()), 30);
    assert_eq!(ledger.holding(&USER_1.to_string(), &USER_1.to_string()), 1);
    assert_eq!(transfers.len(), 3);
    // The whole members' fee goes to the issuer, the only holder before the buy.
    assert_eq!((transfers[0].to_address.as_str(), transfers[0].amount), (USER_1, 29_546));
    assert_eq!((transfers[1].to_address.as_str(), transfers[1].amount), (USER_1, q.issuer_fee));
    assert_eq!((transfers[2].to_address.as_str(), transfers[2].amount), (FEE_COLLECTOR, q.protocol_fee));
    assert!(transfers.iter().all(|t| t.denom == FEE_DENOM));
    assert!(supply_equals_sum(&ledger, USER_1));
}

#[test]
fn buy_one_uluna_short_fails() {
    let mut ledger = ledger_with(USER_1);
    let q = quote_buy_of(&ledger, USER_1, 30);
    assert_eq!(
        buy(&mut ledger, USER_2, USER_1, 30, q.total_needed_from_user - 1),
        Err(ContractError::InsufficientFundsToPayDuringBuy {
            needed: q.total_needed_from_user,
            available: q.total_needed_from_user - 1,
        })
    );
    assert_eq!(ledger.supply(&USER_1.to_string()), Ok(1));
    assert_eq!(ledger.holding(&USER_2.to_string(), &USER_1.to_string()), 0);
}

#[test]
fn sell_limits() {
    let mut ledger = ledger_with(USER_1);
    let q = quote_buy_of(&ledger, USER_1, 5);
    buy(&mut ledger, USER_2, USER_1, 5, q.total_needed_from_user).unwrap();
    // Supply 6: the issuer holds 1, user 2 holds 5.
    assert_eq!(
        sell(&mut ledger, USER_1, USER_1, 2, 1_000_000),
        Err(ContractError::InsufficientKeysToSell { sell: 2, available: 1 })
    );
    assert_eq!(
        sell(&mut ledger, USER_2, USER_1, 6, 1_000_000),
        Err(ContractError::InsufficientKeysToSell { sell: 6, available: 5 })
    );
    let transfers = sell(&mut ledger, USER_2, USER_1, 5, 1_000_000).unwrap();
    assert_eq!(ledger.supply(&USER_1.to_string()), Ok(1));
    assert_eq!(ledger.holding(&USER_2.to_string(), &USER_1.to_string()), 0);
    assert_eq!(
        sell(&mut ledger, USER_1, USER_1, 1, 1_000_000),
        Err(ContractError::CannotSellLastKey { sell: 1, total_supply: 1 })
    );
    // Members' share to the issuer (the only holder left), issuer fee,
    // protocol fee, then the price to the seller.
    let last = transfers.last().unwrap();
    assert_eq!(last.to_address, USER_2);
    assert_eq!(last.amount, q.price);
    assert!(supply_equals_sum(&ledger, USER_1));
}

#[test]
fn round_trip_returns_the_price() {
    let mut ledger = ledger_with(USER_1);
    let bq = quote_buy_of(&ledger, USER_1, 7);
    buy(&mut ledger, USER_2, USER_1, 7, bq.total_needed_from_user).unwrap();
    let sq = cost_to_sell(
        &ledger,
        &QueryCostToSellMembershipMsg { membership_issuer_addr: USER_1.to_string(), amount: 7 },
        &config().fees,
    )
    .unwrap();
    assert_eq!(sq.price, bq.price);
    assert!(sq.price <= bq.total_needed_from_user + sq.total_needed_from_user);
    let transfers = sell(&mut ledger, USER_2, USER_1, 7, sq.total_needed_from_user).unwrap();
    assert_eq!(transfers.last().unwrap().amount, bq.price);
}

#[test]
fn buy_cost_grows_with_amount_and_supply() {
    let mut ledger = ledger_with(USER_1);
    let mut prev = 0;
    for n in 1..=20u128 {
        let q = quote_buy_of(&ledger, USER_1, n);
        assert!(q.price > prev);
        prev = q.price;
    }
    let before = quote_buy_of(&ledger, USER_1, 3);
    let q1 = quote_buy_of(&ledger, USER_1, 1);
    buy(&mut ledger, USER_2, USER_1, 1, q1.total_needed_from_user).unwrap();
    let after = quote_buy_of(&ledger, USER_1, 3);
    assert!(after.price > before.price);
    assert!(after.total_needed_from_user > before.total_needed_from_user);
}

#[test]
fn supply_matches_holdings_over_a_sequence() {
    let mut ledger = ledger_with(USER_1);
    let steps: [(&str, bool, u128); 6] = [
        (USER_2, true, 4),
        ("terra6", true, 2),
        (USER_2, false, 3),
        (USER_1, true, 1),
        ("terra6", false, 2),
        (USER_2, false, 1),
    ];
    for (who, is_buy, amount) in steps {
        if is_buy {
            let q = quote_buy_of(&ledger, USER_1, amount);
            buy(&mut ledger, who, USER_1, amount, q.total_needed_from_user).unwrap();
        } else {
            sell(&mut ledger, who, USER_1, amount, 10_000_000).unwrap();
        }
        assert!(supply_equals_sum(&ledger, USER_1));
    }
    assert_eq!(ledger.supply(&USER_1.to_string()), Ok(2));
}

#[test]
fn unregistered_and_repeated_and_zero() {
    let mut ledger = ledger_with(USER_1);
    assert_eq!(ledger.supply(&USER_2.to_string()), Err(ContractError::IssuerNotRegistered {}));
    assert_eq!(buy(&mut ledger, USER_1, USER_2, 1, 1_000_000), Err(ContractError::IssuerNotRegistered {}));
    assert_eq!(sell(&mut ledger, USER_1, USER_2, 1, 1_000_000), Err(ContractError::IssuerNotRegistered {}));
    assert_eq!(
        ledger.enable_membership(&USER_1.to_string()),
        Err(ContractError::MembershipAlreadyEnabled {})
    );
    assert_eq!(buy(&mut ledger, USER_2, USER_1, 0, 1_000_000), Err(ContractError::InvalidAmount {}));
    assert_eq!(sell(&mut ledger, USER_1, USER_1, 0, 1_000_000), Err(ContractError::InvalidAmount {}));
    assert_eq!(ledger.holders(&USER_2.to_string()).len(), 0);
}

#[test]
fn huge_buy_overflows() {
    let mut ledger = ledger_with(USER_1);
    assert_eq!(
        buy(&mut ledger, USER_2, USER_1, u128::MAX / 2, u128::MAX),
        Err(ContractError::Overflow {})
    );
    assert_eq!(ledger.supply(&USER_1.to_string()), Ok(1));
}

#[test]
fn sell_checks_holding_then_funds_then_last_key() {
    // The issuer holds its only key: selling two is a want of keys.
    let mut ledger = ledger_with(USER_1);
    assert_eq!(
        sell(&mut ledger, USER_1, USER_1, 2, 1_000_000),
        Err(ContractError::InsufficientKeysToSell { sell: 2, available: 1 })
    );
    // The issuer holds the whole supply of 6.
    let q = quote_buy_of(&ledger, USER_1, 5);
    buy(&mut ledger, USER_1, USER_1, 5, q.total_needed_from_user).unwrap();
    let sq = key_market::quote_sell(6, 6, &config().fees).unwrap();
    assert!(sq.total_needed_from_user > 0);
    assert_eq!(
        sell(&mut ledger, USER_1, USER_1, 6, 0),
        Err(ContractError::InsufficientFundsToPayDuringSell {
            needed: sq.total_needed_from_user,
            available: 0,
        })
    );
    assert_eq!(
        sell(&mut ledger, USER_1, USER_1, 6, sq.total_needed_from_user),
        Err(ContractError::CannotSellLastKey { sell: 6, total_supply: 6 })
    );
    assert_eq!(ledger.supply(&USER_1.to_string()), Ok(6));
}

#[test]
fn zero_members_fee_still_pays_each_holder() {
    let mut ledger = ledger_with(USER_1);
    let mut cfg = config();
    cfg.fees.all_members_fee_bps = 0;
    let q = cost_to_buy(
        &ledger,
        &QueryCostToBuyMembershipMsg { membership_issuer_addr: USER_1.to_string(), amount: 30 },
        &cfg.fees,
    )
    .unwrap();
    assert_eq!(q.all_members_fee, 0);
    let transfers = buy_key(
        &mut ledger,
        &USER_2.to_string(),
        &BuyMembershipMsg { membership_issuer_addr: USER_1.to_string(), amount: 30 },
        &cfg,
        q.total_needed_from_user,
    )
    .unwrap();
    assert_eq!(transfers.len(), 3);
    assert_eq!((transfers[0].to_address.as_str(), transfers[0].amount), (USER_1, 0));
    assert_eq!((transfers[1].to_address.as_str(), transfers[1].amount), (USER_1, q.issuer_fee));
    assert_eq!((transfers[2].to_address.as_str(), transfers[2].amount), (FEE_COLLECTOR, q.protocol_fee));
}

#[test]
fn holders_are_kept_in_address_order() {
    let issuer = "terra_c";
    let mut ledger = ledger_with(issuer);
    for (who, n) in [("terra_b", 3u128), ("terra_a", 5u128), (issuer, 1u128)] {
        let q = quote_buy_of(&ledger, issuer, n);
        buy(&mut ledger, who, issuer, n, q.total_needed_from_user).unwrap();
    }
    let holders = ledger.holders(&issuer.to_string());
    let got: Vec<(&str, u128)> = holders.iter().map(|h| (h.holder_addr.as_str(), h.amount)).collect();
    assert_eq!(got, vec![("terra_a", 5), ("terra_b", 3), ("terra_c", 2)]);
    let t = ledger.member_fee_transfers(&issuer.to_string(), 100, 10, &FEE_DENOM.to_string());
    let paid: Vec<(&str, u128)> = t.iter().map(|t| (t.to_address.as_str(), t.amount)).collect();
    assert_eq!(paid, vec![("terra_a", 50), ("terra_b", 30), ("terra_c", 20)]);
    // A holder sold out keeps its record but is paid nothing.
    sell(&mut ledger, "terra_b", issuer, 3, 10_000_000).unwrap();
    let t = ledger.member_fee_transfers(&issuer.to_string(), 70, 7, &FEE_DENOM.to_string());
    let paid: Vec<(&str, u128)> = t.iter().map(|t| (t.to_address.as_str(), t.amount)).collect();
    assert_eq!(paid, vec![("terra_a", 50), ("terra_c", 20)]);
}
