use key_market::curve::price_of_units;
use key_market::{distribute_fee, quote_buy, quote_sell, FeeConfig, KeyHolder};

fn holder(addr: &str, amount: u128) -> KeyHolder {
    KeyHolder { holder_addr: addr.to_string(), amount }
}

#[test]
fn curve_exact_values() {
    assert_eq!(price_of_units(0, 0), Some(0));
    assert_eq!(price_of_units(0, 1), Some(0));
    assert_eq!(price_of_units(1, 1), Some(62));
    assert_eq!(price_of_units(1, 30), Some(590_937));
    assert_eq!(price_of_units(21, 10), Some(411_562));
    assert_eq!(price_of_units(u128::MAX, 1), None);
}

#[test]
fn quote_fees_are_floored_shares_of_price() {
    let fees = FeeConfig { protocol_fee_bps: 1_000, issuer_fee_bps: 250, all_members_fee_bps: 0 };
    let q = quote_buy(1, 30, &fees).unwrap();
    assert_eq!(q.price, 590_937);
    assert_eq!(q.protocol_fee, 59_093);
    assert_eq!(q.issuer_fee, 14_773);
    assert_eq!(q.all_members_fee, 0);
    assert_eq!(q.total_needed_from_user, 590_937 + 59_093 + 14_773);
    let s = quote_sell(31, 10, &fees).unwrap();
    assert_eq!(s.price, 411_562);
    assert_eq!(s.total_needed_from_user, 41_156 + 10_289);
}

#[test]
fn members_fee_split_five_three_two() {
    let holders = vec![holder("a", 5), holder("b", 3), holder("c", 2)];
    let t = distribute_fee(&holders, 100, 10, &"uluna".to_string());
    let got: Vec<(String, u128)> = t.iter().map(|t| (t.to_address.clone(), t.amount)).collect();
    assert_eq!(got, vec![("a".to_string(), 50), ("b".to_string(), 30), ("c".to_string(), 20)]);
    let paid: u128 = t.iter().map(|t| t.amount).sum();
    assert_eq!(100 - paid, 0);
}

#[test]
fn members_fee_split_leaves_remainder() {
    let holders = vec![holder("a", 1), holder("b", 1), holder("c", 1), holder("d", 0)];
    let t = distribute_fee(&holders, 100, 3, &"uluna".to_string());
    assert_eq!(t.len(), 3);
    assert!(t.iter().all(|t| t.amount == 33 && t.denom == "uluna"));
    let paid: u128 = t.iter().map(|t| t.amount).sum();
    assert_eq!(100 - paid, 1);
}

#[test]
fn members_fee_split_large_values_do_not_overflow() {
    let holders = vec![holder("a", u128::MAX / 2), holder("b", u128::MAX / 2)];
    let t = distribute_fee(&holders, u128::MAX, u128::MAX - 1, &"uluna".to_string());
    assert_eq!(t.len(), 2);
    assert_eq!(t[0].amount, u128::MAX / 2);
}

#[test]
fn members_fee_split_pays_zero_shares() {
    let holders = vec![holder("a", 1), holder("b", 99)];
    let t = distribute_fee(&holders, 50, 100, &"uluna".to_string());
    let got: Vec<(String, u128)> = t.iter().map(|t| (t.to_address.clone(), t.amount)).collect();
    assert_eq!(got, vec![("a".to_string(), 0), ("b".to_string(), 49)]);
}
