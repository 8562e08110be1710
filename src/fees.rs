//! Quotes (curve price plus fees) and the pro-rata split of the members' fee.

use vstd::prelude::*;
use crate::curve::{
    curve_price, price_computable, price_of_units, range_sq, PRICE_DENOMINATOR, PRICE_NUMERATOR,
};
use crate::key_holder::KeyHolder;
use crate::msg::{CostToBuyMembershipResponse, CostToSellMembershipResponse, FeeConfig};

verus! {

/// Denominator of every fee percentage.
pub const BPS_DENOMINATOR: u128 = 10_000;

/// A fund transfer for the host to settle: `amount` of `denom` to `to_address`.
#[derive(Clone, Debug, PartialEq, Eq)]
pub struct Transfer {
    pub to_address: String,
    pub denom: String,
    pub amount: u128,
}

/// Relies on `cosmwasm_std::Uint128::checked_multiply_ratio`: `a * num / den`,
/// floored, through a 256-bit product; an error when `den` is zero or the
/// quotient does not fit in 128 bits.
#[verifier::external_body]
fn checked_multiply_ratio(a: u128, num: u128, den: u128) -> (r: Option<u128>)
    ensures
        r == (if den != 0 && (a as int) * (num as int) / (den as int) <= u128::MAX {
            Some(((a as int) * (num as int) / (den as int)) as u128)
        } else {
            None
        }),
{
    match cosmwasm_std::Uint128::new(a).checked_multiply_ratio(num, den) {
        Ok(v) => Some(v.u128()),
        Err(_) => None,
    }
}

/// A fee of `bps` basis points on `price`, floored.
pub open spec fn fee_of(price: nat, bps: nat) -> nat {
    price * bps / BPS_DENOMINATOR as nat
}

/// The three fees charged on a trade priced at `price`.
pub open spec fn fees_total(price: nat, fees: FeeConfig) -> nat {
    fee_of(price, fees.protocol_fee_bps as nat) + fee_of(price, fees.issuer_fee_bps as nat)
        + fee_of(price, fees.all_members_fee_bps as nat)
}

/// Buying `amount` at `supply` prices the units `[supply, supply + amount - 1]`.
pub open spec fn buy_price(supply: nat, amount: nat) -> nat {
    curve_price(supply, amount)
}

/// Selling `amount` at `supply` prices the units `[supply - amount, supply - 1]`.
pub open spec fn sell_price(supply: nat, amount: nat) -> nat {
    curve_price((supply - amount) as nat, amount)
}

pub open spec fn buy_quote_fits(supply: nat, amount: nat, fees: FeeConfig) -> bool {
    &&& price_computable(supply, amount)
    &&& buy_price(supply, amount) + fees_total(buy_price(supply, amount), fees) <= u128::MAX
}

pub open spec fn sell_quote_fits(supply: nat, amount: nat, fees: FeeConfig) -> bool {
    &&& price_computable((supply - amount) as nat, amount)
    &&& fees_total(sell_price(supply, amount), fees) <= u128::MAX
}

pub open spec fn buy_quote(supply: nat, amount: nat, fees: FeeConfig) -> CostToBuyMembershipResponse {
    let p = buy_price(supply, amount);
    CostToBuyMembershipResponse {
        price: p as u128,
        protocol_fee: fee_of(p, fees.protocol_fee_bps as nat) as u128,
        issuer_fee: fee_of(p, fees.issuer_fee_bps as nat) as u128,
        all_members_fee: fee_of(p, fees.all_members_fee_bps as nat) as u128,
        total_needed_from_user: (p + fees_total(p, fees)) as u128,
    }
}

pub open spec fn sell_quote(supply: nat, amount: nat, fees: FeeConfig) -> CostToSellMembershipResponse {
    let p = sell_price(supply, amount);
    CostToSellMembershipResponse {
        price: p as u128,
        protocol_fee: fee_of(p, fees.protocol_fee_bps as nat) as u128,
        issuer_fee: fee_of(p, fees.issuer_fee_bps as nat) as u128,
        all_members_fee: fee_of(p, fees.all_members_fee_bps as nat) as u128,
        total_needed_from_user: fees_total(p, fees) as u128,
    }
}

fn fee_on(price: u128, bps: u128) -> (r: Option<u128>)
    ensures
        r == (if fee_of(price as nat, bps as nat) <= u128::MAX {
            Some(fee_of(price as nat, bps as nat) as u128)
        } else {
            None
        }),
{
    checked_multiply_ratio(price, bps, BPS_DENOMINATOR)
}

/// Price and fees of buying `amount` keys when `supply` are outstanding;
/// `None` where a value leaves `u128`.
pub fn quote_buy(supply: u128, amount: u128, fees: &FeeConfig) -> (r: Option<CostToBuyMembershipResponse>)
    ensures
        r == (if buy_quote_fits(supply as nat, amount as nat, *fees) {
            Some(buy_quote(supply as nat, amount as nat, *fees))
        } else {
            None
        }),
{
    let price = match price_of_units(supply, amount) {
        Some(p) => p,
        None => return None,
    };
    let protocol_fee = match fee_on(price, fees.protocol_fee_bps) {
        Some(f) => f,
        None => return None,
    };
    let issuer_fee = match fee_on(price, fees.issuer_fee_bps) {
        Some(f) => f,
        None => return None,
    };
    let all_members_fee = match fee_on(price, fees.all_members_fee_bps) {
        Some(f) => f,
        None => return None,
    };
    let total = match price.checked_add(protocol_fee) {
        Some(t) => t,
        None => return None,
    };
    let total = match total.checked_add(issuer_fee) {
        Some(t) => t,
        None => return None,
    };
    let total = match total.checked_add(all_members_fee) {
        Some(t) => t,
        None => return None,
    };
    Some(
        CostToBuyMembershipResponse {
            price,
            protocol_fee,
            issuer_fee,
            all_members_fee,
            total_needed_from_user: total,
        },
    )
}

/// Price and fees of selling `amount` keys when `supply` are outstanding;
/// `None` where a value leaves `u128`.
pub fn quote_sell(supply: u128, amount: u128, fees: &FeeConfig) -> (r: Option<CostToSellMembershipResponse>)
    requires
        amount <= supply,
    ensures
        r == (if sell_quote_fits(supply as nat, amount as nat, *fees) {
            Some(sell_quote(supply as nat, amount as nat, *fees))
        } else {
            None
        }),
{
    let price = match price_of_units(supply - amount, amount) {
        Some(p) => p,
        None => return None,
    };
    let protocol_fee = match fee_on(price, fees.protocol_fee_bps) {
        Some(f) => f,
        None => return None,
    };
    let issuer_fee = match fee_on(price, fees.issuer_fee_bps) {
        Some(f) => f,
        None => return None,
    };
    let all_members_fee = match fee_on(price, fees.all_members_fee_bps) {
        Some(f) => f,
        None => return None,
    };
    let total = match protocol_fee.checked_add(issuer_fee) {
        Some(t) => t,
        None => return None,
    };
    let total = match total.checked_add(all_members_fee) {
        Some(t) => t,
        None => return None,
    };
    Some(
        CostToSellMembershipResponse {
            price,
            protocol_fee,
            issuer_fee,
            all_members_fee,
            total_needed_from_user: total,
        },
    )
}

/// Total number of keys in a list of holdings.
pub open spec fn sum_amounts(holders: Seq<KeyHolder>) -> nat
    decreases holders.len(),
{
    if holders.len() == 0 {
        0
    } else {
        sum_amounts(holders.drop_last()) + holders.last().amount as nat
    }
}

/// Total amount moved by a list of transfers.
pub open spec fn transfers_total(ts: Seq<Transfer>) -> nat
    decreases ts.len(),
{
    if ts.len() == 0 {
        0
    } else {
        transfers_total(ts.drop_last()) + ts.last().amount as nat
    }
}

/// A holder's pro-rata part of `pool`, floored.
pub open spec fn share_of(pool: nat, amount: nat, base: nat) -> nat {
    pool * amount / base
}

/// One transfer per current holder (a record with keys), in list order, of
/// that holder's share of `pool` over `base` keys. What the floored shares
/// leave of `pool` is not paid out.
pub open spec fn holder_payouts(holders: Seq<KeyHolder>, pool: nat, base: nat, denom: String) -> Seq<Transfer>
    decreases holders.len(),
{
    if holders.len() == 0 {
        Seq::empty()
    } else {
        let rest = holder_payouts(holders.drop_last(), pool, base, denom);
        let h = holders.last();
        let s = share_of(pool, h.amount as nat, base);
        if h.amount > 0 {
            rest.push(Transfer { to_address: h.holder_addr, denom: denom, amount: s as u128 })
        } else {
            rest
        }
    }
}

/// Split `pool` among `holders` in proportion to their keys out of `base`.
pub fn distribute_fee(holders: &Vec<KeyHolder>, pool: u128, base: u128, denom: &String) -> (r: Vec<Transfer>)
    requires
        base > 0,
        forall|i: int| 0 <= i < holders@.len() ==> holders@[i].amount <= base,
    ensures
        r@ == holder_payouts(holders@, pool as nat, base as nat, *denom),
{
    let mut out: Vec<Transfer> = Vec::new();
    let mut i: usize = 0;
    while i < holders.len()
        invariant
            base > 0,
            i <= holders@.len(),
            forall|j: int| 0 <= j < holders@.len() ==> holders@[j].amount <= base,
            out@ == holder_payouts(holders@.subrange(0, i as int), pool as nat, base as nat, *denom),
        decreases holders@.len() - i,
    {
        let h = &holders[i];
        assert((pool as int) * (h.amount as int) / (base as int) <= pool) by (nonlinear_arith)
            requires
                base > 0,
                h.amount <= base,
        ;
        let share = checked_multiply_ratio(pool, h.amount, base).unwrap();
        if h.amount > 0 {
            out.push(Transfer { to_address: h.holder_addr.clone(), denom: denom.clone(), amount: share });
        }
        proof {
            assert(holders@.subrange(0, i + 1).drop_last() =~= holders@.subrange(0, i as int));
        }
        i = i + 1;
    }
    proof {
        assert(holders@.subrange(0, holders@.len() as int) =~= holders@);
    }
    out
}

/// No single holding exceeds the total of the list.
pub proof fn lemma_amount_within_sum(holders: Seq<KeyHolder>, i: int)
    requires
        0 <= i < holders.len(),
    ensures
        holders[i].amount <= sum_amounts(holders),
    decreases holders.len(),
{
    if i < holders.len() - 1 {
        lemma_amount_within_sum(holders.drop_last(), i);
    }
}

proof fn lemma_payouts_scaled(holders: Seq<KeyHolder>, pool: nat, base: nat, denom: String)
    requires
        base > 0,
        pool <= u128::MAX,
        forall|i: int| 0 <= i < holders.len() ==> holders[i].amount <= base,
    ensures
        transfers_total(holder_payouts(holders, pool, base, denom)) * base <= pool * sum_amounts(holders),
        pool * sum_amounts(holders) <= transfers_total(holder_payouts(holders, pool, base, denom)) * base
            + holder_payouts(holders, pool, base, denom).len() * (base - 1),
        holder_payouts(holders, pool, base, denom).len() == 0 ==> sum_amounts(holders) == 0,
    decreases holders.len(),
{
    if holders.len() > 0 {
        let rest = holders.drop_last();
        lemma_payouts_scaled(rest, pool, base, denom);
        let a = holders.last().amount as nat;
        let s = share_of(pool, a, base);
        assert(s * base <= pool * a && pool * a <= s * base + (base - 1) && s <= pool) by (nonlinear_arith)
            requires
                base > 0,
                a <= base,
                s == pool * a / base,
        ;
        let rp = holder_payouts(rest, pool, base, denom);
        let t = transfers_total(rp);
        let n = rp.len();
        let sr = sum_amounts(rest);
        assert(holders.drop_last() == rest);
        assert(sum_amounts(holders) == sr + a);
        assert(t * base + s * base == (t + s) * base) by (nonlinear_arith);
        assert(pool * sr + pool * a == pool * (sr + a)) by (nonlinear_arith);
        assert(n * (base - 1) + (base - 1) == (n + 1) * (base - 1)) by (nonlinear_arith);
        let p = holder_payouts(holders, pool, base, denom);
        if a > 0 {
            assert(p.drop_last() =~= rp);
            assert(p.last().amount == s);
            assert(transfers_total(p) == t + s);
            assert(transfers_total(p) * base == (t + s) * base);
            assert(p.len() == n + 1);
        } else {
            assert(p == rp);
            assert(pool * a == 0) by (nonlinear_arith)
                requires
                    a == 0,
            ;
        }
        assert(pool * sum_amounts(holders) == pool * (sr + a));
    } else {
        assert(transfers_total(holder_payouts(holders, pool, base, denom)) == 0);
        assert(sum_amounts(holders) == 0);
        assert(0 * base <= pool * 0) by (nonlinear_arith);
    }
}

/// The members' shares account for the members' fee: when the holdings add up
/// to the base they are measured against, the shares never pay out more than
/// the fee, and the undistributed rounding remainder is less than the number
/// of holders paid.
pub proof fn lemma_member_shares_within_fee(holders: Seq<KeyHolder>, pool: nat, base: nat, denom: String)
    requires
        base > 0,
        pool <= u128::MAX,
        sum_amounts(holders) == base,
    ensures
        transfers_total(holder_payouts(holders, pool, base, denom)) <= pool,
        pool - transfers_total(holder_payouts(holders, pool, base, denom)) < holder_payouts(
            holders,
            pool,
            base,
            denom,
        ).len(),
{
    assert forall|i: int| 0 <= i < holders.len() implies holders[i].amount <= base by {
        lemma_amount_within_sum(holders, i);
    }
    lemma_payouts_scaled(holders, pool, base, denom);
    let t = transfers_total(holder_payouts(holders, pool, base, denom));
    let n = holder_payouts(holders, pool, base, denom).len();
    assert(n >= 1);
    assert(t <= pool && pool - t < n) by (nonlinear_arith)
        requires
            base > 0,
            n >= 1,
            t * base <= pool * base,
            pool * base <= t * base + n * (base - 1),
    ;
}

proof fn lemma_range_sq_grows_with_count(lo: nat, n: nat, m: nat)
    requires
        n < m,
    ensures
        range_sq(lo, m) >= range_sq(lo, n) + (lo + n) * (lo + n),
    decreases m,
{
    let top = (lo + m - 1) as nat;
    assert(top * top >= 0) by (nonlinear_arith);
    if m - 1 > n {
        lemma_range_sq_grows_with_count(lo, n, (m - 1) as nat);
    }
}

proof fn lemma_range_sq_grows_with_start(s: nat, t: nat, n: nat)
    requires
        s < t,
        n >= 1,
    ensures
        range_sq(s, n) < range_sq(t, n),
    decreases n,
{
    let a = (s + n - 1) as nat;
    let b = (t + n - 1) as nat;
    assert(a * a < b * b) by (nonlinear_arith)
        requires
            a < b,
    ;
    if n > 1 {
        lemma_range_sq_grows_with_start(s, t, (n - 1) as nat);
    } else {
        assert(range_sq(s, 0) == 0 && range_sq(t, 0) == 0);
    }
}

proof fn lemma_fees_monotonic(p: nat, q: nat, fees: FeeConfig)
    requires
        p <= q,
    ensures
        fees_total(p, fees) <= fees_total(q, fees),
{
    assert forall|bps: nat| #[trigger] fee_of(p, bps) <= fee_of(q, bps) by {
        assert(p * bps / 10_000 <= q * bps / 10_000) by (nonlinear_arith)
            requires
                p <= q,
        ;
    }
    assert(fee_of(p, fees.protocol_fee_bps as nat) <= fee_of(q, fees.protocol_fee_bps as nat));
    assert(fee_of(p, fees.issuer_fee_bps as nat) <= fee_of(q, fees.issuer_fee_bps as nat));
    assert(fee_of(p, fees.all_members_fee_bps as nat) <= fee_of(q, fees.all_members_fee_bps as nat));
}

proof fn lemma_scaled_strictly(x: nat, y: nat)
    requires
        x < y,
    ensures
        x * (PRICE_NUMERATOR as nat) / (PRICE_DENOMINATOR as nat) < y * (PRICE_NUMERATOR as nat)
            / (PRICE_DENOMINATOR as nat),
{
    assert(x * 1_000_000 / 16_000 < y * 1_000_000 / 16_000) by (nonlinear_arith)
        requires
            x < y,
    ;
}

/// Buying more keys at once costs strictly more, in price and in total: the
/// supply is never below one, so every added unit is worth something.
pub proof fn lemma_buy_cost_increasing_in_amount(supply: nat, n: nat, m: nat, fees: FeeConfig)
    requires
        supply >= 1,
        n < m,
    ensures
        buy_price(supply, n) < buy_price(supply, m),
        buy_price(supply, n) + fees_total(buy_price(supply, n), fees) < buy_price(supply, m)
            + fees_total(buy_price(supply, m), fees),
{
    lemma_range_sq_grows_with_count(supply, n, m);
    assert((supply + n) * (supply + n) >= 1) by (nonlinear_arith)
        requires
            supply + n >= 1,
    ;
    lemma_scaled_strictly(range_sq(supply, n), range_sq(supply, m));
    lemma_fees_monotonic(buy_price(supply, n), buy_price(supply, m), fees);
}

/// The same number of keys costs strictly more, in price and in total, when
/// more are already outstanding.
pub proof fn lemma_buy_cost_increasing_in_supply(s: nat, t: nat, n: nat, fees: FeeConfig)
    requires
        s < t,
        n >= 1,
    ensures
        buy_price(s, n) < buy_price(t, n),
        buy_price(s, n) + fees_total(buy_price(s, n), fees) < buy_price(t, n) + fees_total(
            buy_price(t, n),
            fees,
        ),
{
    lemma_range_sq_grows_with_start(s, t, n);
    lemma_scaled_strictly(range_sq(s, n), range_sq(t, n));
    lemma_fees_monotonic(buy_price(s, n), buy_price(t, n), fees);
}

/// Buying `amount` keys and selling them straight back: the sell is priced
/// over the same units as the buy, so the trader gets the price back and the
/// round trip costs exactly the fees of both legs, never a gain.
pub proof fn lemma_round_trip_costs_only_fees(supply: nat, amount: nat, fees: FeeConfig)
    requires
        buy_quote_fits(supply, amount, fees),
    ensures
        sell_price(supply + amount, amount) == buy_price(supply, amount),
        sell_quote_fits(supply + amount, amount, fees),
        sell_quote(supply + amount, amount, fees).price == buy_quote(supply, amount, fees).price,
        sell_quote(supply + amount, amount, fees).price - buy_quote(supply, amount, fees).total_needed_from_user
            - sell_quote(supply + amount, amount, fees).total_needed_from_user
            == -2 * fees_total(buy_price(supply, amount), fees),
        sell_quote(supply + amount, amount, fees).price <= buy_quote(supply, amount, fees).total_needed_from_user
            + sell_quote(supply + amount, amount, fees).total_needed_from_user,
{
    assert((supply + amount - amount) as nat == supply);
}

} // verus!
