//! The trade executor: quotes, and buy / sell as validate, then mutate, then
//! emit transfers. A rejected trade leaves the ledger untouched.

use vstd::prelude::*;
use crate::error::ContractError;
use crate::fees::{
    buy_quote, buy_quote_fits, holder_payouts, lemma_member_shares_within_fee, quote_buy, quote_sell,
    sell_quote, sell_quote_fits, transfers_total, Transfer,
};
use crate::holdings::holds_in;
use crate::ledger::{lemma_supply_is_sum_of_holdings, KeyLedger};
use crate::msg::{
    BuyMembershipMsg, Config, CostToBuyMembershipResponse, CostToSellMembershipResponse, FeeConfig,
    QueryCostToBuyMembershipMsg, QueryCostToSellMembershipMsg, SellMembershipMsg,
};

verus! {

/// The first check a buy quote fails, if any.
pub open spec fn buy_quote_error(ledger: KeyLedger, issuer: Seq<char>, amount: nat, fees: FeeConfig) -> Option<ContractError> {
    if !ledger.is_issuer(issuer) {
        Some(ContractError::IssuerNotRegistered {})
    } else if !buy_quote_fits(ledger.supply_of(issuer), amount, fees) {
        Some(ContractError::Overflow {})
    } else {
        None
    }
}

/// The first check a sell quote fails, if any.
pub open spec fn sell_quote_error(ledger: KeyLedger, issuer: Seq<char>, amount: nat, fees: FeeConfig) -> Option<ContractError> {
    if !ledger.is_issuer(issuer) {
        Some(ContractError::IssuerNotRegistered {})
    } else if ledger.supply_of(issuer) <= amount {
        Some(
            ContractError::CannotSellLastKey {
                sell: amount as u128,
                total_supply: ledger.supply_of(issuer) as u128,
            },
        )
    } else if !sell_quote_fits(ledger.supply_of(issuer), amount, fees) {
        Some(ContractError::Overflow {})
    } else {
        None
    }
}

/// The price and fees of buying `data.amount` keys of the issuer now.
pub fn cost_to_buy(ledger: &KeyLedger, data: &QueryCostToBuyMembershipMsg, fees: &FeeConfig) -> (r: Result<CostToBuyMembershipResponse, ContractError>)
    requires
        ledger.wf(),
    ensures
        match buy_quote_error(*ledger, data.membership_issuer_addr@, data.amount as nat, *fees) {
            Some(e) => r == Err::<CostToBuyMembershipResponse, ContractError>(e),
            None => r == Ok::<CostToBuyMembershipResponse, ContractError>(
                buy_quote(ledger.supply_of(data.membership_issuer_addr@), data.amount as nat, *fees),
            ),
        },
{
    let supply = match ledger.supply(&data.membership_issuer_addr) {
        Ok(s) => s,
        Err(e) => return Err(e),
    };
    match quote_buy(supply, data.amount, fees) {
        Some(q) => Ok(q),
        None => Err(ContractError::Overflow {}),
    }
}

/// The price and fees of selling `data.amount` keys of the issuer now.
pub fn cost_to_sell(ledger: &KeyLedger, data: &QueryCostToSellMembershipMsg, fees: &FeeConfig) -> (r: Result<CostToSellMembershipResponse, ContractError>)
    requires
        ledger.wf(),
    ensures
        match sell_quote_error(*ledger, data.membership_issuer_addr@, data.amount as nat, *fees) {
            Some(e) => r == Err::<CostToSellMembershipResponse, ContractError>(e),
            None => r == Ok::<CostToSellMembershipResponse, ContractError>(
                sell_quote(ledger.supply_of(data.membership_issuer_addr@), data.amount as nat, *fees),
            ),
        },
{
    let supply = match ledger.supply(&data.membership_issuer_addr) {
        Ok(s) => s,
        Err(e) => return Err(e),
    };
    if supply <= data.amount {
        return Err(ContractError::CannotSellLastKey { sell: data.amount, total_supply: supply });
    }
    match quote_sell(supply, data.amount, fees) {
        Some(q) => Ok(q),
        None => Err(ContractError::Overflow {}),
    }
}

/// The first check a buy fails, if any.
pub open spec fn buy_error(ledger: KeyLedger, issuer: Seq<char>, amount: nat, paid: nat, fees: FeeConfig) -> Option<ContractError> {
    if amount == 0 {
        Some(ContractError::InvalidAmount {})
    } else {
        match buy_quote_error(ledger, issuer, amount, fees) {
            Some(e) => Some(e),
            None => {
                let needed = buy_quote(ledger.supply_of(issuer), amount, fees).total_needed_from_user;
                if needed > paid {
                    Some(
                        ContractError::InsufficientFundsToPayDuringBuy {
                            needed,
                            available: paid as u128,
                        },
                    )
                } else {
                    None
                }
            },
        }
    }
}

/// What a buy pays out: the members' fee split over the holders before the
/// buy, then the issuer's fee, then the protocol's fee.
pub open spec fn buy_transfers(ledger: KeyLedger, issuer: String, q: CostToBuyMembershipResponse, config: Config) -> Seq<Transfer> {
    holder_payouts(
        ledger.holders_of(issuer@),
        q.all_members_fee as nat,
        ledger.supply_of(issuer@),
        config.fee_denom,
    ) + seq![
        Transfer { to_address: issuer, denom: config.fee_denom, amount: q.issuer_fee },
        Transfer {
            to_address: config.protocol_fee_collector_addr,
            denom: config.fee_denom,
            amount: q.protocol_fee,
        },
    ]
}

/// `sender` buys `data.amount` keys of the issuer, having attached
/// `user_paid_amount`. On success the supply and the sender's holding grow by
/// the amount and the fee transfers are returned; funds beyond the quote stay
/// with the market.
pub fn buy_key(
    ledger: &mut KeyLedger,
    sender: &String,
    data: &BuyMembershipMsg,
    config: &Config,
    user_paid_amount: u128,
) -> (r: Result<Vec<Transfer>, ContractError>)
    requires
        old(ledger).wf(),
    ensures
        final(ledger).wf(),
        match buy_error(*old(ledger), data.membership_issuer_addr@, data.amount as nat, user_paid_amount as nat, config.fees) {
            Some(e) => r == Err::<Vec<Transfer>, ContractError>(e) && *final(ledger) == *old(ledger),
            None => {
                let issuer = data.membership_issuer_addr@;
                &&& r is Ok
                &&& r->Ok_0@ == buy_transfers(
                    *old(ledger),
                    data.membership_issuer_addr,
                    buy_quote(old(ledger).supply_of(issuer), data.amount as nat, config.fees),
                    *config,
                )
                &&& final(ledger).supply_of(issuer) == old(ledger).supply_of(issuer) + data.amount
                &&& forall|h: Seq<char>| #[trigger] final(ledger).holding_of(h, issuer) == (if h == sender@ {
                    old(ledger).holding_of(h, issuer) + data.amount as nat
                } else {
                    old(ledger).holding_of(h, issuer)
                })
                &&& forall|h: Seq<char>| #[trigger] holds_in(final(ledger).holders_of(issuer), h) == (holds_in(
                    old(ledger).holders_of(issuer),
                    h,
                ) || h == sender@)
                &&& forall|x: Seq<char>| #[trigger] final(ledger).is_issuer(x) == old(ledger).is_issuer(x)
                &&& forall|x: Seq<char>| x != issuer ==> #[trigger] final(ledger).supply_of(x)
                    == old(ledger).supply_of(x) && final(ledger).holders_of(x) == old(ledger).holders_of(x)
            },
        },
{
    if data.amount == 0 {
        return Err(ContractError::InvalidAmount {});
    }
    let issuer = &data.membership_issuer_addr;
    let quote = match cost_to_buy(
        ledger,
        &QueryCostToBuyMembershipMsg { membership_issuer_addr: issuer.clone(), amount: data.amount },
        &config.fees,
    ) {
        Ok(q) => q,
        Err(e) => return Err(e),
    };
    if quote.total_needed_from_user > user_paid_amount {
        return Err(
            ContractError::InsufficientFundsToPayDuringBuy {
                needed: quote.total_needed_from_user,
                available: user_paid_amount,
            },
        );
    }
    let total_supply = ledger.supply(issuer).unwrap();
    proof {
        crate::curve::lemma_computable_units_fit(total_supply as nat, data.amount as nat);
        crate::ledger::lemma_supply_is_sum_of_holdings(*ledger, issuer@);
    }
    // The members' fee goes to the holders before this buy.
    let mut transfers = ledger.member_fee_transfers(
        issuer,
        quote.all_members_fee,
        total_supply,
        &config.fee_denom,
    );
    transfers.push(
        Transfer {
            to_address: issuer.clone(),
            denom: config.fee_denom.clone(),
            amount: quote.issuer_fee,
        },
    );
    transfers.push(
        Transfer {
            to_address: config.protocol_fee_collector_addr.clone(),
            denom: config.fee_denom.clone(),
            amount: quote.protocol_fee,
        },
    );
    ledger.add_keys(sender, issuer, data.amount);
    Ok(transfers)
}

/// The first check a sell fails, if any.
pub open spec fn sell_error(
    ledger: KeyLedger,
    seller: Seq<char>,
    issuer: Seq<char>,
    amount: nat,
    paid: nat,
    fees: FeeConfig,
) -> Option<ContractError> {
    if amount == 0 {
        Some(ContractError::InvalidAmount {})
    } else if !ledger.is_issuer(issuer) {
        Some(ContractError::IssuerNotRegistered {})
    } else if ledger.holding_of(seller, issuer) < amount {
        Some(
            ContractError::InsufficientKeysToSell {
                sell: amount as u128,
                available: ledger.holding_of(seller, issuer) as u128,
            },
        )
    } else if !sell_quote_fits(ledger.supply_of(issuer), amount, fees) {
        Some(ContractError::Overflow {})
    } else if sell_quote(ledger.supply_of(issuer), amount, fees).total_needed_from_user > paid {
        Some(
            ContractError::InsufficientFundsToPayDuringSell {
                needed: sell_quote(ledger.supply_of(issuer), amount, fees).total_needed_from_user,
                available: paid as u128,
            },
        )
    } else if ledger.supply_of(issuer) <= amount {
        Some(
            ContractError::CannotSellLastKey {
                sell: amount as u128,
                total_supply: ledger.supply_of(issuer) as u128,
            },
        )
    } else {
        None
    }
}

/// What a sell pays out: the members' fee split over the holders after the
/// sell (`after`), then the issuer's fee, the protocol's fee, and the price
/// to the seller.
pub open spec fn sell_transfers(
    after: KeyLedger,
    issuer: String,
    seller: String,
    q: CostToSellMembershipResponse,
    config: Config,
) -> Seq<Transfer> {
    holder_payouts(
        after.holders_of(issuer@),
        q.all_members_fee as nat,
        after.supply_of(issuer@),
        config.fee_denom,
    ) + seq![
        Transfer { to_address: issuer, denom: config.fee_denom, amount: q.issuer_fee },
        Transfer {
            to_address: config.protocol_fee_collector_addr,
            denom: config.fee_denom,
            amount: q.protocol_fee,
        },
        Transfer { to_address: seller, denom: config.fee_denom, amount: q.price },
    ]
}

/// `sender` sells `data.amount` keys of the issuer, having attached
/// `user_paid_amount` towards the fees. On success the supply and the
/// sender's holding shrink by the amount, at least one key stays outstanding,
/// and the fee transfers and the seller's proceeds are returned.
pub fn sell_key(
    ledger: &mut KeyLedger,
    sender: &String,
    data: &SellMembershipMsg,
    config: &Config,
    user_paid_amount: u128,
) -> (r: Result<Vec<Transfer>, ContractError>)
    requires
        old(ledger).wf(),
    ensures
        final(ledger).wf(),
        match sell_error(
            *old(ledger),
            sender@,
            data.membership_issuer_addr@,
            data.amount as nat,
            user_paid_amount as nat,
            config.fees,
        ) {
            Some(e) => r == Err::<Vec<Transfer>, ContractError>(e) && *final(ledger) == *old(ledger),
            None => {
                let issuer = data.membership_issuer_addr@;
                &&& r is Ok
                &&& r->Ok_0@ == sell_transfers(
                    *final(ledger),
                    data.membership_issuer_addr,
                    *sender,
                    sell_quote(old(ledger).supply_of(issuer), data.amount as nat, config.fees),
                    *config,
                )
                &&& final(ledger).supply_of(issuer) == old(ledger).supply_of(issuer) - data.amount
                &&& final(ledger).supply_of(issuer) >= 1
                &&& forall|h: Seq<char>| #[trigger] final(ledger).holding_of(h, issuer) == (if h == sender@ {
                    (old(ledger).holding_of(h, issuer) - data.amount) as nat
                } else {
                    old(ledger).holding_of(h, issuer)
                })
                &&& forall|h: Seq<char>| #[trigger] holds_in(final(ledger).holders_of(issuer), h) == holds_in(
                    old(ledger).holders_of(issuer),
                    h,
                )
                &&& forall|x: Seq<char>| #[trigger] final(ledger).is_issuer(x) == old(ledger).is_issuer(x)
                &&& forall|x: Seq<char>| x != issuer ==> #[trigger] final(ledger).supply_of(x)
                    == old(ledger).supply_of(x) && final(ledger).holders_of(x) == old(ledger).holders_of(x)
            },
        },
{
    if data.amount == 0 {
        return Err(ContractError::InvalidAmount {});
    }
    let issuer = &data.membership_issuer_addr;
    let total_supply = match ledger.supply(issuer) {
        Ok(s) => s,
        Err(e) => return Err(e),
    };
    let user_previous_hold_amount = ledger.holding(sender, issuer);
    if user_previous_hold_amount < data.amount {
        return Err(
            ContractError::InsufficientKeysToSell {
                sell: data.amount,
                available: user_previous_hold_amount,
            },
        );
    }
    proof {
        crate::ledger::lemma_supply_is_sum_of_holdings(*ledger, issuer@);
    }
    let quote = match quote_sell(total_supply, data.amount, &config.fees) {
        Some(q) => q,
        None => return Err(ContractError::Overflow {}),
    };
    if quote.total_needed_from_user > user_paid_amount {
        return Err(
            ContractError::InsufficientFundsToPayDuringSell {
                needed: quote.total_needed_from_user,
                available: user_paid_amount,
            },
        );
    }
    if total_supply <= data.amount {
        return Err(ContractError::CannotSellLastKey { sell: data.amount, total_supply });
    }
    ledger.remove_keys(sender, issuer, data.amount);
    // The members' fee goes to the holders left after this sell.
    let mut transfers = ledger.member_fee_transfers(
        issuer,
        quote.all_members_fee,
        total_supply - data.amount,
        &config.fee_denom,
    );
    transfers.push(
        Transfer {
            to_address: issuer.clone(),
            denom: config.fee_denom.clone(),
            amount: quote.issuer_fee,
        },
    );
    transfers.push(
        Transfer {
            to_address: config.protocol_fee_collector_addr.clone(),
            denom: config.fee_denom.clone(),
            amount: quote.protocol_fee,
        },
    );
    transfers.push(
        Transfer { to_address: sender.clone(), denom: config.fee_denom.clone(), amount: quote.price },
    );
    Ok(transfers)
}

/// The limits of a sell. Selling more keys than the seller holds is refused
/// for want of keys. Selling the whole supply never goes through: a seller who
/// holds it all and pays the fees is refused because the last key must stay.
/// Selling all but one key goes through when the seller holds them, pays the
/// fees and no amount overflows.
pub proof fn lemma_sell_limits(
    ledger: KeyLedger,
    seller: Seq<char>,
    issuer: Seq<char>,
    amount: nat,
    paid: nat,
    fees: FeeConfig,
)
    requires
        ledger.wf(),
        ledger.is_issuer(issuer),
        amount >= 1,
    ensures
        amount > ledger.holding_of(seller, issuer) ==> sell_error(ledger, seller, issuer, amount, paid, fees)
            == Some(
            ContractError::InsufficientKeysToSell {
                sell: amount as u128,
                available: ledger.holding_of(seller, issuer) as u128,
            },
        ),
        amount >= ledger.supply_of(issuer) ==> sell_error(ledger, seller, issuer, amount, paid, fees) is Some,
        amount == ledger.supply_of(issuer) && amount <= ledger.holding_of(seller, issuer)
            && sell_quote_fits(ledger.supply_of(issuer), amount, fees) && sell_quote(
            ledger.supply_of(issuer),
            amount,
            fees,
        ).total_needed_from_user <= paid ==> sell_error(ledger, seller, issuer, amount, paid, fees)
            == Some(
            ContractError::CannotSellLastKey {
                sell: amount as u128,
                total_supply: ledger.supply_of(issuer) as u128,
            },
        ),
        amount == ledger.supply_of(issuer) - 1 && amount <= ledger.holding_of(seller, issuer)
            && sell_quote_fits(ledger.supply_of(issuer), amount, fees) && sell_quote(
            ledger.supply_of(issuer),
            amount,
            fees,
        ).total_needed_from_user <= paid ==> sell_error(ledger, seller, issuer, amount, paid, fees)
            is None,
{
}

proof fn lemma_transfers_total_concat(a: Seq<Transfer>, b: Seq<Transfer>)
    ensures
        transfers_total(a + b) == transfers_total(a) + transfers_total(b),
    decreases b.len(),
{
    if b.len() == 0 {
        assert(a + b =~= a);
    } else {
        lemma_transfers_total_concat(a, b.drop_last());
        assert((a + b).drop_last() =~= a + b.drop_last());
    }
}

proof fn lemma_total_of_tail(t: Seq<Transfer>)
    ensures
        t.len() == 2 ==> transfers_total(t) == t[0].amount + t[1].amount,
        t.len() == 3 ==> transfers_total(t) == t[0].amount + t[1].amount + t[2].amount,
{
    reveal_with_fuel(transfers_total, 4);
    if t.len() >= 2 {
        let t1 = t.drop_last();
        assert(t1[0] == t[0] && t1[t1.len() - 1] == t[t.len() - 2]);
        if t.len() == 2 {
            assert(t1.drop_last() =~= Seq::<Transfer>::empty());
        } else if t.len() == 3 {
            assert(t1[1] == t[1]);
            assert(t1.drop_last().drop_last() =~= Seq::<Transfer>::empty());
        }
    }
}

/// No fee leaks on a buy: what the buy's transfers pay out, plus the members'
/// rounding remainder, is exactly the three fees; the remainder is less than
/// the number of holders paid.
pub proof fn lemma_buy_transfers_account_for_fees(
    ledger: KeyLedger,
    issuer: String,
    q: CostToBuyMembershipResponse,
    config: Config,
)
    requires
        ledger.wf(),
        ledger.is_issuer(issuer@),
    ensures
        ({
            let pay = holder_payouts(
                ledger.holders_of(issuer@),
                q.all_members_fee as nat,
                ledger.supply_of(issuer@),
                config.fee_denom,
            );
            let rem = q.all_members_fee - transfers_total(pay);
            &&& 0 <= rem < pay.len()
            &&& transfers_total(buy_transfers(ledger, issuer, q, config)) + rem == q.protocol_fee
                + q.issuer_fee + q.all_members_fee
        }),
{
    lemma_supply_is_sum_of_holdings(ledger, issuer@);
    let pay = holder_payouts(
        ledger.holders_of(issuer@),
        q.all_members_fee as nat,
        ledger.supply_of(issuer@),
        config.fee_denom,
    );
    lemma_member_shares_within_fee(
        ledger.holders_of(issuer@),
        q.all_members_fee as nat,
        ledger.supply_of(issuer@),
        config.fee_denom,
    );
    let tail = seq![
        Transfer { to_address: issuer, denom: config.fee_denom, amount: q.issuer_fee },
        Transfer {
            to_address: config.protocol_fee_collector_addr,
            denom: config.fee_denom,
            amount: q.protocol_fee,
        },
    ];
    lemma_transfers_total_concat(pay, tail);
    lemma_total_of_tail(tail);
}

/// No fee leaks on a sell: what the sell's transfers pay out, plus the
/// members' rounding remainder, is exactly the three fees and the price; the
/// remainder is less than the number of holders paid.
pub proof fn lemma_sell_transfers_account_for_fees(
    after: KeyLedger,
    issuer: String,
    seller: String,
    q: CostToSellMembershipResponse,
    config: Config,
)
    requires
        after.wf(),
        after.is_issuer(issuer@),
    ensures
        ({
            let pay = holder_payouts(
                after.holders_of(issuer@),
                q.all_members_fee as nat,
                after.supply_of(issuer@),
                config.fee_denom,
            );
            let rem = q.all_members_fee - transfers_total(pay);
            &&& 0 <= rem < pay.len()
            &&& transfers_total(sell_transfers(after, issuer, seller, q, config)) + rem
                == q.protocol_fee + q.issuer_fee + q.all_members_fee + q.price
        }),
{
    lemma_supply_is_sum_of_holdings(after, issuer@);
    let pay = holder_payouts(
        after.holders_of(issuer@),
        q.all_members_fee as nat,
        after.supply_of(issuer@),
        config.fee_denom,
    );
    lemma_member_shares_within_fee(
        after.holders_of(issuer@),
        q.all_members_fee as nat,
        after.supply_of(issuer@),
        config.fee_denom,
    );
    let tail = seq![
        Transfer { to_address: issuer, denom: config.fee_denom, amount: q.issuer_fee },
        Transfer {
            to_address: config.protocol_fee_collector_addr,
            denom: config.fee_denom,
            amount: q.protocol_fee,
        },
        Transfer { to_address: seller, denom: config.fee_denom, amount: q.price },
    ];
    lemma_transfers_total_concat(pay, tail);
    lemma_total_of_tail(tail);
}

} // verus!
