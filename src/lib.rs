//! A bonding-curve market for membership keys: pricing, fee splitting,
//! a holdings ledger and the buy / sell trade executor.

pub mod address;
pub mod curve;
pub mod msg;
pub mod key_holder;
pub mod fees;
pub mod holdings;
pub mod error;
pub mod ledger;
pub mod trade;
pub mod qa_thread_msg;

pub use error::ContractError;
pub use fees::{distribute_fee, quote_buy, quote_sell, Transfer};
pub use key_holder::KeyHolder;
pub use ledger::KeyLedger;
pub use msg::{
    BuyMembershipMsg, Config, ExecuteMsg, QueryMsg, ConfigResponse, CostToBuyMembershipResponse,
    CostToSellMembershipResponse, FeeConfig, QueryCostToBuyMembershipMsg,
    QueryCostToSellMembershipMsg, SellMembershipMsg,
};
pub use trade::{buy_key, cost_to_buy, cost_to_sell, sell_key};
pub use qa_thread_msg::{Answer, QAThreadMsg, Question};
