//! Messages and responses of the membership market. Addresses are plain
//! strings and token amounts `u128`; percentages are basis points of 10_000.

use vstd::prelude::*;

verus! {

// ========== instantiate / configuration ==========

/// The percentages of a trade's price charged on top of it, each in basis
/// points of 10_000.
#[derive(Clone, Copy, Debug, PartialEq, Eq, Structural)]
pub struct FeeConfig {
    /// Share of the price paid to the protocol fee collector.
    pub protocol_fee_bps: u128,
    /// Share of the price paid to the membership issuer.
    pub issuer_fee_bps: u128,
    /// Share of the price split among all current members.
    pub all_members_fee_bps: u128,
}

/// Deployment configuration, read-only for the trade executor.
#[derive(Clone, Debug)]
pub struct Config {
    pub admin_addr: String,
    pub registration_admin_addr: String,
    pub protocol_fee_collector_addr: String,
    pub fee_denom: String,
    pub fees: FeeConfig,
}

#[derive(Clone, Debug)]
pub struct InstantiateMsg {
    pub admin_addr: Option<String>,
    pub registration_admin_addr: Option<String>,
    pub protocol_fee_collector_addr: Option<String>,
    pub fee_denom: Option<String>,
    pub protocol_fee_membership_trading_fee_percentage: Option<u64>,
    pub default_trading_fee_percentage_of_membership: Option<u64>,
    pub default_membership_trading_fee_membership_issuer_fee_percentage: Option<u64>,
    pub default_membership_trading_fee_membership_holder_fee_percentage: Option<u64>,
}

// ========== execute ==========

#[derive(Clone, Debug)]
pub enum ExecuteMsg {
    Enable(EnableMsg),
    Disable(DisableMsg),
    EnableOpenRegistration(EnableOpenRegistrationMsg),
    DisableOpenRegistration(DisableOpenRegistrationMsg),
    UpdateConfig(UpdateConfigMsg),
    /// Anyone can register an account; only a linked, enabled account issues
    /// its own membership.
    Register(),
    /// Only the registration admin links a social media handle.
    LinkSocialMedia(LinkSocialMediaMsg),
    /// Only the registration admin enables a membership: supply one, held by
    /// the issuer.
    EnableMembership(EnableMembershipMsg),
    UpdateTradingFeePercentageOfMembership(UpdateTradingFeePercentageOfMembershipMsg),
    UpdateMembershipTradingFeeShareConfig(UpdateMembershipTradingFeeShareConfigMsg),
    BuyMembership(BuyMembershipMsg),
    SellMembership(SellMembershipMsg),
}

#[derive(Clone, Copy, Debug, PartialEq, Eq, Structural)]
pub struct EnableMsg {}

#[derive(Clone, Copy, Debug, PartialEq, Eq, Structural)]
pub struct DisableMsg {}

#[derive(Clone, Copy, Debug, PartialEq, Eq, Structural)]
pub struct EnableOpenRegistrationMsg {}

#[derive(Clone, Copy, Debug, PartialEq, Eq, Structural)]
pub struct DisableOpenRegistrationMsg {}

#[derive(Clone, Debug)]
pub struct UpdateConfigMsg {
    pub admin_addr: Option<String>,
    pub registration_admin_addr: Option<String>,
    pub protocol_fee_collector_addr: Option<String>,
    pub fee_denom: Option<String>,
    pub protocol_fee_membership_trading_fee_percentage: Option<u64>,
    pub default_trading_fee_percentage_of_membership: Option<u64>,
    pub default_share_to_issuer_percentage: Option<u64>,
    pub default_share_to_all_members_percentage: Option<u64>,
}

#[derive(Clone, Debug)]
pub struct LinkSocialMediaMsg {
    pub user_addr: String,
    pub social_media_handle: String,
}

#[derive(Clone, Debug)]
pub struct EnableMembershipMsg {
    pub user_addr: String,
}

#[derive(Clone, Debug)]
pub struct UpdateTradingFeePercentageOfMembershipMsg {
    pub membership_issuer_addr: String,
    pub trading_fee_percentage_of_membership: u64,
}

#[derive(Clone, Debug)]
pub struct UpdateMembershipTradingFeeShareConfigMsg {
    pub membership_issuer_addr: String,
    pub share_to_issuer_percentage: u64,
    pub share_to_all_members_percentage: u64,
}

#[derive(Clone, Debug)]
pub struct BuyMembershipMsg {
    pub membership_issuer_addr: String,
    pub amount: u128,
}

#[derive(Clone, Debug)]
pub struct SellMembershipMsg {
    pub membership_issuer_addr: String,
    pub amount: u128,
}

// ========== query ==========

#[derive(Clone, Debug)]
pub enum QueryMsg {
    QueryConfig(QueryConfigMsg),
    QueryUser(QueryUserMsg),
    /// Keys of the issuer outstanding.
    QueryMembershipSupply(QueryMembershipSupplyMsg),
    /// Number of members holding the membership, not the supply.
    QueryMemberCount(QueryMemberCountMsg),
    QueryMembers(QueryMembersMsg),
    QueryMemberships(QueryMembershipsMsg),
    QueryCostToBuyMembership(QueryCostToBuyMembershipMsg),
    QueryCostToSellMembership(QueryCostToSellMembershipMsg),
}

#[derive(Clone, Copy, Debug, PartialEq, Eq, Structural)]
pub struct QueryConfigMsg {}

#[derive(Clone, Debug)]
pub struct ConfigResponse {
    pub config: Config,
}

#[derive(Clone, Debug)]
pub struct QueryUserMsg {
    pub user_addr: String,
}

#[derive(Clone, Debug)]
pub struct QueryMembershipSupplyMsg {
    pub membership_issuer_addr: String,
}

#[derive(Clone, Copy, Debug, PartialEq, Eq, Structural)]
pub struct MembershipSupplyResponse {
    pub supply: u128,
}

#[derive(Clone, Debug)]
pub struct QueryMemberCountMsg {
    pub membership_issuer_addr: String,
}

#[derive(Clone, Copy, Debug, PartialEq, Eq, Structural)]
pub struct MemberCountResponse {
    pub count: u128,
}

#[derive(Clone, Debug)]
pub struct QueryMembersMsg {
    pub membership_issuer_addr: String,
    pub start_after_member_addr: Option<String>,
    pub limit: Option<u32>,
}

#[derive(Clone, Debug)]
pub struct QueryMembershipsMsg {
    pub user_addr: String,
    pub start_after_membership_issuer_addr: Option<String>,
    pub limit: Option<u32>,
}

#[derive(Clone, Debug)]
pub struct QueryCostToBuyMembershipMsg {
    pub membership_issuer_addr: String,
    pub amount: u128,
}

/// What a buy costs. `price` is for the whole amount, not per unit.
#[derive(Clone, Copy, Debug, PartialEq, Eq, Structural)]
pub struct CostToBuyMembershipResponse {
    pub price: u128,
    pub protocol_fee: u128,
    pub issuer_fee: u128,
    pub all_members_fee: u128,
    /// Price plus the three fees.
    pub total_needed_from_user: u128,
}

#[derive(Clone, Debug)]
pub struct QueryCostToSellMembershipMsg {
    pub membership_issuer_addr: String,
    pub amount: u128,
}

/// What a sell pays and costs. `price` is for the whole amount and is paid
/// to the seller; the fees are paid by the seller up front.
#[derive(Clone, Copy, Debug, PartialEq, Eq, Structural)]
pub struct CostToSellMembershipResponse {
    pub price: u128,
    pub protocol_fee: u128,
    pub issuer_fee: u128,
    pub all_members_fee: u128,
    /// The three fees.
    pub total_needed_from_user: u128,
}

} // verus!
