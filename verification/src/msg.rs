//! What callers ask of the contract, and what it answers.

use vstd::prelude::*;

use crate::admin::{text_views, AdminListView};
use crate::balance::NativeBalance;
use crate::state::{Allowance, AllowanceView, Expiration, Permissions};
use crate::types::{Coin, CoinView, CosmosMsg};

verus! {

/// Sets the contract up.
#[derive(Clone, Debug, PartialEq)]
pub struct InstantiateMsg {
    pub admins: Vec<String>,
    pub mutable: bool,
}

/// Changes something, or relays messages.
#[derive(Clone, Debug, PartialEq)]
pub enum ExecuteMsg<T> {
    /// Relays messages, in the name of the contract.
    Execute { msgs: Vec<CosmosMsg<T>> },
    /// Makes the admins unchangeable. Only an admin can, and only once.
    Freeze {},
    /// Replaces the admins. Only an admin can, and only before a freeze.
    UpdateAdmins { admins: Vec<String> },
    /// Adds a coin to an account's allowance, and sets its expiration if one is
    /// given.
    IncreaseAllowance { spender: String, amount: Coin, expires: Option<Expiration> },
    /// Takes up to an amount of a coin off an account's allowance, and sets its
    /// expiration if one is given.
    DecreaseAllowance { spender: String, amount: Coin, expires: Option<Expiration> },
    /// Sets an account's permissions.
    SetPermissions { spender: String, permissions: Permissions },
}

/// Asks for something.
#[derive(Clone, Debug, PartialEq)]
pub enum QueryMsg<T> {
    /// The admins, and whether they can still change.
    AdminList {},
    /// An account's allowance.
    Allowance { spender: String },
    /// An account's permissions.
    Permissions { spender: String },
    /// Whether an account may relay a message.
    CanExecute { sender: String, msg: CosmosMsg<T> },
    /// A page of the allowances.
    AllAllowances { start_after: Option<String>, limit: Option<u32> },
    /// A page of the permissions.
    AllPermissions { start_after: Option<String>, limit: Option<u32> },
}

/// The admins, and whether they can still change.
#[derive(Clone, Debug, PartialEq)]
pub struct AdminListResponse {
    pub admins: Vec<String>,
    pub mutable: bool,
}

impl View for AdminListResponse {
    type V = AdminListView;

    open spec fn view(&self) -> AdminListView {
        AdminListView { admins: text_views(self.admins@), mutable: self.mutable }
    }
}

/// Whether an account may relay a message.
#[derive(Clone, Copy, Debug, PartialEq, Eq, Structural)]
pub struct CanExecuteResponse {
    pub can_execute: bool,
}

/// An account and its allowance.
#[derive(Clone, Debug, PartialEq)]
pub struct AllowanceInfo {
    pub spender: String,
    pub balance: NativeBalance,
    pub expires: Expiration,
}

/// What an `AllowanceInfo` stands for.
pub struct AllowanceInfoView {
    pub spender: Seq<char>,
    pub balance: Seq<CoinView>,
    pub expires: Expiration,
}

impl View for AllowanceInfo {
    type V = AllowanceInfoView;

    open spec fn view(&self) -> AllowanceInfoView {
        AllowanceInfoView {
            spender: self.spender@,
            balance: self.balance@,
            expires: self.expires,
        }
    }
}

/// An account and its permissions.
#[derive(Clone, Debug, PartialEq)]
pub struct PermissionsInfo {
    pub spender: String,
    pub permissions: Permissions,
}

/// What a `PermissionsInfo` stands for.
pub struct PermissionsInfoView {
    pub spender: Seq<char>,
    pub permissions: Permissions,
}

impl View for PermissionsInfo {
    type V = PermissionsInfoView;

    open spec fn view(&self) -> PermissionsInfoView {
        PermissionsInfoView { spender: self.spender@, permissions: self.permissions }
    }
}

/// A page of the allowances.
#[derive(Clone, Debug, PartialEq)]
pub struct AllAllowancesResponse {
    pub allowances: Vec<AllowanceInfo>,
}

impl View for AllAllowancesResponse {
    type V = Seq<AllowanceInfoView>;

    open spec fn view(&self) -> Seq<AllowanceInfoView> {
        self.allowances@.map_values(|a: AllowanceInfo| a@)
    }
}

/// A page of the permissions.
#[derive(Clone, Debug, PartialEq)]
pub struct AllPermissionsResponse {
    pub permissions: Vec<PermissionsInfo>,
}

impl View for AllPermissionsResponse {
    type V = Seq<PermissionsInfoView>;

    open spec fn view(&self) -> Seq<PermissionsInfoView> {
        self.permissions@.map_values(|p: PermissionsInfo| p@)
    }
}

/// The answer to a query.
#[derive(Clone, Debug, PartialEq)]
pub enum QueryResponse {
    AdminList(AdminListResponse),
    Allowance(Allowance),
    Permissions(Permissions),
    CanExecute(CanExecuteResponse),
    AllAllowances(AllAllowancesResponse),
    AllPermissions(AllPermissionsResponse),
}

/// What the answer to a query stands for.
pub enum QueryResponseView {
    AdminList(AdminListView),
    Allowance(AllowanceView),
    Permissions(Permissions),
    CanExecute(bool),
    AllAllowances(Seq<AllowanceInfoView>),
    AllPermissions(Seq<PermissionsInfoView>),
}

impl View for QueryResponse {
    type V = QueryResponseView;

    open spec fn view(&self) -> QueryResponseView {
        match *self {
            QueryResponse::AdminList(r) => QueryResponseView::AdminList(r@),
            QueryResponse::Allowance(r) => QueryResponseView::Allowance(r@),
            QueryResponse::Permissions(r) => QueryResponseView::Permissions(r),
            QueryResponse::CanExecute(r) => QueryResponseView::CanExecute(r.can_execute),
            QueryResponse::AllAllowances(r) => QueryResponseView::AllAllowances(r@),
            QueryResponse::AllPermissions(r) => QueryResponseView::AllPermissions(r@),
        }
    }
}

} // verus!
