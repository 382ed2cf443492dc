//! Why a call is refused.

use cosmwasm_std::StdError;
use vstd::prelude::*;

verus! {

/// Why a call is refused.
#[derive(Debug, PartialEq)]
pub enum ContractError {
    /// The chain's storage or address check failed, or a balance did not
    /// suffice.
    Std(StdError),
    /// The caller is not an admin.
    Unauthorized {},
    /// Admins set allowances and permissions of others only.
    CannotSetOwnAccount {},
    /// The account has no permissions.
    NotAllowed {},
    /// The account has no allowance.
    NoAllowance {},
    /// Subkeys do not relay messages of this kind.
    MessageTypeRejected {},
    DelegatePerm {},
    ReDelegatePerm {},
    UnDelegatePerm {},
    WithdrawPerm {},
    WithdrawAddrPerm {},
}

} // verus!
