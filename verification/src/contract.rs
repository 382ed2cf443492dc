//! The calls and queries of the contract.

use cosmwasm_std::{Deps, DepsMut, Env, StdError};
use vstd::prelude::*;
use vstd::utf8::{decode_utf8, encode_utf8, valid_utf8};

use crate::admin::{
    admin_list_json, admin_list_key, admin_list_response, frozen, get_contract_version,
    load_admin_list, loaded, replaced, set_contract_version, text_views, validated, version_json,
    version_key, version_result, whitelist_freeze,
    whitelist_instantiate, whitelist_query_admin_list, whitelist_update_admins, AdminListView,
};
use crate::balance::{addable, added, exhausted, overspent, reduced, spent, sub_overflow};
use crate::error::ContractError;
use crate::json::{
    allowance_json, allowance_parsed, allowance_result, parse_allowance, parse_permissions,
    permissions_json, permissions_parsed, text_bytes,
};
use crate::msg::{
    AdminListResponse, AllAllowancesResponse, AllPermissionsResponse, AllowanceInfo,
    AllowanceInfoView, CanExecuteResponse, ExecuteMsg, InstantiateMsg, PermissionsInfo,
    PermissionsInfoView, QueryMsg, QueryResponse, QueryResponseView,
};
use crate::pages::{collected, is_page, lemma_collecting_stops, reads, Storage};
use crate::state::{
    addr_validate, allowance_key, allowance_namespace, contents, entry_keys, holding, key_text,
    key_view, lemma_names_fit, load_allowance, load_permissions, no_allowance, no_permissions,
    not_text, page_entries, permissions_key, permissions_namespace, reading, remove_allowance,
    save_allowance, save_permissions, snapshot, snapshot_mut, Allowance, AllowanceView, Expiration,
    Permissions, Snapshot,
};
use crate::text::{decimal, decimal_text};
use crate::types::{
    attr, attribute_views, coin_views, Attribute, BankMsg, Coin, CoinView, CosmosMsg,
    DistributionMsg, Empty, MessageInfo, Response, StakingMsg, SubMsg,
};

verus! {

/// The name that the contract records.
pub const CONTRACT_NAME: &'static str = "crates.io:cw1-subkeys";

/// The version that the contract records.
pub const CONTRACT_VERSION: &'static str = "0.7.0";

/// Whether a call answers with messages and attributes.
pub open spec fn answers<T>(
    res: Result<Response<T>, ContractError>,
    messages: Seq<SubMsg<T>>,
    attributes: Seq<(Seq<char>, Seq<char>)>,
) -> bool {
    &&& res is Ok
    &&& res->Ok_0.messages@ == messages
    &&& attribute_views(res->Ok_0.attributes@) == attributes
}

/// Whether a call fails with an error, and leaves the chain as it was.
pub open spec fn refuses<T>(
    before: Snapshot,
    after: Snapshot,
    res: Result<Response<T>, ContractError>,
    error: ContractError,
) -> bool {
    &&& after == before
    &&& res is Err
    &&& res->Err_0 == error
}

/// Whether a call writes an account's allowance, and nothing else.
pub open spec fn allowance_written(
    before: Snapshot,
    after: Snapshot,
    addr: Seq<char>,
    allowance: AllowanceView,
) -> bool {
    &&& after.addresses == before.addresses
    &&& after.storage == before.storage.insert(allowance_key(addr), allowance_json(allowance))
    &&& after.allowance(addr) == holding(allowance)
}

/// Why permissions do not cover a staking message, if they do not.
pub open spec fn staking_refusal(msg: StakingMsg, permissions: Permissions) -> Option<
    ContractError,
> {
    match msg {
        StakingMsg::Delegate { .. } if !permissions.delegate => Some(
            ContractError::DelegatePerm {  },
        ),
        StakingMsg::Undelegate { .. } if !permissions.undelegate => Some(
            ContractError::UnDelegatePerm {  },
        ),
        StakingMsg::Redelegate { .. } if !permissions.redelegate => Some(
            ContractError::ReDelegatePerm {  },
        ),
        _ => None,
    }
}

/// Whether a check passes, or fails with an error.
pub open spec fn verdict(res: Result<(), ContractError>, refusal: Option<ContractError>) -> bool {
    match refusal {
        None => res is Ok,
        Some(error) => res is Err && res->Err_0 == error,
    }
}

/// Checks that permissions cover a staking message.
pub fn check_staking_permissions(staking_msg: &StakingMsg, permissions: Permissions) -> (res:
    Result<(), ContractError>)
    ensures
        verdict(res, staking_refusal(*staking_msg, permissions)),
        res is Ok <==> match *staking_msg {
            StakingMsg::Delegate { .. } => permissions.delegate,
            StakingMsg::Undelegate { .. } => permissions.undelegate,
            StakingMsg::Redelegate { .. } => permissions.redelegate,
        },
{
    match staking_msg {
        StakingMsg::Delegate { .. } => {
            if !permissions.delegate {
                return Err(ContractError::DelegatePerm {  });
            }
        },
        StakingMsg::Undelegate { .. } => {
            if !permissions.undelegate {
                return Err(ContractError::UnDelegatePerm {  });
            }
        },
        StakingMsg::Redelegate { .. } => {
            if !permissions.redelegate {
                return Err(ContractError::ReDelegatePerm {  });
            }
        },
    }
    Ok(())
}

/// Why permissions do not cover a distribution message, if they do not.
pub open spec fn distribution_refusal(msg: DistributionMsg, permissions: Permissions) -> Option<
    ContractError,
> {
    match msg {
        DistributionMsg::SetWithdrawAddress { .. } if !permissions.withdraw => Some(
            ContractError::WithdrawAddrPerm {  },
        ),
        DistributionMsg::WithdrawDelegatorReward { .. } if !permissions.withdraw => Some(
            ContractError::WithdrawPerm {  },
        ),
        _ => None,
    }
}

/// Checks that permissions cover a distribution message.
pub fn check_distribution_permissions(
    distribution_msg: &DistributionMsg,
    permissions: Permissions,
) -> (res: Result<(), ContractError>)
    ensures
        verdict(res, distribution_refusal(*distribution_msg, permissions)),
        res is Ok <==> permissions.withdraw,
{
    match distribution_msg {
        DistributionMsg::SetWithdrawAddress { .. } => {
            if !permissions.withdraw {
                return Err(ContractError::WithdrawAddrPerm {  });
            }
        },
        DistributionMsg::WithdrawDelegatorReward { .. } => {
            if !permissions.withdraw {
                return Err(ContractError::WithdrawPerm {  });
            }
        },
    }
    Ok(())
}

/// How far a subkey's messages got: the allowance that was written last, if any
/// was, and the error that stopped them, if one did.
#[verifier::ext_equal]
pub struct Tally {
    pub saved: Option<AllowanceView>,
    pub error: Option<ContractError>,
}

/// What a subkey's next message does. `permissions` and `allowance` are those
/// that the account had before the first message.
pub open spec fn charge<T>(
    permissions: Result<Option<Permissions>, StdError>,
    allowance: Result<Option<AllowanceView>, StdError>,
    saved: Option<AllowanceView>,
    msg: CosmosMsg<T>,
) -> Tally {
    match msg {
        CosmosMsg::Staking(staking_msg) => Tally {
            saved,
            error: match permissions {
                Err(e) => Some(ContractError::Std(e)),
                Ok(None) => Some(ContractError::NotAllowed {  }),
                Ok(Some(p)) => staking_refusal(staking_msg, p),
            },
        },
        CosmosMsg::Distribution(distribution_msg) => Tally {
            saved,
            error: match permissions {
                Err(e) => Some(ContractError::Std(e)),
                Ok(None) => Some(ContractError::NotAllowed {  }),
                Ok(Some(p)) => distribution_refusal(distribution_msg, p),
            },
        },
        CosmosMsg::Bank(BankMsg::Send { amount, .. }) => match current(allowance, saved) {
            Err(e) => Tally { saved, error: Some(ContractError::Std(e)) },
            Ok(None) => Tally { saved, error: Some(ContractError::NoAllowance {  }) },
            Ok(Some(a)) => match spent(a.balance, coin_views(amount@)) {
                None => Tally {
                    saved,
                    error: Some(
                        ContractError::Std(overspent(a.balance, coin_views(amount@))),
                    ),
                },
                Some(rest) => Tally {
                    saved: Some(AllowanceView { balance: rest, expires: a.expires }),
                    error: None,
                },
            },
        },
        _ => Tally { saved, error: Some(ContractError::MessageTypeRejected {  }) },
    }
}

/// The allowance that counts now: the one written last, else the first one.
pub open spec fn current(
    allowance: Result<Option<AllowanceView>, StdError>,
    saved: Option<AllowanceView>,
) -> Result<Option<AllowanceView>, StdError> {
    match saved {
        Some(a) => Ok(Some(a)),
        None => allowance,
    }
}

/// What a subkey's messages do, one after the other, until one is refused.
pub open spec fn charge_all<T>(
    permissions: Result<Option<Permissions>, StdError>,
    allowance: Result<Option<AllowanceView>, StdError>,
    msgs: Seq<CosmosMsg<T>>,
) -> Tally
    decreases msgs.len(),
{
    if msgs.len() == 0 {
        Tally { saved: None, error: None }
    } else {
        let tally = charge_all(permissions, allowance, msgs.drop_last());
        if tally.error is Some {
            tally
        } else {
            charge(permissions, allowance, tally.saved, msgs.last())
        }
    }
}

/// What a subkey's messages leave behind.
pub open spec fn charged(
    before: Snapshot,
    after: Snapshot,
    sender: Seq<char>,
    saved: Option<AllowanceView>,
) -> bool {
    match saved {
        None => after == before,
        Some(allowance) => allowance_written(before, after, sender, allowance),
    }
}

/// The messages to run, in order, each without a reply.
pub open spec fn relayed<T>(msgs: Seq<CosmosMsg<T>>) -> Seq<SubMsg<T>> {
    msgs.map_values(|msg: CosmosMsg<T>| SubMsg::fire_and_forget(msg))
}

/// What `execute_execute` does. An admin relays anything. A subkey's messages
/// are charged to it first, and all are refused if one is.
pub open spec fn execute_execute_does<T>(
    before: Snapshot,
    after: Snapshot,
    sender: Seq<char>,
    msgs: Seq<CosmosMsg<T>>,
    res: Result<Response<T>, ContractError>,
) -> bool {
    let attributes = seq![("action"@, "execute"@), ("owner"@, sender)];
    match before.admin_list() {
        Err(e) => refuses(before, after, res, ContractError::Std(e)),
        Ok(list) => if list.is_admin(sender) {
            after == before && answers(res, relayed(msgs), attributes)
        } else {
            let tally = charge_all(before.permissions(sender), before.allowance(sender), msgs);
            &&& charged(before, after, sender, tally.saved)
            &&& match tally.error {
                None => answers(res, relayed(msgs), attributes),
                Some(error) => res is Err && res->Err_0 == error,
            }
        },
    }
}

/// What an account's allowance, if it has one, stands for.
pub open spec fn found_view(found: Option<Allowance>) -> Option<AllowanceView> {
    match found {
        Some(allowance) => Some(allowance@),
        None => None,
    }
}

/// Takes coins off an account's allowance. It fails where the account has none,
/// or not enough.
pub fn spend_allowance(found: Option<Allowance>, amount: &Vec<Coin>) -> (res: Result<
    Allowance,
    ContractError,
>)
    ensures
        match (found_view(found), res) {
            (None, Err(e)) => e == (ContractError::NoAllowance {  }),
            (Some(held), Err(e)) => spent(held.balance, coin_views(amount@)) is None && e
                == ContractError::Std(overspent(held.balance, coin_views(amount@))),
            (Some(held), Ok(left)) => spent(held.balance, coin_views(amount@)) == Some(
                left@.balance,
            ) && left@.expires == held.expires,
            (None, Ok(_)) => false,
        },
        found is None ==> res is Err && res->Err_0 is NoAllowance,
        res is Ok ==> res->Ok_0.expires == found->Some_0.expires,
{
    match found {
        None => Err(ContractError::NoAllowance {  }),
        Some(held) => match held.balance.sub(amount) {
            Err(e) => Err(ContractError::Std(e)),
            Ok(balance) => Ok(Allowance { balance, expires: held.expires }),
        },
    }
}

/// Charges a subkey's messages to it, one after the other, until one is refused.
fn charge_msgs<T>(deps: &mut DepsMut, sender: &String, msgs: &Vec<CosmosMsg<T>>) -> (res: Result<
    (),
    ContractError,
>)
    ensures
        ({
            let before = snapshot_mut(*old(deps));
            let tally = charge_all(before.permissions(sender@), before.allowance(sender@), msgs@);
            &&& charged(before, snapshot_mut(*final(deps)), sender@, tally.saved)
            &&& verdict(res, tally.error)
        }),
{
    let ghost before = snapshot_mut(*deps);
    let ghost permissions = before.permissions(sender@);
    let ghost allowance = before.allowance(sender@);
    let ghost mut saved: Option<AllowanceView> = None;
    for i in 0..msgs.len()
        invariant
            charge_all(permissions, allowance, msgs@.take(i as int)) == (Tally {
                saved,
                error: None,
            }),
            before == snapshot_mut(*old(deps)),
            charged(before, snapshot_mut(*deps), sender@, saved),
            permissions == before.permissions(sender@),
            allowance == before.allowance(sender@),
    {
        proof {
            assert(msgs@.take(i + 1).drop_last() =~= msgs@.take(i as int));
            crate::keys::entries_apart(sender@, sender@);
            lemma_charge_stops(permissions, allowance, msgs@, i + 1);
        }
        let ghost now = snapshot_mut(*deps);
        assert(now.permissions(sender@) == permissions);
        assert(now.allowance(sender@) == current(allowance, saved));
        match &msgs[i] {
            CosmosMsg::Staking(staking_msg) => match load_permissions(reading(deps), sender) {
                Err(e) => {
                    return Err(ContractError::Std(e));
                },
                Ok(None) => {
                    return Err(ContractError::NotAllowed {  });
                },
                Ok(Some(p)) => {
                    let check = check_staking_permissions(staking_msg, p);
                    if check.is_err() {
                        return check;
                    }
                },
            },
            CosmosMsg::Distribution(distribution_msg) => match load_permissions(
                reading(deps),
                sender,
            ) {
                Err(e) => {
                    return Err(ContractError::Std(e));
                },
                Ok(None) => {
                    return Err(ContractError::NotAllowed {  });
                },
                Ok(Some(p)) => {
                    let check = check_distribution_permissions(distribution_msg, p);
                    if check.is_err() {
                        return check;
                    }
                },
            },
            CosmosMsg::Bank(BankMsg::Send { to_address: _, amount }) => match load_allowance(
                reading(deps),
                sender,
            ) {
                Err(e) => {
                    return Err(ContractError::Std(e));
                },
                Ok(found) => match spend_allowance(found, amount) {
                    Err(e) => {
                        return Err(e);
                    },
                    Ok(left) => {
                        if let Err(e) = save_allowance(deps, sender, &left) {
                            return Err(ContractError::Std(e));
                        }
                        proof {
                            saved = Some(left@);
                            assert(snapshot_mut(*deps).storage =~= before.storage.insert(
                                allowance_key(sender@),
                                allowance_json(left@),
                            ));
                        }
                    },
                },
            },
            _ => {
                return Err(ContractError::MessageTypeRejected {  });
            },
        }
    }
    assert(msgs@.take(msgs@.len() as int) =~= msgs@);
    Ok(())
}

/// Once a message is refused, those after it change nothing.
pub proof fn lemma_charge_stops<T>(
    permissions: Result<Option<Permissions>, StdError>,
    allowance: Result<Option<AllowanceView>, StdError>,
    msgs: Seq<CosmosMsg<T>>,
    n: int,
)
    requires
        0 <= n <= msgs.len(),
    ensures
        charge_all(permissions, allowance, msgs.take(n)).error is Some ==> charge_all(
            permissions,
            allowance,
            msgs,
        ) == charge_all(permissions, allowance, msgs.take(n)),
    decreases msgs.len(),
{
    if n < msgs.len() {
        lemma_charge_stops(permissions, allowance, msgs.drop_last(), n);
        assert(msgs.drop_last().take(n) =~= msgs.take(n));
    } else {
        assert(msgs.take(n) =~= msgs);
    }
}

/// Puts messages up to be run, each without a reply.
fn relay<T>(msgs: Vec<CosmosMsg<T>>) -> (res: Vec<SubMsg<T>>)
    ensures
        res@ == relayed(msgs@),
{
    let mut res: Vec<SubMsg<T>> = Vec::new();
    for msg in it: msgs
        invariant
            res@ == relayed(it.seq().take(it.index())),
            it.seq() == msgs@,
    {
        proof {
            assert(it.seq().take(it.index() + 1) =~= it.seq().take(it.index()).push(msg));
        }
        res.push(SubMsg::new(msg));
    }
    assert(msgs@.take(msgs@.len() as int) =~= msgs@);
    res
}

/// Relays messages.
pub fn execute_execute<T>(
    deps: &mut DepsMut,
    _env: Env,
    info: MessageInfo,
    msgs: Vec<CosmosMsg<T>>,
) -> (res: Result<Response<T>, ContractError>)
    ensures
        execute_execute_does(
            snapshot_mut(*old(deps)),
            snapshot_mut(*final(deps)),
            info.sender@,
            msgs@,
            res,
        ),
{
    let cfg = match load_admin_list(reading(deps)) {
        Ok(cfg) => cfg,
        Err(e) => {
            return Err(ContractError::Std(e));
        },
    };
    // Not an admin: the messages need permissions or an allowance.
    if !cfg.is_admin(&info.sender) {
        let charge = charge_msgs(deps, &info.sender, &msgs);
        if let Err(e) = charge {
            return Err(e);
        }
    }
    let attributes = vec![
        attr("action", "execute".to_owned()),
        attr("owner", info.sender),
    ];
    assert(attribute_views(attributes@) =~= seq![
        ("action"@, "execute"@),
        ("owner"@, info.sender@),
    ]);
    Ok(Response { messages: relay(msgs), attributes })
}

/// The account that an admin may set an allowance or permissions of, or why the
/// sender may not.
pub open spec fn settable(before: Snapshot, sender: Seq<char>, spender: Seq<char>) -> Result<
    Seq<char>,
    ContractError,
> {
    match before.admin_list() {
        Err(e) => Err(ContractError::Std(e)),
        Ok(list) => if !list.is_admin(sender) {
            Err(ContractError::Unauthorized {  })
        } else {
            match before.addresses[spender] {
                Err(e) => Err(ContractError::Std(e)),
                Ok(addr) => if addr == sender {
                    Err(ContractError::CannotSetOwnAccount {  })
                } else {
                    Ok(addr)
                },
            }
        },
    }
}

/// What an account or an error stands for.
pub open spec fn account(res: Result<String, ContractError>) -> Result<Seq<char>, ContractError> {
    match res {
        Ok(addr) => Ok(addr@),
        Err(e) => Err(e),
    }
}

/// Checks that the sender is an admin, and the spender another account.
fn check_settable(deps: Deps, sender: &String, spender: &String) -> (res: Result<
    String,
    ContractError,
>)
    ensures
        account(res) == settable(snapshot(deps), sender@, spender@),
{
    let cfg = match load_admin_list(deps) {
        Ok(cfg) => cfg,
        Err(e) => {
            return Err(ContractError::Std(e));
        },
    };
    if !cfg.is_admin(sender) {
        return Err(ContractError::Unauthorized {  });
    }
    let spender_addr = match addr_validate(deps, spender) {
        Ok(addr) => addr,
        Err(e) => {
            return Err(ContractError::Std(e));
        },
    };
    if *sender == spender_addr {
        return Err(ContractError::CannotSetOwnAccount {  });
    }
    Ok(spender_addr)
}

/// The allowance that counts where an account may have none.
pub open spec fn allowance_or_none(found: Option<AllowanceView>) -> AllowanceView {
    match found {
        Some(allowance) => allowance,
        None => no_allowance(),
    }
}

/// The expiration after a call that may set one.
pub open spec fn expiration_set(expires: Expiration, set: Option<Expiration>) -> Expiration {
    match set {
        Some(e) => e,
        None => expires,
    }
}

/// An allowance with a coin added to it.
pub open spec fn raised(
    allowance: AllowanceView,
    amount: CoinView,
    expires: Option<Expiration>,
) -> AllowanceView {
    AllowanceView {
        balance: added(allowance.balance, amount),
        expires: expiration_set(allowance.expires, expires),
    }
}

/// Adds a coin to an account's allowance, if it has one, else to none, and sets
/// the expiration if one is given.
pub fn raise_allowance(found: Option<Allowance>, amount: &Coin, expires: Option<Expiration>) -> (res:
    Allowance)
    requires
        addable(allowance_or_none(found_view(found)).balance, amount@),
    ensures
        res@ == raised(allowance_or_none(found_view(found)), amount@, expires),
        expires is Some ==> res.expires == expires->Some_0,
        expires is None && found is Some ==> res.expires == found->Some_0.expires,
        expires is None && found is None ==> res.expires is Never,
{
    let held = match found {
        Some(held) => held,
        None => Allowance::default(),
    };
    Allowance {
        expires: match expires {
            Some(exp) => exp,
            None => held.expires,
        },
        balance: held.balance.add_coin(amount),
    }
}

/// Takes up to an amount of a coin off an account's allowance, and sets the
/// expiration if one is given. It fails where the account has no allowance, or
/// none of this coin.
pub fn lower_allowance(found: Option<Allowance>, amount: &Coin, expires: Option<Expiration>) -> (res:
    Result<Allowance, ContractError>)
    ensures
        match (found_view(found), res) {
            (None, Err(e)) => e == (ContractError::NoAllowance {  }),
            (Some(held), Err(e)) => reduced(held.balance, amount@) is None && e
                == ContractError::Std(sub_overflow(0, amount@.amount)),
            (Some(held), Ok(left)) => reduced(held.balance, amount@) == Some(left@.balance)
                && left@.expires == expiration_set(held.expires, expires),
            (None, Ok(_)) => false,
        },
        found is None ==> res is Err && res->Err_0 is NoAllowance,
        res is Ok && expires is Some ==> res->Ok_0.expires == expires->Some_0,
        res is Ok && expires is None ==> res->Ok_0.expires == found->Some_0.expires,
{
    match found {
        None => Err(ContractError::NoAllowance {  }),
        Some(held) => match held.balance.sub_saturating(amount) {
            Err(e) => Err(ContractError::Std(e)),
            Ok(balance) => Ok(
                Allowance {
                    balance,
                    expires: match expires {
                        Some(exp) => exp,
                        None => held.expires,
                    },
                },
            ),
        },
    }
}

/// The attributes of a call that changes an allowance.
pub open spec fn allowance_attributes(
    action: Seq<char>,
    owner: Seq<char>,
    spender: Seq<char>,
    amount: CoinView,
) -> Seq<(Seq<char>, Seq<char>)> {
    seq![
        ("action"@, action),
        ("owner"@, owner),
        ("spender"@, spender),
        ("denomination"@, amount.denom),
        ("amount"@, decimal(amount.amount as nat)),
    ]
}

/// Makes the attributes of a call that changes an allowance.
fn make_allowance_attributes(action: &str, owner: String, spender: String, amount: Coin) -> (res:
    Vec<Attribute>)
    ensures
        attribute_views(res@) == allowance_attributes(action@, owner@, spender@, amount@),
{
    let res = vec![
        attr("action", action.to_owned()),
        attr("owner", owner),
        attr("spender", spender),
        attr("denomination", amount.denom),
        attr("amount", decimal_text(amount.amount)),
    ];
    assert(attribute_views(res@) =~= allowance_attributes(action@, owner@, spender@, amount@));
    res
}

/// Whether `execute_increase_allowance` can add: where it gets as far as adding,
/// the sum is an amount.
pub open spec fn increase_fits(
    before: Snapshot,
    sender: Seq<char>,
    spender: Seq<char>,
    amount: CoinView,
) -> bool {
    match settable(before, sender, spender) {
        Ok(addr) => match before.allowance(addr) {
            Ok(found) => addable(allowance_or_none(found).balance, amount),
            Err(_) => true,
        },
        Err(_) => true,
    }
}

/// What `execute_increase_allowance` does: the spender may send one more coin,
/// until the given expiration or the one it had.
pub open spec fn execute_increase_allowance_does<T>(
    before: Snapshot,
    after: Snapshot,
    sender: Seq<char>,
    spender: Seq<char>,
    amount: CoinView,
    expires: Option<Expiration>,
    res: Result<Response<T>, ContractError>,
) -> bool {
    match settable(before, sender, spender) {
        Err(e) => refuses(before, after, res, e),
        Ok(addr) => match before.allowance(addr) {
            Err(e) => refuses(before, after, res, ContractError::Std(e)),
            Ok(found) => {
                &&& allowance_written(
                    before,
                    after,
                    addr,
                    raised(allowance_or_none(found), amount, expires),
                )
                &&& answers(
                    res,
                    Seq::empty(),
                    allowance_attributes("increase_allowance"@, sender, spender, amount),
                )
            },
        },
    }
}

/// Adds a coin to an account's allowance. The sum must be an amount.
pub fn execute_increase_allowance<T>(
    deps: &mut DepsMut,
    _env: Env,
    info: MessageInfo,
    spender: String,
    amount: Coin,
    expires: Option<Expiration>,
) -> (res: Result<Response<T>, ContractError>)
    requires
        increase_fits(snapshot_mut(*old(deps)), info.sender@, spender@, amount@),
    ensures
        execute_increase_allowance_does(
            snapshot_mut(*old(deps)),
            snapshot_mut(*final(deps)),
            info.sender@,
            spender@,
            amount@,
            expires,
            res,
        ),
{
    let spender_addr = match check_settable(reading(deps), &info.sender, &spender) {
        Ok(addr) => addr,
        Err(e) => {
            return Err(e);
        },
    };
    let found = match load_allowance(reading(deps), &spender_addr) {
        Ok(found) => found,
        Err(e) => {
            return Err(ContractError::Std(e));
        },
    };
    let allowance = raise_allowance(found, &amount, expires);
    if let Err(e) = save_allowance(deps, &spender_addr, &allowance) {
        return Err(ContractError::Std(e));
    }
    Ok(
        Response {
            messages: Vec::new(),
            attributes: make_allowance_attributes(
                "increase_allowance",
                info.sender,
                spender,
                amount,
            ),
        },
    )
}

/// Whether a call removes an account's allowance, and nothing else.
pub open spec fn allowance_removed(before: Snapshot, after: Snapshot, addr: Seq<char>) -> bool {
    &&& after.addresses == before.addresses
    &&& after.storage == before.storage.remove(allowance_key(addr))
}

/// What `execute_decrease_allowance` does: the spender may send less of one
/// coin, until the given expiration or the one it had. An allowance with nothing
/// left is removed. It is refused where the spender has no allowance, or none of
/// this coin.
pub open spec fn execute_decrease_allowance_does<T>(
    before: Snapshot,
    after: Snapshot,
    sender: Seq<char>,
    spender: Seq<char>,
    amount: CoinView,
    expires: Option<Expiration>,
    res: Result<Response<T>, ContractError>,
) -> bool {
    match settable(before, sender, spender) {
        Err(e) => refuses(before, after, res, e),
        Ok(addr) => match before.allowance(addr) {
            Err(e) => refuses(before, after, res, ContractError::Std(e)),
            Ok(None) => refuses(before, after, res, ContractError::NoAllowance {  }),
            Ok(Some(held)) => match reduced(held.balance, amount) {
                None => refuses(
                    before,
                    after,
                    res,
                    ContractError::Std(sub_overflow(0, amount.amount)),
                ),
                Some(rest) => {
                    &&& if exhausted(rest) {
                        allowance_removed(before, after, addr)
                    } else {
                        allowance_written(
                            before,
                            after,
                            addr,
                            AllowanceView {
                                balance: rest,
                                expires: expiration_set(held.expires, expires),
                            },
                        )
                    }
                    &&& answers(
                        res,
                        Seq::empty(),
                        allowance_attributes("decrease_allowance"@, sender, spender, amount),
                    )
                },
            },
        },
    }
}

/// Takes up to an amount of a coin off an account's allowance.
pub fn execute_decrease_allowance<T>(
    deps: &mut DepsMut,
    _env: Env,
    info: MessageInfo,
    spender: String,
    amount: Coin,
    expires: Option<Expiration>,
) -> (res: Result<Response<T>, ContractError>)
    ensures
        execute_decrease_allowance_does(
            snapshot_mut(*old(deps)),
            snapshot_mut(*final(deps)),
            info.sender@,
            spender@,
            amount@,
            expires,
            res,
        ),
{
    let ghost before = snapshot_mut(*deps);
    let spender_addr = match check_settable(reading(deps), &info.sender, &spender) {
        Ok(addr) => addr,
        Err(e) => {
            return Err(e);
        },
    };
    let found = match load_allowance(reading(deps), &spender_addr) {
        Ok(found) => found,
        Err(e) => {
            return Err(ContractError::Std(e));
        },
    };
    let allowance = match lower_allowance(found, &amount, expires) {
        Ok(allowance) => allowance,
        Err(e) => {
            return Err(e);
        },
    };
    if let Err(e) = save_allowance(deps, &spender_addr, &allowance) {
        return Err(ContractError::Std(e));
    }
    if allowance.balance.is_empty() {
        remove_allowance(deps, &spender_addr);
        assert(snapshot_mut(*deps).storage =~= before.storage.remove(
            allowance_key(spender_addr@),
        ));
    }
    Ok(
        Response {
            messages: Vec::new(),
            attributes: make_allowance_attributes(
                "decrease_allowance",
                info.sender,
                spender,
                amount,
            ),
        },
    )
}

/// Whether a call writes an account's permissions, and nothing else.
pub open spec fn permissions_written(
    before: Snapshot,
    after: Snapshot,
    addr: Seq<char>,
    permissions: Permissions,
) -> bool {
    &&& after.addresses == before.addresses
    &&& after.storage == before.storage.insert(permissions_key(addr), permissions_json(permissions))
    &&& after.permissions(addr) == holding(permissions)
}

/// What `execute_set_permissions` does.
pub open spec fn execute_set_permissions_does<T>(
    before: Snapshot,
    after: Snapshot,
    sender: Seq<char>,
    spender: Seq<char>,
    permissions: Permissions,
    res: Result<Response<T>, ContractError>,
) -> bool {
    match settable(before, sender, spender) {
        Err(e) => refuses(before, after, res, e),
        Ok(addr) => {
            &&& permissions_written(before, after, addr, permissions)
            &&& answers(
                res,
                Seq::empty(),
                seq![
                    ("action"@, "set_permissions"@),
                    ("owner"@, sender),
                    ("spender"@, spender),
                    ("permissions"@, permissions.words()),
                ],
            )
        },
    }
}

/// Sets an account's permissions.
pub fn execute_set_permissions<T>(
    deps: &mut DepsMut,
    _env: Env,
    info: MessageInfo,
    spender: String,
    perm: Permissions,
) -> (res: Result<Response<T>, ContractError>)
    ensures
        execute_set_permissions_does(
            snapshot_mut(*old(deps)),
            snapshot_mut(*final(deps)),
            info.sender@,
            spender@,
            perm,
            res,
        ),
{
    let spender_addr = match check_settable(reading(deps), &info.sender, &spender) {
        Ok(addr) => addr,
        Err(e) => {
            return Err(e);
        },
    };
    save_permissions(deps, &spender_addr, &perm);
    let attributes = vec![
        attr("action", "set_permissions".to_owned()),
        attr("owner", info.sender),
        attr("spender", spender),
        attr("permissions", perm.to_string()),
    ];
    assert(attribute_views(attributes@) =~= seq![
        ("action"@, "set_permissions"@),
        ("owner"@, info.sender@),
        ("spender"@, spender@),
        ("permissions"@, perm.words()),
    ]);
    Ok(Response { messages: Vec::new(), attributes })
}

/// What `instantiate` does: it keeps the admins, once the chain took them all,
/// and records its own name and version. Where an address is refused, the
/// version of the whitelist is all that was written.
pub open spec fn instantiate_does(
    before: Snapshot,
    after: Snapshot,
    admins: Seq<Seq<char>>,
    mutable: bool,
    res: Result<Response<Empty>, StdError>,
) -> bool {
    &&& after.addresses == before.addresses
    &&& match validated(before.addresses, admins) {
        Ok(addrs) => {
            let list = AdminListView { admins: addrs, mutable };
            &&& after.storage == before.storage.insert(
                admin_list_key(),
                admin_list_json(list),
            ).insert(version_key(), version_json(CONTRACT_NAME@, CONTRACT_VERSION@))
            &&& after.admin_list() == loaded(list)
            &&& after.version() == loaded((CONTRACT_NAME@, CONTRACT_VERSION@))
            &&& res is Ok
            &&& res->Ok_0.messages@.len() == 0
            &&& res->Ok_0.attributes@.len() == 0
        },
        Err(e) => {
            &&& after.storage == before.storage.insert(
                version_key(),
                version_json("crates.io:cw1-whitelist"@, "0.7.0"@),
            )
            &&& res is Err
            &&& res->Err_0 == e
        },
    }
}

/// Sets the contract up.
pub fn instantiate(deps: &mut DepsMut, env: Env, info: MessageInfo, msg: InstantiateMsg) -> (res:
    Result<Response<Empty>, StdError>)
    ensures
        instantiate_does(
            snapshot_mut(*old(deps)),
            snapshot_mut(*final(deps)),
            text_views(msg.admins@),
            msg.mutable,
            res,
        ),
{
    let ghost before = snapshot_mut(*deps);
    let attributes = match whitelist_instantiate(deps, env, &info, msg) {
        Ok(attributes) => attributes,
        Err(e) => {
            return Err(e);
        },
    };
    let ghost between = snapshot_mut(*deps);
    if let Err(e) = set_contract_version(deps, CONTRACT_NAME, CONTRACT_VERSION) {
        return Err(e);
    }
    proof {
        crate::keys::entries_apart(seq![], seq![]);
        let list = between.admin_list()->Ok_0;
        assert(snapshot_mut(*deps).storage =~= before.storage.insert(
            admin_list_key(),
            admin_list_json(list),
        ).insert(version_key(), version_json(CONTRACT_NAME@, CONTRACT_VERSION@)));
    }
    Ok(Response { messages: Vec::new(), attributes })
}

/// What `Freeze` does: where the sender may change the admins, nobody may from
/// now on.
pub open spec fn freeze_does<T>(
    before: Snapshot,
    after: Snapshot,
    sender: Seq<char>,
    res: Result<Response<T>, ContractError>,
) -> bool {
    match before.admin_list() {
        Err(e) => refuses(before, after, res, ContractError::Std(e)),
        Ok(list) => if !list.can_modify(sender) {
            refuses(before, after, res, ContractError::Unauthorized {  })
        } else {
            &&& admins_written(before, after, frozen(list))
            &&& answers(res, Seq::empty(), seq![("action"@, "freeze"@)])
        },
    }
}

/// Whether a call writes the admins, and nothing else.
pub open spec fn admins_written(before: Snapshot, after: Snapshot, list: AdminListView) -> bool {
    &&& after.addresses == before.addresses
    &&& after.storage == before.storage.insert(admin_list_key(), admin_list_json(list))
    &&& after.admin_list() == loaded(list)
}

/// What `UpdateAdmins` does: where the sender may change the admins, and the
/// chain takes all the new ones, they replace the old ones.
pub open spec fn update_admins_does<T>(
    before: Snapshot,
    after: Snapshot,
    sender: Seq<char>,
    admins: Seq<Seq<char>>,
    res: Result<Response<T>, ContractError>,
) -> bool {
    match before.admin_list() {
        Err(e) => refuses(before, after, res, ContractError::Std(e)),
        Ok(list) => if !list.can_modify(sender) {
            refuses(before, after, res, ContractError::Unauthorized {  })
        } else {
            match validated(before.addresses, admins) {
                Err(e) => refuses(before, after, res, ContractError::Std(e)),
                Ok(addrs) => {
                    &&& admins_written(before, after, replaced(list, addrs))
                    &&& answers(res, Seq::empty(), seq![("action"@, "update_admins"@)])
                },
            }
        },
    }
}

/// What `execute` does, for each kind of call.
pub open spec fn execute_does<T>(
    before: Snapshot,
    after: Snapshot,
    sender: Seq<char>,
    msg: ExecuteMsg<T>,
    res: Result<Response<T>, ContractError>,
) -> bool {
    match msg {
        ExecuteMsg::Execute { msgs } => execute_execute_does(before, after, sender, msgs@, res),
        ExecuteMsg::Freeze {  } => freeze_does(before, after, sender, res),
        ExecuteMsg::UpdateAdmins { admins } => update_admins_does(
            before,
            after,
            sender,
            text_views(admins@),
            res,
        ),
        ExecuteMsg::IncreaseAllowance { spender, amount, expires } =>
        execute_increase_allowance_does(before, after, sender, spender@, amount@, expires, res),
        ExecuteMsg::DecreaseAllowance { spender, amount, expires } =>
        execute_decrease_allowance_does(before, after, sender, spender@, amount@, expires, res),
        ExecuteMsg::SetPermissions { spender, permissions } => execute_set_permissions_does(
            before,
            after,
            sender,
            spender@,
            permissions,
            res,
        ),
    }
}

/// Whether `execute` can do what is asked: an increased allowance is an amount.
pub open spec fn execute_fits<T>(
    before: Snapshot,
    sender: Seq<char>,
    msg: ExecuteMsg<T>,
) -> bool {
    match msg {
        ExecuteMsg::IncreaseAllowance { spender, amount, .. } => increase_fits(
            before,
            sender,
            spender@,
            amount@,
        ),
        _ => true,
    }
}

/// Runs a call. An increased allowance must be an amount.
pub fn execute(deps: &mut DepsMut, env: Env, info: MessageInfo, msg: ExecuteMsg<Empty>) -> (res:
    Result<Response<Empty>, ContractError>)
    requires
        execute_fits(snapshot_mut(*old(deps)), info.sender@, msg),
    ensures
        execute_does(
            snapshot_mut(*old(deps)),
            snapshot_mut(*final(deps)),
            info.sender@,
            msg,
            res,
        ),
{
    match msg {
        ExecuteMsg::Execute { msgs } => execute_execute(deps, env, info, msgs),
        ExecuteMsg::Freeze {  } => match whitelist_freeze(deps, env, &info) {
            Ok(attributes) => Ok(Response { messages: Vec::new(), attributes }),
            Err(e) => Err(e),
        },
        ExecuteMsg::UpdateAdmins { admins } => match whitelist_update_admins(
            deps,
            env,
            &info,
            admins,
        ) {
            Ok(attributes) => Ok(Response { messages: Vec::new(), attributes }),
            Err(e) => Err(e),
        },
        ExecuteMsg::IncreaseAllowance { spender, amount, expires } => execute_increase_allowance(
            deps,
            env,
            info,
            spender,
            amount,
            expires,
        ),
        ExecuteMsg::DecreaseAllowance { spender, amount, expires } => execute_decrease_allowance(
            deps,
            env,
            info,
            spender,
            amount,
            expires,
        ),
        ExecuteMsg::SetPermissions { spender, permissions } => execute_set_permissions(
            deps,
            env,
            info,
            spender,
            permissions,
        ),
    }
}

/// Whether an increased allowance is an amount.
fn check_increase(deps: Deps, sender: &String, spender: &String, amount: &Coin) -> (res: bool)
    ensures
        res == increase_fits(snapshot(deps), sender@, spender@, amount@),
{
    let spender_addr = match check_settable(deps, sender, spender) {
        Ok(addr) => addr,
        Err(_) => {
            return true;
        },
    };
    match load_allowance(deps, &spender_addr) {
        Ok(Some(held)) => held.balance.can_add(amount),
        Ok(None) => Allowance::default().balance.can_add(amount),
        Err(_) => true,
    }
}

/// Runs a call like `execute`, unless an increased allowance would not be an
/// amount: then it does nothing, and gives no answer.
pub fn try_execute(deps: &mut DepsMut, env: Env, info: MessageInfo, msg: ExecuteMsg<Empty>) -> (res:
    Option<Result<Response<Empty>, ContractError>>)
    ensures
        match res {
            Some(answer) => execute_fits(snapshot_mut(*old(deps)), info.sender@, msg)
                && execute_does(
                snapshot_mut(*old(deps)),
                snapshot_mut(*final(deps)),
                info.sender@,
                msg,
                answer,
            ),
            None => !execute_fits(snapshot_mut(*old(deps)), info.sender@, msg) && snapshot_mut(
                *final(deps),
            ) == snapshot_mut(*old(deps)),
        },
{
    let fits = match &msg {
        ExecuteMsg::IncreaseAllowance { spender, amount, .. } => check_increase(
            reading(deps),
            &info.sender,
            spender,
            amount,
        ),
        _ => true,
    };
    if fits {
        Some(execute(deps, env, info, msg))
    } else {
        None
    }
}

/// What a query for an account's allowance gives. An account without one has an
/// empty one, and so has a text that the chain does not take for an address:
/// nothing is ever kept under it.
pub open spec fn allowance_of(chain: Snapshot, spender: Seq<char>) -> Result<
    AllowanceView,
    StdError,
> {
    match chain.addresses[spender] {
        Err(_) => Ok(no_allowance()),
        Ok(addr) => match chain.allowance(addr) {
            Err(e) => Err(e),
            Ok(found) => Ok(allowance_or_none(found)),
        },
    }
}

/// Asks for an account's allowance. An account without one has an empty one. A
/// bad address means a miss, not an error.
pub fn query_allowance(deps: Deps, spender: String) -> (res: Result<Allowance, StdError>)
    ensures
        allowance_result(res) == allowance_of(snapshot(deps), spender@),
{
    match addr_validate(deps, &spender) {
        Err(_) => Ok(Allowance::default()),
        Ok(addr) => match load_allowance(deps, &addr) {
            Err(e) => Err(e),
            Ok(Some(allowance)) => Ok(allowance),
            Ok(None) => Ok(Allowance::default()),
        },
    }
}

/// What a query for an account's permissions gives. An account without any may
/// relay nothing.
pub open spec fn permissions_of(chain: Snapshot, spender: Seq<char>) -> Result<
    Permissions,
    StdError,
> {
    match chain.addresses[spender] {
        Err(e) => Err(e),
        Ok(addr) => match chain.permissions(addr) {
            Err(e) => Err(e),
            Ok(Some(permissions)) => Ok(permissions),
            Ok(None) => Ok(no_permissions()),
        },
    }
}

/// Asks for an account's permissions. An account without any may relay nothing.
pub fn query_permissions(deps: Deps, spender: String) -> (res: Result<Permissions, StdError>)
    ensures
        res == permissions_of(snapshot(deps), spender@),
{
    match addr_validate(deps, &spender) {
        Err(e) => Err(e),
        Ok(addr) => match load_permissions(deps, &addr) {
            Err(e) => Err(e),
            Ok(Some(permissions)) => Ok(permissions),
            Ok(None) => Ok(Permissions::default()),
        },
    }
}

/// Whether an account may relay a message, as far as the query says. It says no
/// to distribution messages of subkeys.
pub open spec fn relayable<T>(chain: Snapshot, sender: Seq<char>, msg: CosmosMsg<T>) -> Result<
    bool,
    StdError,
> {
    match chain.admin_list() {
        Err(e) => Err(e),
        Ok(list) => if list.is_admin(sender) {
            Ok(true)
        } else {
            match chain.addresses[sender] {
                Err(e) => Err(e),
                Ok(addr) => match msg {
                    CosmosMsg::Bank(BankMsg::Send { amount, .. }) => match chain.allowance(addr) {
                        Err(e) => Err(e),
                        Ok(None) => Ok(false),
                        Ok(Some(a)) => Ok(spent(a.balance, coin_views(amount@)) is Some),
                    },
                    CosmosMsg::Staking(staking_msg) => match chain.permissions(addr) {
                        Err(e) => Err(e),
                        Ok(None) => Ok(false),
                        Ok(Some(p)) => Ok(staking_refusal(staking_msg, p) is None),
                    },
                    _ => Ok(false),
                },
            }
        },
    }
}

/// Whether an account may relay a message.
pub fn can_execute(deps: Deps, sender: String, msg: CosmosMsg<Empty>) -> (res: Result<
    bool,
    StdError,
>)
    ensures
        res == relayable(snapshot(deps), sender@, msg),
{
    let cfg = match load_admin_list(deps) {
        Ok(cfg) => cfg,
        Err(e) => {
            return Err(e);
        },
    };
    if cfg.is_admin(&sender) {
        return Ok(true);
    }
    let addr = match addr_validate(deps, &sender) {
        Ok(addr) => addr,
        Err(e) => {
            return Err(e);
        },
    };
    match msg {
        CosmosMsg::Bank(BankMsg::Send { amount, .. }) => match load_allowance(deps, &addr) {
            Err(e) => Err(e),
            Ok(None) => Ok(false),
            // Taking the coins out shows whether the allowance covers them.
            Ok(Some(allowance)) => Ok(allowance.balance.sub(&amount).is_ok()),
        },
        CosmosMsg::Staking(staking_msg) => match load_permissions(deps, &addr) {
            Err(e) => Err(e),
            Ok(None) => Ok(false),
            Ok(Some(p)) => Ok(check_staking_permissions(&staking_msg, p).is_ok()),
        },
        _ => Ok(false),
    }
}

/// Asks whether an account may relay a message.
pub fn query_can_execute(deps: Deps, sender: String, msg: CosmosMsg<Empty>) -> (res: Result<
    CanExecuteResponse,
    StdError,
>)
    ensures
        match relayable(snapshot(deps), sender@, msg) {
            Ok(can_execute) => res == Ok::<CanExecuteResponse, StdError>(
                CanExecuteResponse { can_execute },
            ),
            Err(e) => res == Err::<CanExecuteResponse, StdError>(e),
        },
{
    match can_execute(deps, sender, msg) {
        Ok(can_execute) => Ok(CanExecuteResponse { can_execute }),
        Err(e) => Err(e),
    }
}

/// The largest page.
pub const MAX_LIMIT: u32 = 30;

/// The page where no limit is asked for.
pub const DEFAULT_LIMIT: u32 = 10;

/// How many entries a page holds at most: as many as asked for, but no more than
/// `MAX_LIMIT`.
pub open spec fn page_limit(request: Option<u32>) -> nat {
    let asked = match request {
        Some(limit) => limit as nat,
        None => DEFAULT_LIMIT as nat,
    };
    if asked < MAX_LIMIT {
        asked
    } else {
        MAX_LIMIT as nat
    }
}

/// How many entries a page holds at most.
pub fn calc_limit(request: Option<u32>) -> (res: usize)
    ensures
        res == page_limit(request),
        request is None ==> res == 10,
        request is Some ==> res == if request->Some_0 < 30 {
            request->Some_0 as int
        } else {
            30
        },
{
    let asked: u32 = request.unwrap_or(DEFAULT_LIMIT);
    if asked < MAX_LIMIT {
        asked as usize
    } else {
        MAX_LIMIT as usize
    }
}

/// Where a page starts: above the key of an account, or at the first key.
pub open spec fn page_start(start_after: Option<String>) -> Option<Seq<u8>> {
    match start_after {
        Some(account) => Some(encode_utf8(account@)),
        None => None,
    }
}

/// The key above which a page starts.
fn start_key(start_after: Option<String>) -> (res: Option<Vec<u8>>)
    ensures
        key_view(res) == page_start(start_after),
{
    match start_after {
        Some(account) => Some(text_bytes(account.as_str())),
        None => None,
    }
}

/// What the entry of an allowance says, with its key.
pub open spec fn allowance_entry(key: Seq<u8>, bytes: Seq<u8>) -> Result<
    AllowanceInfoView,
    StdError,
> {
    match allowance_parsed(bytes) {
        Err(e) => Err(e),
        Ok(allowance) => if valid_utf8(key) {
            Ok(
                AllowanceInfoView {
                    spender: decode_utf8(key),
                    balance: allowance.balance,
                    expires: allowance.expires,
                },
            )
        } else {
            Err(not_text(key))
        },
    }
}

/// What an entry that was read stands for.
pub open spec fn allowance_info_result(res: Result<AllowanceInfo, StdError>) -> Result<
    AllowanceInfoView,
    StdError,
> {
    match res {
        Ok(info) => Ok(info@),
        Err(e) => Err(e),
    }
}

/// Reads the entry of an allowance.
pub fn read_allowance_entry(key: Vec<u8>, bytes: &Vec<u8>) -> (res: Result<AllowanceInfo, StdError>)
    ensures
        allowance_info_result(res) == allowance_entry(key@, bytes@),
{
    match parse_allowance(bytes) {
        Err(e) => Err(e),
        Ok(allowance) => match key_text(key) {
            Err(e) => Err(e),
            Ok(spender) => Ok(
                AllowanceInfo {
                    spender,
                    balance: allowance.balance,
                    expires: allowance.expires,
                },
            ),
        },
    }
}

/// What the entry of an allowance under a key says.
pub open spec fn allowance_info(storage: Storage) -> spec_fn(Seq<u8>) -> Result<
    AllowanceInfoView,
    StdError,
> {
    |key: Seq<u8>| allowance_entry(key, storage[allowance_namespace() + key])
}

/// What a page of the allowances reads as: its accounts in the order of their bytes,
/// each with what its entry says.
pub open spec fn allowances_read(
    storage: Storage,
    start_after: Option<String>,
    limit: Option<u32>,
    res: Result<Seq<AllowanceInfoView>, StdError>,
) -> bool {
    reads(
        storage,
        allowance_namespace(),
        page_start(start_after),
        page_limit(limit),
        allowance_info(storage),
        res,
    )
}

/// What a queried page of allowances stands for.
pub open spec fn allowances_result(res: Result<AllAllowancesResponse, StdError>) -> Result<
    Seq<AllowanceInfoView>,
    StdError,
> {
    match res {
        Ok(page) => Ok(page@),
        Err(e) => Err(e),
    }
}

/// Asks for a page of the allowances, in the order of the accounts' bytes.
pub fn query_all_allowances(deps: Deps, start_after: Option<String>, limit: Option<u32>) -> (res:
    Result<AllAllowancesResponse, StdError>)
    ensures
        allowances_read(contents(deps), start_after, limit, allowances_result(res)),
{
    proof {
        lemma_names_fit();
    }
    let entries = page_entries(deps, "allowances", start_key(start_after), calc_limit(limit));
    let ghost keys = entry_keys(entries@);
    let ghost decode = allowance_info(contents(deps));
    let mut allowances: Vec<AllowanceInfo> = Vec::new();
    assert(allowances@.map_values(|a: AllowanceInfo| a@) =~= Seq::empty());
    assert(keys.take(0) =~= Seq::empty());
    for (key, bytes) in it: entries
        invariant
            keys == entry_keys(entries@),
            it.seq() == entries@,
            decode == allowance_info(contents(deps)),
            forall|i: int|
                0 <= i < entries@.len() ==> contents(deps)[allowance_namespace() + (
                #[trigger] entries@[i]).0@] == entries@[i].1@,
            is_page(
                contents(deps),
                allowance_namespace(),
                page_start(start_after),
                page_limit(limit),
                keys,
            ),
            collected(decode, keys.take(it.index())) == Ok::<Seq<AllowanceInfoView>, StdError>(
                allowances@.map_values(|a: AllowanceInfo| a@),
            ),
    {
        proof {
            assert(entries@[it.index()].0@ == keys[it.index()]);
            assert(keys.take(it.index() + 1).drop_last() =~= keys.take(it.index()));
        }
        let ghost before = allowances@;
        match read_allowance_entry(key, &bytes) {
            Ok(info) => {
                allowances.push(info);
                assert(allowances@.map_values(|a: AllowanceInfo| a@) =~= before.map_values(
                    |a: AllowanceInfo| a@,
                ).push(info@));
            },
            Err(e) => {
                proof {
                    lemma_collecting_stops(decode, keys, it.index() + 1);
                }
                return Err(e);
            },
        }
    }
    assert(keys.take(keys.len() as int) =~= keys);
    Ok(AllAllowancesResponse { allowances })
}

/// What the entry of permissions says, with its key.
pub open spec fn permissions_entry(key: Seq<u8>, bytes: Seq<u8>) -> Result<
    PermissionsInfoView,
    StdError,
> {
    match permissions_parsed(bytes) {
        Err(e) => Err(e),
        Ok(permissions) => if valid_utf8(key) {
            Ok(
                PermissionsInfoView {
                    spender: decode_utf8(key),
                    permissions,
                },
            )
        } else {
            Err(not_text(key))
        },
    }
}

/// What an entry that was read stands for.
pub open spec fn permissions_info_result(res: Result<PermissionsInfo, StdError>) -> Result<
    PermissionsInfoView,
    StdError,
> {
    match res {
        Ok(info) => Ok(info@),
        Err(e) => Err(e),
    }
}

/// Reads the entry of permissions.
pub fn read_permissions_entry(key: Vec<u8>, bytes: &Vec<u8>) -> (res: Result<
    PermissionsInfo,
    StdError,
>)
    ensures
        permissions_info_result(res) == permissions_entry(key@, bytes@),
{
    match parse_permissions(bytes) {
        Err(e) => Err(e),
        Ok(permissions) => match key_text(key) {
            Err(e) => Err(e),
            Ok(spender) => Ok(
                PermissionsInfo {
                    spender,
                    permissions,
                },
            ),
        },
    }
}

/// What the entry of permissions under a key says.
pub open spec fn permissions_info(storage: Storage) -> spec_fn(Seq<u8>) -> Result<
    PermissionsInfoView,
    StdError,
> {
    |key: Seq<u8>| permissions_entry(key, storage[permissions_namespace() + key])
}

/// What a page of the permissions reads as: its accounts in the order of their bytes,
/// each with what its entry says.
pub open spec fn permissions_read(
    storage: Storage,
    start_after: Option<String>,
    limit: Option<u32>,
    res: Result<Seq<PermissionsInfoView>, StdError>,
) -> bool {
    reads(
        storage,
        permissions_namespace(),
        page_start(start_after),
        page_limit(limit),
        permissions_info(storage),
        res,
    )
}

/// What a queried page of permissions stands for.
pub open spec fn permissions_result(res: Result<AllPermissionsResponse, StdError>) -> Result<
    Seq<PermissionsInfoView>,
    StdError,
> {
    match res {
        Ok(page) => Ok(page@),
        Err(e) => Err(e),
    }
}

/// Asks for a page of the permissions, in the order of the accounts' bytes.
pub fn query_all_permissions(deps: Deps, start_after: Option<String>, limit: Option<u32>) -> (res:
    Result<AllPermissionsResponse, StdError>)
    ensures
        permissions_read(contents(deps), start_after, limit, permissions_result(res)),
{
    proof {
        lemma_names_fit();
    }
    let entries = page_entries(deps, "permissions", start_key(start_after), calc_limit(limit));
    let ghost keys = entry_keys(entries@);
    let ghost decode = permissions_info(contents(deps));
    let mut permissions: Vec<PermissionsInfo> = Vec::new();
    assert(permissions@.map_values(|p: PermissionsInfo| p@) =~= Seq::empty());
    assert(keys.take(0) =~= Seq::empty());
    for (key, bytes) in it: entries
        invariant
            keys == entry_keys(entries@),
            it.seq() == entries@,
            decode == permissions_info(contents(deps)),
            forall|i: int|
                0 <= i < entries@.len() ==> contents(deps)[permissions_namespace() + (
                #[trigger] entries@[i]).0@] == entries@[i].1@,
            is_page(
                contents(deps),
                permissions_namespace(),
                page_start(start_after),
                page_limit(limit),
                keys,
            ),
            collected(decode, keys.take(it.index())) == Ok::<Seq<PermissionsInfoView>, StdError>(
                permissions@.map_values(|p: PermissionsInfo| p@),
            ),
    {
        proof {
            assert(entries@[it.index()].0@ == keys[it.index()]);
            assert(keys.take(it.index() + 1).drop_last() =~= keys.take(it.index()));
        }
        let ghost before = permissions@;
        match read_permissions_entry(key, &bytes) {
            Ok(info) => {
                permissions.push(info);
                assert(permissions@.map_values(|p: PermissionsInfo| p@) =~= before.map_values(
                    |p: PermissionsInfo| p@,
                ).push(info@));
            },
            Err(e) => {
                proof {
                    lemma_collecting_stops(decode, keys, it.index() + 1);
                }
                return Err(e);
            },
        }
    }
    assert(keys.take(keys.len() as int) =~= keys);
    Ok(AllPermissionsResponse { permissions })
}

/// Asks for the admins.
pub fn query_admin_list(deps: Deps) -> (res: Result<AdminListResponse, StdError>)
    ensures
        admin_list_response(res) == snapshot(deps).admin_list(),
{
    whitelist_query_admin_list(deps)
}

/// Asks for the name and the version that the contract recorded.
pub fn query_version(deps: Deps) -> (res: Result<(String, String), StdError>)
    ensures
        version_result(res) == snapshot(deps).version(),
{
    get_contract_version(deps)
}

/// What the answer to a query, or its error, stands for.
pub open spec fn query_result(res: Result<QueryResponse, StdError>) -> Result<
    QueryResponseView,
    StdError,
> {
    match res {
        Ok(response) => Ok(response@),
        Err(e) => Err(e),
    }
}

/// What `query` answers, for each kind of question.
pub open spec fn query_answers<T>(
    chain: Snapshot,
    msg: QueryMsg<T>,
    res: Result<QueryResponseView, StdError>,
) -> bool {
    match msg {
        QueryMsg::AdminList {  } => match chain.admin_list() {
            Ok(list) => res == loaded(QueryResponseView::AdminList(list)),
            Err(e) => res == Err::<QueryResponseView, StdError>(e),
        },
        QueryMsg::Allowance { spender } => match allowance_of(chain, spender@) {
            Ok(allowance) => res == loaded(QueryResponseView::Allowance(allowance)),
            Err(e) => res == Err::<QueryResponseView, StdError>(e),
        },
        QueryMsg::Permissions { spender } => match permissions_of(chain, spender@) {
            Ok(permissions) => res == loaded(QueryResponseView::Permissions(permissions)),
            Err(e) => res == Err::<QueryResponseView, StdError>(e),
        },
        QueryMsg::CanExecute { sender, msg } => match relayable(chain, sender@, msg) {
            Ok(can_execute) => res == loaded(QueryResponseView::CanExecute(can_execute)),
            Err(e) => res == Err::<QueryResponseView, StdError>(e),
        },
        QueryMsg::AllAllowances { start_after, limit } => match res {
            Ok(QueryResponseView::AllAllowances(page)) => allowances_read(
                chain.storage,
                start_after,
                limit,
                Ok(page),
            ),
            Err(e) => allowances_read(chain.storage, start_after, limit, Err(e)),
            _ => false,
        },
        QueryMsg::AllPermissions { start_after, limit } => match res {
            Ok(QueryResponseView::AllPermissions(page)) => permissions_read(
                chain.storage,
                start_after,
                limit,
                Ok(page),
            ),
            Err(e) => permissions_read(chain.storage, start_after, limit, Err(e)),
            _ => false,
        },
    }
}

/// Answers a query.
pub fn query(deps: Deps, _env: Env, msg: QueryMsg<Empty>) -> (res: Result<QueryResponse, StdError>)
    ensures
        query_answers(snapshot(deps), msg, query_result(res)),
{
    match msg {
        QueryMsg::AdminList {  } => match query_admin_list(deps) {
            Ok(r) => Ok(QueryResponse::AdminList(r)),
            Err(e) => Err(e),
        },
        QueryMsg::Allowance { spender } => match query_allowance(deps, spender) {
            Ok(r) => Ok(QueryResponse::Allowance(r)),
            Err(e) => Err(e),
        },
        QueryMsg::Permissions { spender } => match query_permissions(deps, spender) {
            Ok(r) => Ok(QueryResponse::Permissions(r)),
            Err(e) => Err(e),
        },
        QueryMsg::CanExecute { sender, msg } => match query_can_execute(deps, sender, msg) {
            Ok(r) => Ok(QueryResponse::CanExecute(r)),
            Err(e) => Err(e),
        },
        QueryMsg::AllAllowances { start_after, limit } => match query_all_allowances(
            deps,
            start_after,
            limit,
        ) {
            Ok(r) => Ok(QueryResponse::AllAllowances(r)),
            Err(e) => Err(e),
        },
        QueryMsg::AllPermissions { start_after, limit } => match query_all_permissions(
            deps,
            start_after,
            limit,
        ) {
            Ok(r) => Ok(QueryResponse::AllPermissions(r)),
            Err(e) => Err(e),
        },
    }
}

} // verus!
