//! The laws of the contract, on concrete values.

use cosmwasm_std::testing::{mock_dependencies, mock_env, MockApi, MockQuerier, MockStorage};
use cosmwasm_std::OwnedDeps;

use cw1_subkeys::balance::NativeBalance;
use cw1_subkeys::contract::{
    execute, instantiate, query_admin_list, query_all_allowances, query_all_permissions,
    query_allowance, query_can_execute, query_permissions,
};
use cw1_subkeys::error::ContractError;
use cw1_subkeys::msg::{
    AdminListResponse, AllowanceInfo, ExecuteMsg, InstantiateMsg, PermissionsInfo,
};
use cw1_subkeys::state::{Allowance, Expiration, Permissions};
use cw1_subkeys::types::{
    BankMsg, Coin, CosmosMsg, DistributionMsg, Empty, MessageInfo, Response, StakingMsg, SubMsg,
    WasmMsg,
};

type MockDeps = OwnedDeps<MockStorage, MockApi, MockQuerier>;

const SOME: Permissions = Permissions {
    delegate: true,
    redelegate: false,
    undelegate: false,
    withdraw: true,
};

fn coin(amount: u128, denom: &str) -> Coin {
    Coin { denom: denom.to_owned(), amount }
}

fn from(sender: &str) -> MessageInfo {
    MessageInfo { sender: sender.to_owned(), funds: vec![] }
}

/// A chain with two admins, and a subkey with an allowance and permissions.
fn chain() -> MockDeps {
    let mut deps = mock_dependencies(&[]);
    let msg = InstantiateMsg {
        admins: vec!["admin".to_owned(), "second".to_owned()],
        mutable: true,
    };
    instantiate(&mut deps.as_mut(), mock_env(), from("admin"), msg).unwrap();
    let height = Some(Expiration::AtHeight(50));
    call(&mut deps, "admin", increase("subkey", coin(100, "atom"), height)).unwrap();
    call(&mut deps, "admin", increase("subkey", coin(40, "shell"), None)).unwrap();
    call(&mut deps, "admin", permit("subkey", SOME)).unwrap();
    deps
}

fn call(
    deps: &mut MockDeps,
    sender: &str,
    msg: ExecuteMsg<Empty>,
) -> Result<Response<Empty>, ContractError> {
    execute(&mut deps.as_mut(), mock_env(), from(sender), msg)
}

fn increase(spender: &str, amount: Coin, expires: Option<Expiration>) -> ExecuteMsg<Empty> {
    ExecuteMsg::IncreaseAllowance { spender: spender.to_owned(), amount, expires }
}

fn decrease(spender: &str, amount: Coin, expires: Option<Expiration>) -> ExecuteMsg<Empty> {
    ExecuteMsg::DecreaseAllowance { spender: spender.to_owned(), amount, expires }
}

fn permit(spender: &str, permissions: Permissions) -> ExecuteMsg<Empty> {
    ExecuteMsg::SetPermissions { spender: spender.to_owned(), permissions }
}

fn relay(msgs: Vec<CosmosMsg<Empty>>) -> ExecuteMsg<Empty> {
    ExecuteMsg::Execute { msgs }
}

fn send(amount: Vec<Coin>) -> CosmosMsg<Empty> {
    CosmosMsg::Bank(BankMsg::Send { to_address: "somebody".to_owned(), amount })
}

fn delegate() -> CosmosMsg<Empty> {
    CosmosMsg::Staking(StakingMsg::Delegate {
        validator: "val".to_owned(),
        amount: coin(1, "stake"),
    })
}

fn undelegate() -> CosmosMsg<Empty> {
    CosmosMsg::Staking(StakingMsg::Undelegate {
        validator: "val".to_owned(),
        amount: coin(1, "stake"),
    })
}

fn withdraw() -> CosmosMsg<Empty> {
    CosmosMsg::Distribution(DistributionMsg::WithdrawDelegatorReward {
        validator: "val".to_owned(),
    })
}

fn allowance(deps: &MockDeps, account: &str) -> Allowance {
    query_allowance(deps.as_ref(), account.to_owned()).unwrap()
}

fn permissions(deps: &MockDeps, account: &str) -> Permissions {
    query_permissions(deps.as_ref(), account.to_owned()).unwrap()
}

fn admins(deps: &MockDeps) -> AdminListResponse {
    query_admin_list(deps.as_ref()).unwrap()
}

/// All that queries show of a chain.
fn seen(deps: &MockDeps) -> (AdminListResponse, Vec<AllowanceInfo>, Vec<PermissionsInfo>, String) {
    let version = cw2::get_contract_version(&deps.storage).unwrap();
    (
        admins(deps),
        query_all_allowances(deps.as_ref(), None, Some(30)).unwrap().allowances,
        query_all_permissions(deps.as_ref(), None, Some(30)).unwrap().permissions,
        version.contract,
    )
}

#[test]
fn a_call_changes_one_thing() {
    let mut deps = chain();
    let before = seen(&deps);
    call(&mut deps, "admin", increase("other", coin(1, "atom"), None)).unwrap();
    let after = seen(&deps);
    assert_eq!((&after.0, &after.2, &after.3), (&before.0, &before.2, &before.3));
    assert_eq!(after.1[1], before.1[0]);

    call(&mut deps, "admin", permit("other", SOME)).unwrap();
    let permitted = seen(&deps);
    assert_eq!((&permitted.0, &permitted.1), (&after.0, &after.1));
    assert_eq!(permitted.2[1], after.2[0]);

    call(&mut deps, "second", ExecuteMsg::Freeze {}).unwrap();
    let frozen = seen(&deps);
    assert_eq!(
        (&frozen.1, &frozen.2, &frozen.3),
        (&permitted.1, &permitted.2, &permitted.3)
    );
    assert_ne!(frozen.0, permitted.0);
}

#[test]
fn a_refused_call_changes_nothing() {
    let mut deps = chain();
    let before = seen(&deps);
    for (sender, msg) in [
        ("subkey", relay(vec![send(vec![coin(1, "atom"), coin(41, "shell")])])),
        ("subkey", relay(vec![undelegate()])),
        ("subkey", increase("other", coin(1, "atom"), None)),
        ("admin", decrease("subkey", coin(1, "unknown"), Some(Expiration::AtHeight(1)))),
        ("admin", decrease("other", coin(1, "atom"), None)),
        ("admin", permit("admin", SOME)),
        ("outsider", ExecuteMsg::Freeze {}),
    ] {
        call(&mut deps, sender, msg).unwrap_err();
        assert_eq!(seen(&deps), before);
    }
}

#[test]
fn an_admin_relays_anything() {
    let mut deps = chain();
    let before = seen(&deps);
    let msgs = vec![
        send(vec![coin(1_000_000, "atom")]),
        undelegate(),
        withdraw(),
        CosmosMsg::Custom(Empty {}),
        CosmosMsg::Bank(BankMsg::Burn { amount: vec![coin(1, "atom")] }),
        CosmosMsg::Wasm(WasmMsg::Execute {
            contract_addr: "contract".to_owned(),
            msg: vec![1, 2, 3],
            funds: vec![],
        }),
    ];
    let res = call(&mut deps, "second", relay(msgs.clone())).unwrap();
    assert_eq!(res.messages, msgs.into_iter().map(SubMsg::new).collect::<Vec<_>>());
    assert_eq!(seen(&deps), before);
}

#[test]
fn a_freeze_is_for_good() {
    let mut deps = chain();
    call(&mut deps, "admin", ExecuteMsg::Freeze {}).unwrap();
    let frozen = AdminListResponse {
        admins: vec!["admin".to_owned(), "second".to_owned()],
        mutable: false,
    };
    assert_eq!(admins(&deps), frozen);
    let update = ExecuteMsg::UpdateAdmins { admins: vec!["other".to_owned()] };
    assert_eq!(call(&mut deps, "admin", update), Err(ContractError::Unauthorized {}));
    assert_eq!(
        call(&mut deps, "admin", ExecuteMsg::Freeze {}),
        Err(ContractError::Unauthorized {})
    );
    assert_eq!(admins(&deps), frozen);
    // The admins still manage the accounts.
    call(&mut deps, "second", increase("other", coin(1, "atom"), None)).unwrap();
    assert_eq!(admins(&deps), frozen);
}

#[test]
fn what_was_set_is_read() {
    let mut deps = chain();
    assert_eq!(permissions(&deps, "subkey"), SOME);
    assert_eq!(
        allowance(&deps, "subkey"),
        Allowance {
            balance: NativeBalance(vec![coin(100, "atom"), coin(40, "shell")]),
            expires: Expiration::AtHeight(50),
        }
    );
    let time = Some(Expiration::AtTime(12_345));
    call(&mut deps, "second", decrease("subkey", coin(30, "shell"), time)).unwrap();
    assert_eq!(
        allowance(&deps, "subkey"),
        Allowance {
            balance: NativeBalance(vec![coin(100, "atom"), coin(10, "shell")]),
            expires: Expiration::AtTime(12_345),
        }
    );
    call(&mut deps, "second", decrease("subkey", coin(100, "atom"), None)).unwrap();
    call(&mut deps, "second", decrease("subkey", coin(11, "shell"), None)).unwrap();
    assert_eq!(allowance(&deps, "subkey"), Allowance::default());
}

#[test]
fn a_decrease_takes_an_increase_back() {
    let mut deps = chain();
    let before = seen(&deps);
    for (spender, amount) in [
        ("subkey", coin(7, "atom")),
        ("subkey", coin(7, "mid")),
        ("subkey", coin(0, "mid")),
        ("other", coin(7, "atom")),
    ] {
        call(&mut deps, "admin", increase(spender, amount.clone(), None)).unwrap();
        call(&mut deps, "admin", decrease(spender, amount, None)).unwrap();
        assert_eq!(seen(&deps), before);
    }
}

#[test]
fn a_yes_is_kept() {
    for msg in [
        send(vec![coin(100, "atom")]),
        send(vec![coin(101, "atom")]),
        send(vec![coin(60, "atom"), coin(60, "atom")]),
        delegate(),
        undelegate(),
        CosmosMsg::Custom(Empty {}),
    ] {
        for sender in ["admin", "subkey", "other"] {
            let mut deps = chain();
            let can = query_can_execute(deps.as_ref(), sender.to_owned(), msg.clone())
                .unwrap()
                .can_execute;
            let res = call(&mut deps, sender, relay(vec![msg.clone()]));
            assert_eq!(can, res.is_ok());
        }
    }
    // A distribution message of a subkey is where the query says no and the call
    // goes through.
    let mut deps = chain();
    let can = query_can_execute(deps.as_ref(), "subkey".to_owned(), withdraw()).unwrap();
    assert!(!can.can_execute);
    call(&mut deps, "subkey", relay(vec![withdraw()])).unwrap();
}

#[test]
fn what_is_sent_comes_off_the_allowance() {
    let mut deps = chain();
    let msgs = vec![
        send(vec![coin(10, "atom"), coin(40, "shell")]),
        delegate(),
        send(vec![coin(20, "atom")]),
        withdraw(),
    ];
    call(&mut deps, "subkey", relay(msgs)).unwrap();
    assert_eq!(
        allowance(&deps, "subkey"),
        Allowance {
            balance: NativeBalance(vec![coin(70, "atom")]),
            expires: Expiration::AtHeight(50),
        }
    );
}

#[test]
fn what_is_covered_is_relayed() {
    let mut deps = chain();
    let msgs = vec![
        delegate(),
        send(vec![coin(40, "shell"), coin(1, "atom"), coin(2, "atom")]),
        withdraw(),
        send(vec![]),
        send(vec![coin(97, "atom")]),
    ];
    let res = call(&mut deps, "subkey", relay(msgs.clone())).unwrap();
    assert_eq!(res.messages, msgs.into_iter().map(SubMsg::new).collect::<Vec<_>>());
    assert_eq!(allowance(&deps, "subkey").balance, NativeBalance(vec![]));

    // A coin worth nothing is refused where none of its kind is left.
    let mut deps = chain();
    let err = call(&mut deps, "subkey", relay(vec![send(vec![coin(0, "unknown")])]));
    assert!(err.is_err());
}

#[test]
fn messages_may_come_in_parts() {
    let first = vec![send(vec![coin(60, "atom")]), delegate()];
    let refused = vec![send(vec![coin(1, "shell")]), undelegate(), send(vec![coin(99, "atom")])];
    for rest in [vec![send(vec![coin(40, "atom")])], refused] {
        let mut parts = chain();
        call(&mut parts, "subkey", relay(first.clone())).unwrap();
        let second = call(&mut parts, "subkey", relay(rest.clone()));
        let mut whole = chain();
        let both = call(&mut whole, "subkey", relay([first.clone(), rest].concat()));
        assert_eq!(both.is_ok(), second.is_ok());
        assert_eq!(both.err(), second.err());
        assert_eq!(seen(&whole), seen(&parts));
    }
}

#[test]
fn increases_in_any_order() {
    for (x, y) in [
        (("subkey", coin(1, "atom")), ("subkey", coin(2, "shell"))),
        (("subkey", coin(1, "new")), ("subkey", coin(2, "newer"))),
        (("subkey", coin(1, "new")), ("subkey", coin(2, "atom"))),
        (("subkey", coin(1, "new")), ("other", coin(2, "new"))),
        (("subkey", coin(1, "new")), ("subkey", coin(2, "new"))),
    ] {
        let (mut one, mut two) = (chain(), chain());
        call(&mut one, "admin", increase(x.0, x.1.clone(), None)).unwrap();
        call(&mut one, "second", increase(y.0, y.1.clone(), None)).unwrap();
        call(&mut two, "second", increase(y.0, y.1, None)).unwrap();
        call(&mut two, "admin", increase(x.0, x.1, None)).unwrap();
        assert_eq!(seen(&one), seen(&two));
    }
    for denom in ["atom", "new"] {
        let (mut twice, mut once) = (chain(), chain());
        call(&mut twice, "admin", increase("subkey", coin(3, denom), None)).unwrap();
        call(&mut twice, "admin", increase("subkey", coin(4, denom), None)).unwrap();
        call(&mut once, "admin", increase("subkey", coin(7, denom), None)).unwrap();
        assert_eq!(seen(&twice), seen(&once));
    }
}

#[test]
fn a_decrease_stops_at_nothing() {
    let mut deps = chain();
    call(&mut deps, "admin", decrease("subkey", coin(u128::MAX, "atom"), None)).unwrap();
    assert_eq!(allowance(&deps, "subkey").balance, NativeBalance(vec![coin(40, "shell")]));
    call(&mut deps, "admin", increase("subkey", coin(3, "atom"), None)).unwrap();
    assert_eq!(
        allowance(&deps, "subkey").balance,
        NativeBalance(vec![coin(3, "atom"), coin(40, "shell")])
    );
}

#[test]
fn instantiation_leaves_the_accounts() {
    let mut deps = chain();
    let before = seen(&deps);
    let msg = InstantiateMsg { admins: vec!["other".to_owned()], mutable: false };
    instantiate(&mut deps.as_mut(), mock_env(), from("other"), msg).unwrap();
    let after = seen(&deps);
    assert_eq!((&after.1, &after.2, &after.3), (&before.1, &before.2, &before.3));
}

#[test]
fn pages_join_to_the_whole() {
    let mut deps = chain();
    for name in ["zoe", "bob", "amy", "joe"] {
        call(&mut deps, "admin", increase(name, coin(1, "atom"), None)).unwrap();
        call(&mut deps, "admin", permit(name, SOME)).unwrap();
    }
    let (_, whole, whole_permissions, _) = seen(&deps);
    let names: Vec<&str> = whole.iter().map(|info| info.spender.as_str()).collect();
    assert_eq!(names, vec!["amy", "bob", "joe", "subkey", "zoe"]);

    for limit in [Some(1), Some(2), Some(3), Some(5), None] {
        let mut joined = vec![];
        let mut start = None;
        loop {
            let page = query_all_allowances(deps.as_ref(), start, limit).unwrap().allowances;
            if page.is_empty() {
                break;
            }
            start = page.last().map(|info| info.spender.clone());
            joined.extend(page);
        }
        assert_eq!(joined, whole);

        let mut joined = vec![];
        let mut start = None;
        loop {
            let page = query_all_permissions(deps.as_ref(), start, limit).unwrap().permissions;
            if page.is_empty() {
                break;
            }
            start = page.last().map(|info| info.spender.clone());
            joined.extend(page);
        }
        assert_eq!(joined, whole_permissions);
    }

    let first = query_all_permissions(deps.as_ref(), None, Some(3)).unwrap().permissions;
    let last = first[2].spender.clone();
    let rest = query_all_permissions(deps.as_ref(), Some(last), None).unwrap().permissions;
    assert_eq!([first, rest].concat(), whole_permissions);
}
