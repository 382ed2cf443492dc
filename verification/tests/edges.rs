//! Each error, each kind of query, and the corners of pages and amounts.

use cosmwasm_std::testing::{mock_dependencies, mock_env, MockApi, MockQuerier, MockStorage};
use cosmwasm_std::{OverflowError, OverflowOperation, OwnedDeps, StdError, Storage};

use cw1_subkeys::balance::NativeBalance;
use cw1_subkeys::contract::{
    calc_limit, can_execute, check_distribution_permissions, check_staking_permissions, execute,
    execute_decrease_allowance, execute_execute, execute_increase_allowance,
    execute_set_permissions, instantiate, lower_allowance, query, query_admin_list,
    query_all_allowances, query_all_permissions, query_allowance, query_can_execute,
    query_permissions, query_version, raise_allowance, read_allowance_entry,
    read_permissions_entry, spend_allowance, try_execute, DEFAULT_LIMIT, MAX_LIMIT,
};
use cw1_subkeys::error::ContractError;
use cw1_subkeys::json::{
    parse_allowance, parse_permissions, write_allowance, write_permissions,
};
use cw1_subkeys::msg::{
    AdminListResponse, AllAllowancesResponse, AllPermissionsResponse, AllowanceInfo,
    CanExecuteResponse, ExecuteMsg, InstantiateMsg, PermissionsInfo, QueryMsg, QueryResponse,
};
use cw1_subkeys::state::{Allowance, Expiration, Permissions};
use cw1_subkeys::text::{decimal_text, truth_text};
use cw1_subkeys::types::{
    attr, BankMsg, Coin, CosmosMsg, DistributionMsg, Empty, MessageInfo, ReplyOn, Response,
    StakingMsg, SubMsg, WasmMsg,
};

type MockDeps = OwnedDeps<MockStorage, MockApi, MockQuerier>;

const NEVER: Expiration = Expiration::Never {};

fn coin(amount: u128, denom: &str) -> Coin {
    Coin { denom: denom.to_owned(), amount }
}

fn from(sender: &str) -> MessageInfo {
    MessageInfo { sender: sender.to_owned(), funds: vec![] }
}

/// A chain with a contract whose only admin is `admin`.
fn chain() -> MockDeps {
    let mut deps = mock_dependencies(&[]);
    let msg = InstantiateMsg { admins: vec!["admin".to_owned()], mutable: true };
    instantiate(&mut deps.as_mut(), mock_env(), from("admin"), msg).unwrap();
    deps
}

fn call(
    deps: &mut MockDeps,
    sender: &str,
    msg: ExecuteMsg<Empty>,
) -> Result<Response<Empty>, ContractError> {
    execute(&mut deps.as_mut(), mock_env(), from(sender), msg)
}

fn increase(spender: &str, amount: Coin, expires: Option<Expiration>) -> ExecuteMsg<Empty> {
    ExecuteMsg::IncreaseAllowance { spender: spender.to_owned(), amount, expires }
}

fn decrease(spender: &str, amount: Coin, expires: Option<Expiration>) -> ExecuteMsg<Empty> {
    ExecuteMsg::DecreaseAllowance { spender: spender.to_owned(), amount, expires }
}

fn permit(spender: &str, permissions: Permissions) -> ExecuteMsg<Empty> {
    ExecuteMsg::SetPermissions { spender: spender.to_owned(), permissions }
}

fn relay(msgs: Vec<CosmosMsg<Empty>>) -> ExecuteMsg<Empty> {
    ExecuteMsg::Execute { msgs }
}

fn send(amount: Vec<Coin>) -> CosmosMsg<Empty> {
    CosmosMsg::Bank(BankMsg::Send { to_address: "somebody".to_owned(), amount })
}

fn delegate() -> StakingMsg {
    StakingMsg::Delegate { validator: "val".to_owned(), amount: coin(1, "stake") }
}

fn undelegate() -> StakingMsg {
    StakingMsg::Undelegate { validator: "val".to_owned(), amount: coin(1, "stake") }
}

fn redelegate() -> StakingMsg {
    StakingMsg::Redelegate {
        src_validator: "val".to_owned(),
        dst_validator: "lav".to_owned(),
        amount: coin(1, "stake"),
    }
}

fn withdraw() -> DistributionMsg {
    DistributionMsg::WithdrawDelegatorReward { validator: "val".to_owned() }
}

fn redirect() -> DistributionMsg {
    DistributionMsg::SetWithdrawAddress { address: "elsewhere".to_owned() }
}

fn balance(deps: &MockDeps, account: &str) -> Vec<Coin> {
    query_allowance(deps.as_ref(), account.to_owned()).unwrap().balance.0
}

fn flags(delegate: bool, redelegate: bool, undelegate: bool, withdraw: bool) -> Permissions {
    Permissions { delegate, redelegate, undelegate, withdraw }
}

#[test]
fn amounts_in_decimal() {
    assert_eq!(decimal_text(0), "0");
    assert_eq!(decimal_text(9), "9");
    assert_eq!(decimal_text(10), "10");
    assert_eq!(decimal_text(1234567890), "1234567890");
    assert_eq!(decimal_text(u128::MAX), "340282366920938463463374607431768211455");
}

#[test]
fn permissions_in_words() {
    assert_eq!(truth_text(true), "true");
    assert_eq!(truth_text(false), "false");
    assert_eq!(
        flags(true, false, true, false).to_string(),
        "staking: { delegate: true, redelegate: false, undelegate: true, withdraw: false }"
    );
    assert_eq!(
        Permissions::default().to_string(),
        "staking: { delegate: false, redelegate: false, undelegate: false, withdraw: false }"
    );
}

#[test]
fn messages_are_relayed_without_reply() {
    assert_eq!(
        SubMsg::new(send(vec![])),
        SubMsg { id: 0, msg: send(vec![]), gas_limit: None, reply_on: ReplyOn::Never }
    );
}

#[test]
fn limits_of_pages() {
    assert_eq!((DEFAULT_LIMIT, MAX_LIMIT), (10, 30));
    assert_eq!(calc_limit(None), 10);
    assert_eq!(calc_limit(Some(0)), 0);
    assert_eq!(calc_limit(Some(29)), 29);
    assert_eq!(calc_limit(Some(30)), 30);
    assert_eq!(calc_limit(Some(31)), 30);
    assert_eq!(calc_limit(Some(u32::MAX)), 30);
}

#[test]
fn staking_needs_the_matching_permission() {
    let all = flags(true, true, true, true);
    for msg in &[delegate(), undelegate(), redelegate()] {
        assert_eq!(check_staking_permissions(msg, all), Ok(()));
    }
    assert_eq!(
        check_staking_permissions(&delegate(), flags(false, true, true, true)),
        Err(ContractError::DelegatePerm {})
    );
    assert_eq!(
        check_staking_permissions(&redelegate(), flags(true, false, true, true)),
        Err(ContractError::ReDelegatePerm {})
    );
    assert_eq!(
        check_staking_permissions(&undelegate(), flags(true, true, false, true)),
        Err(ContractError::UnDelegatePerm {})
    );
}

#[test]
fn distribution_needs_the_withdraw_permission() {
    let only = flags(false, false, false, true);
    assert_eq!(check_distribution_permissions(&withdraw(), only), Ok(()));
    assert_eq!(check_distribution_permissions(&redirect(), only), Ok(()));
    let without = flags(true, true, true, false);
    assert_eq!(
        check_distribution_permissions(&withdraw(), without),
        Err(ContractError::WithdrawPerm {})
    );
    assert_eq!(
        check_distribution_permissions(&redirect(), without),
        Err(ContractError::WithdrawAddrPerm {})
    );
}

#[test]
fn subkeys_without_permissions_are_not_allowed() {
    let mut deps = chain();
    for msg in [CosmosMsg::Staking(delegate()), CosmosMsg::Distribution(withdraw())] {
        assert_eq!(
            call(&mut deps, "subkey", relay(vec![msg])),
            Err(ContractError::NotAllowed {})
        );
    }
    call(&mut deps, "admin", permit("subkey", flags(true, false, false, false))).unwrap();
    call(&mut deps, "subkey", relay(vec![CosmosMsg::Staking(delegate())])).unwrap();
    assert_eq!(
        call(&mut deps, "subkey", relay(vec![CosmosMsg::Distribution(redirect())])),
        Err(ContractError::WithdrawAddrPerm {})
    );
}

#[test]
fn subkeys_relay_no_other_messages() {
    let mut deps = chain();
    call(&mut deps, "admin", permit("subkey", flags(true, true, true, true))).unwrap();
    call(&mut deps, "admin", increase("subkey", coin(5, "coin"), None)).unwrap();
    let burn = CosmosMsg::Bank(BankMsg::Burn { amount: vec![coin(1, "coin")] });
    let clear =
        CosmosMsg::Wasm(WasmMsg::ClearAdmin { contract_addr: "somebody".to_owned() });
    for msg in [burn, clear, CosmosMsg::Custom(Empty {})] {
        assert_eq!(
            call(&mut deps, "subkey", relay(vec![msg.clone()])),
            Err(ContractError::MessageTypeRejected {})
        );
        let res = call(&mut deps, "admin", relay(vec![msg.clone()])).unwrap();
        assert_eq!(res.messages, vec![SubMsg::new(msg)]);
    }
}

#[test]
fn relaying_nothing_is_allowed_to_anyone() {
    let mut deps = chain();
    let res = call(&mut deps, "anyone", relay(vec![])).unwrap();
    assert_eq!(res.messages, vec![]);
    assert_eq!(
        res.attributes,
        vec![attr("action", "execute".to_owned()), attr("owner", "anyone".to_owned())]
    );
}

#[test]
fn own_account_cannot_be_set() {
    let mut deps = chain();
    let own = Err(ContractError::CannotSetOwnAccount {});
    assert_eq!(call(&mut deps, "admin", increase("admin", coin(1, "coin"), None)), own);
    assert_eq!(call(&mut deps, "admin", decrease("admin", coin(1, "coin"), None)), own);
    assert_eq!(call(&mut deps, "admin", permit("admin", Permissions::default())), own);
}

#[test]
fn outsiders_are_unauthorized() {
    let mut deps = chain();
    let refused = Err(ContractError::Unauthorized {});
    for msg in [
        increase("subkey", coin(1, "coin"), None),
        decrease("subkey", coin(1, "coin"), None),
        permit("subkey", Permissions::default()),
        ExecuteMsg::Freeze {},
        ExecuteMsg::UpdateAdmins { admins: vec![] },
    ] {
        assert_eq!(call(&mut deps, "outsider", msg), refused);
    }
}

#[test]
fn addresses_that_the_chain_refuses() {
    let mut deps = chain();
    // The mocked chain takes no address of one character.
    for msg in [
        increase("x", coin(1, "coin"), None),
        decrease("x", coin(1, "coin"), None),
        permit("x", Permissions::default()),
        ExecuteMsg::UpdateAdmins { admins: vec!["admin".to_owned(), "x".to_owned()] },
    ] {
        let err = call(&mut deps, "admin", msg).unwrap_err();
        assert!(matches!(err, ContractError::Std(StdError::GenericErr { .. })));
    }
    // A bad address has no allowance.
    assert_eq!(query_allowance(deps.as_ref(), "x".to_owned()), Ok(Allowance::default()));
    assert!(query_permissions(deps.as_ref(), "x".to_owned()).is_err());
    assert!(query_can_execute(deps.as_ref(), "x".to_owned(), send(vec![])).is_err());
    assert_eq!(
        query_admin_list(deps.as_ref()).unwrap(),
        AdminListResponse { admins: vec!["admin".to_owned()], mutable: true }
    );

    let mut fresh = mock_dependencies(&[]);
    let msg = InstantiateMsg { admins: vec!["x".to_owned()], mutable: true };
    let err = instantiate(&mut fresh.as_mut(), mock_env(), from("admin"), msg).unwrap_err();
    assert!(matches!(err, StdError::GenericErr { .. }));
    let version = cw2::get_contract_version(&fresh.storage).unwrap();
    assert_eq!(version.contract, "crates.io:cw1-whitelist");
    assert_eq!(version.version, "0.7.0");
}

#[test]
fn nothing_works_before_instantiation() {
    let mut deps = mock_dependencies(&[]);
    let missing = |err: ContractError| matches!(err, ContractError::Std(StdError::NotFound { .. }));
    assert!(missing(call(&mut deps, "admin", relay(vec![])).unwrap_err()));
    assert!(missing(call(&mut deps, "admin", ExecuteMsg::Freeze {}).unwrap_err()));
    assert!(missing(
        call(&mut deps, "admin", ExecuteMsg::UpdateAdmins { admins: vec![] }).unwrap_err()
    ));
    assert!(missing(call(&mut deps, "admin", increase("subkey", coin(1, "c"), None)).unwrap_err()));
    assert!(query_admin_list(deps.as_ref()).is_err());
    assert!(query_can_execute(deps.as_ref(), "admin".to_owned(), send(vec![])).is_err());
}

#[test]
fn instantiation_answers_nothing() {
    let mut deps = mock_dependencies(&[]);
    let msg = InstantiateMsg { admins: vec!["admin".to_owned()], mutable: false };
    let res = instantiate(&mut deps.as_mut(), mock_env(), from("admin"), msg).unwrap();
    assert_eq!(res, Response { messages: vec![], attributes: vec![] });
    assert!(!query_admin_list(deps.as_ref()).unwrap().mutable);
}

#[test]
fn attributes_of_calls() {
    let mut deps = chain();
    let res = call(&mut deps, "admin", increase("subkey", coin(120, "coin"), None)).unwrap();
    assert_eq!(res.messages, vec![]);
    assert_eq!(
        res.attributes,
        vec![
            attr("action", "increase_allowance".to_owned()),
            attr("owner", "admin".to_owned()),
            attr("spender", "subkey".to_owned()),
            attr("denomination", "coin".to_owned()),
            attr("amount", "120".to_owned()),
        ]
    );
    let res = call(&mut deps, "admin", decrease("subkey", coin(20, "coin"), None)).unwrap();
    assert_eq!(
        res.attributes,
        vec![
            attr("action", "decrease_allowance".to_owned()),
            attr("owner", "admin".to_owned()),
            attr("spender", "subkey".to_owned()),
            attr("denomination", "coin".to_owned()),
            attr("amount", "20".to_owned()),
        ]
    );
    let res = call(&mut deps, "admin", permit("subkey", flags(true, false, false, true))).unwrap();
    assert_eq!(
        res.attributes,
        vec![
            attr("action", "set_permissions".to_owned()),
            attr("owner", "admin".to_owned()),
            attr("spender", "subkey".to_owned()),
            attr(
                "permissions",
                "staking: { delegate: true, redelegate: false, undelegate: false, withdraw: true }"
                    .to_owned()
            ),
        ]
    );
    let admins = vec!["admin".to_owned(), "other".to_owned()];
    let res = call(&mut deps, "admin", ExecuteMsg::UpdateAdmins { admins }).unwrap();
    assert_eq!(res.attributes, vec![attr("action", "update_admins".to_owned())]);
    let res = call(&mut deps, "other", ExecuteMsg::Freeze {}).unwrap();
    assert_eq!(res.attributes, vec![attr("action", "freeze".to_owned())]);
}

#[test]
fn calls_by_name() {
    let mut deps = chain();
    let subkey = "subkey".to_owned();
    let res: Result<Response<Empty>, ContractError> = execute_increase_allowance(
        &mut deps.as_mut(),
        mock_env(),
        from("admin"),
        subkey.clone(),
        coin(9, "coin"),
        Some(Expiration::AtTime(1_600_000_000_000_000_001)),
    );
    res.unwrap();
    let res: Result<Response<Empty>, ContractError> = execute_decrease_allowance(
        &mut deps.as_mut(),
        mock_env(),
        from("admin"),
        subkey.clone(),
        coin(2, "coin"),
        None,
    );
    res.unwrap();
    let res: Result<Response<Empty>, ContractError> = execute_set_permissions(
        &mut deps.as_mut(),
        mock_env(),
        from("admin"),
        subkey.clone(),
        flags(false, true, false, false),
    );
    res.unwrap();
    let msgs = vec![send(vec![coin(3, "coin")])];
    execute_execute(&mut deps.as_mut(), mock_env(), from("subkey"), msgs).unwrap();
    assert_eq!(
        query_allowance(deps.as_ref(), subkey.clone()).unwrap(),
        Allowance {
            balance: NativeBalance(vec![coin(4, "coin")]),
            expires: Expiration::AtTime(1_600_000_000_000_000_001),
        }
    );
    assert_eq!(
        query_permissions(deps.as_ref(), subkey).unwrap(),
        flags(false, true, false, false)
    );
}

#[test]
fn a_sum_that_is_no_amount() {
    let mut deps = chain();
    call(&mut deps, "admin", increase("subkey", coin(u128::MAX, "coin"), None)).unwrap();
    let more = increase("subkey", coin(1, "coin"), Some(Expiration::AtHeight(7)));
    let res = try_execute(&mut deps.as_mut(), mock_env(), from("admin"), more.clone());
    assert_eq!(res, None);
    assert_eq!(balance(&deps, "subkey"), vec![coin(u128::MAX, "coin")]);

    // Where it is refused anyway, the error is given.
    let res = try_execute(&mut deps.as_mut(), mock_env(), from("outsider"), more);
    assert_eq!(res, Some(Err(ContractError::Unauthorized {})));
    let nothing = increase("subkey", coin(0, "coin"), None);
    let res = try_execute(&mut deps.as_mut(), mock_env(), from("admin"), nothing);
    assert!(matches!(res, Some(Ok(_))));
    let other = increase("subkey", coin(1, "other"), None);
    let res = try_execute(&mut deps.as_mut(), mock_env(), from("admin"), other);
    assert!(matches!(res, Some(Ok(_))));
    assert_eq!(balance(&deps, "subkey"), vec![coin(u128::MAX, "coin"), coin(1, "other")]);
}

#[test]
fn sums_near_the_largest_amount() {
    let held = NativeBalance(vec![coin(5, "a"), coin(u128::MAX - 1, "b")]);
    assert!(held.can_add(&coin(1, "b")));
    assert!(!held.can_add(&coin(2, "b")));
    assert!(held.can_add(&coin(u128::MAX, "c")));
    assert!(!held.is_empty());
    assert!(NativeBalance(vec![coin(0, "a")]).is_empty());
    assert!(NativeBalance(vec![]).is_empty());
}

#[test]
fn new_denominations_keep_the_order() {
    let mut deps = chain();
    for denom in ["m", "a", "z", "ab", "B"] {
        call(&mut deps, "admin", increase("subkey", coin(1, denom), None)).unwrap();
    }
    call(&mut deps, "admin", increase("subkey", coin(6, "m"), None)).unwrap();
    assert_eq!(
        balance(&deps, "subkey"),
        vec![coin(1, "B"), coin(1, "a"), coin(1, "ab"), coin(7, "m"), coin(1, "z")]
    );
}

#[test]
fn allowances_as_plain_values() {
    let allowance = |coins: Vec<Coin>| Allowance { balance: NativeBalance(coins), expires: NEVER };
    let held = allowance(vec![coin(3, "a"), coin(4, "b")]);

    assert_eq!(
        spend_allowance(Some(held.clone()), &vec![coin(4, "b"), coin(1, "a")]),
        Ok(allowance(vec![coin(2, "a")]))
    );
    assert_eq!(spend_allowance(None, &vec![]), Err(ContractError::NoAllowance {}));
    assert!(matches!(
        spend_allowance(Some(held.clone()), &vec![coin(2, "a"), coin(2, "a")]),
        Err(ContractError::Std(StdError::Overflow { .. }))
    ));

    assert_eq!(
        raise_allowance(None, &coin(2, "c"), Some(Expiration::AtHeight(5))),
        Allowance {
            balance: NativeBalance(vec![coin(2, "c")]),
            expires: Expiration::AtHeight(5),
        }
    );
    assert_eq!(
        raise_allowance(Some(held.clone()), &coin(2, "a"), None),
        allowance(vec![coin(5, "a"), coin(4, "b")])
    );

    assert_eq!(lower_allowance(None, &coin(1, "a"), None), Err(ContractError::NoAllowance {}));
    assert!(matches!(
        lower_allowance(Some(held.clone()), &coin(1, "c"), None),
        Err(ContractError::Std(StdError::Overflow { .. }))
    ));
    assert_eq!(
        lower_allowance(Some(held), &coin(9, "a"), Some(Expiration::AtHeight(8))),
        Ok(Allowance {
            balance: NativeBalance(vec![coin(4, "b")]),
            expires: Expiration::AtHeight(8),
        })
    );
}

fn overflow(held: u128, asked: u128) -> StdError {
    StdError::overflow(OverflowError::new(OverflowOperation::Sub, held, asked))
}

#[test]
fn errors_name_what_was_held_and_asked() {
    let held = Some(Allowance {
        balance: NativeBalance(vec![coin(3, "a"), coin(4, "b")]),
        expires: NEVER,
    });
    let spend = |coins: Vec<Coin>| spend_allowance(held.clone(), &coins).unwrap_err();
    assert_eq!(spend(vec![coin(5, "b")]), ContractError::Std(overflow(4, 5)));
    assert_eq!(spend(vec![coin(1, "c")]), ContractError::Std(overflow(0, 1)));
    assert_eq!(spend(vec![coin(0, "c")]), ContractError::Std(overflow(0, 0)));
    // The first coin that is not covered decides.
    assert_eq!(
        spend(vec![coin(2, "a"), coin(2, "a"), coin(9, "b")]),
        ContractError::Std(overflow(1, 2))
    );
    assert_eq!(
        lower_allowance(held, &coin(7, "c"), None).unwrap_err(),
        ContractError::Std(overflow(0, 7))
    );
}

#[test]
fn an_allowance_that_was_spent_stays() {
    let mut deps = chain();
    let height = Some(Expiration::AtHeight(77));
    call(&mut deps, "admin", increase("subkey", coin(5, "coin"), height)).unwrap();
    call(&mut deps, "subkey", relay(vec![send(vec![coin(5, "coin")])])).unwrap();
    assert_eq!(
        query_allowance(deps.as_ref(), "subkey".to_owned()).unwrap(),
        Allowance { balance: NativeBalance(vec![]), expires: Expiration::AtHeight(77) }
    );
    // There is an entry still, and nothing left of the coin.
    let err = call(&mut deps, "subkey", relay(vec![send(vec![coin(1, "coin")])])).unwrap_err();
    assert!(matches!(err, ContractError::Std(StdError::Overflow { .. })));
    call(&mut deps, "subkey", relay(vec![send(vec![])])).unwrap();
}

#[test]
fn messages_are_charged_in_turn() {
    let mut deps = chain();
    call(&mut deps, "admin", increase("subkey", coin(10, "coin"), None)).unwrap();
    let msgs = vec![send(vec![coin(4, "coin")]), send(vec![coin(6, "coin")])];
    let res = call(&mut deps, "subkey", relay(msgs.clone())).unwrap();
    assert_eq!(res.messages, msgs.into_iter().map(SubMsg::new).collect::<Vec<_>>());
    assert_eq!(balance(&deps, "subkey"), vec![]);
}

#[test]
fn a_refused_message_ends_the_charging() {
    let mut deps = chain();
    call(&mut deps, "admin", increase("subkey", coin(10, "coin"), None)).unwrap();
    let msgs = vec![
        send(vec![coin(4, "coin")]),
        CosmosMsg::Custom(Empty {}),
        send(vec![coin(1, "coin")]),
    ];
    assert_eq!(
        call(&mut deps, "subkey", relay(msgs)),
        Err(ContractError::MessageTypeRejected {})
    );
    assert_eq!(balance(&deps, "subkey"), vec![coin(6, "coin")]);
}

#[test]
fn pages_of_many_accounts() {
    let mut deps = chain();
    let names: Vec<String> = (0..35).map(|i| format!("subkey{:02}", i)).collect();
    for (i, name) in names.iter().enumerate().rev() {
        call(&mut deps, "admin", increase(name, coin(i as u128 + 1, "coin"), None)).unwrap();
        call(&mut deps, "admin", permit(name, flags(i % 2 == 0, false, false, true))).unwrap();
    }
    let allowances = |start: Option<&str>, limit: Option<u32>| -> Vec<AllowanceInfo> {
        query_all_allowances(deps.as_ref(), start.map(|s| s.to_owned()), limit)
            .unwrap()
            .allowances
    };
    let permissions = |start: Option<&str>, limit: Option<u32>| -> Vec<PermissionsInfo> {
        query_all_permissions(deps.as_ref(), start.map(|s| s.to_owned()), limit)
            .unwrap()
            .permissions
    };

    assert_eq!(allowances(None, None).len(), 10);
    assert_eq!(allowances(None, Some(0)).len(), 0);
    let first = allowances(None, Some(100));
    assert_eq!(first.len(), 30);
    let second = allowances(Some("subkey29"), Some(100));
    assert_eq!(second.len(), 5);
    let all = [first, second].concat();
    for (i, info) in all.iter().enumerate() {
        assert_eq!(
            *info,
            AllowanceInfo {
                spender: names[i].clone(),
                balance: NativeBalance(vec![coin(i as u128 + 1, "coin")]),
                expires: NEVER,
            }
        );
    }
    // A page may start after a name that is no account.
    assert_eq!(allowances(Some("subkey10x"), Some(1))[0].spender, "subkey11");
    assert_eq!(allowances(Some("subkey34"), None), vec![]);
    assert_eq!(allowances(Some("a"), Some(1))[0].spender, "subkey00");

    assert_eq!(permissions(None, None).len(), 10);
    assert_eq!(permissions(None, Some(31)).len(), 30);
    let last = permissions(Some("subkey33"), None);
    assert_eq!(
        last,
        vec![PermissionsInfo {
            spender: "subkey34".to_owned(),
            permissions: flags(true, false, false, true),
        }]
    );
}

/// The key under which a map of the contract keeps an entry.
fn raw_key(namespace: &str, key: &[u8]) -> Vec<u8> {
    let mut raw = vec![0, namespace.len() as u8];
    raw.extend_from_slice(namespace.as_bytes());
    raw.extend_from_slice(key);
    raw
}

#[test]
fn entries_that_do_not_parse() {
    let mut deps = chain();
    call(&mut deps, "admin", increase("alpha", coin(1, "coin"), None)).unwrap();
    call(&mut deps, "admin", permit("alpha", Permissions::default())).unwrap();
    deps.storage.set(&raw_key("allowances", b"subkey"), b"no json");
    deps.storage.set(&raw_key("permissions", b"subkey"), b"no json");
    let parse = |err: &StdError| matches!(err, StdError::ParseErr { .. });

    assert!(parse(&query_allowance(deps.as_ref(), "subkey".to_owned()).unwrap_err()));
    assert!(parse(&query_permissions(deps.as_ref(), "subkey".to_owned()).unwrap_err()));
    assert!(parse(&query_all_allowances(deps.as_ref(), None, None).unwrap_err()));
    assert!(parse(&query_all_permissions(deps.as_ref(), None, None).unwrap_err()));
    // The page ends before the entry.
    assert_eq!(query_all_allowances(deps.as_ref(), None, Some(1)).unwrap().allowances.len(), 1);
    assert_eq!(query_all_permissions(deps.as_ref(), None, Some(1)).unwrap().permissions.len(), 1);

    let subkey = "subkey".to_owned();
    assert!(parse(&query_can_execute(deps.as_ref(), subkey.clone(), send(vec![])).unwrap_err()));
    let staking = CosmosMsg::Staking(delegate());
    assert!(parse(&query_can_execute(deps.as_ref(), subkey, staking.clone()).unwrap_err()));
    for (sender, msg) in [
        ("subkey", relay(vec![send(vec![])])),
        ("subkey", relay(vec![staking])),
        ("subkey", relay(vec![CosmosMsg::Distribution(withdraw())])),
        ("admin", increase("subkey", coin(1, "coin"), None)),
        ("admin", decrease("subkey", coin(1, "coin"), None)),
    ] {
        match call(&mut deps, sender, msg).unwrap_err() {
            ContractError::Std(e) => assert!(parse(&e)),
            e => panic!("{:?}", e),
        }
    }
}

#[test]
fn keys_that_are_no_text() {
    let mut deps = chain();
    call(&mut deps, "admin", increase("alpha", coin(1, "coin"), None)).unwrap();
    call(&mut deps, "admin", permit("alpha", Permissions::default())).unwrap();
    for namespace in ["allowances", "permissions"] {
        let entry = deps.storage.get(&raw_key(namespace, b"alpha")).unwrap();
        deps.storage.set(&raw_key(namespace, &[0xff, 0xfe]), &entry);
    }
    let invalid = |err: StdError| matches!(err, StdError::InvalidUtf8 { .. });
    assert!(invalid(query_all_allowances(deps.as_ref(), None, None).unwrap_err()));
    assert!(invalid(query_all_permissions(deps.as_ref(), None, None).unwrap_err()));
    assert_eq!(query_all_allowances(deps.as_ref(), None, Some(1)).unwrap().allowances.len(), 1);
}

#[test]
fn entries_as_stored() {
    let mut deps = chain();
    let height = Some(Expiration::AtHeight(3));
    call(&mut deps, "admin", increase("alpha", coin(12, "coin"), height)).unwrap();
    call(&mut deps, "admin", permit("alpha", flags(true, false, true, false))).unwrap();
    assert_eq!(
        deps.storage.get(&raw_key("allowances", b"alpha")).unwrap(),
        br#"{"balance":[{"denom":"coin","amount":"12"}],"expires":{"at_height":3}}"#.to_vec()
    );
    assert_eq!(
        deps.storage.get(&raw_key("permissions", b"alpha")).unwrap(),
        br#"{"delegate":true,"redelegate":false,"undelegate":true,"withdraw":false}"#.to_vec()
    );
    call(&mut deps, "admin", decrease("alpha", coin(12, "coin"), None)).unwrap();
    assert_eq!(deps.storage.get(&raw_key("allowances", b"alpha")), None);
}

#[test]
fn entries_from_their_bytes() {
    let allowance = |coins: Vec<Coin>, expires: Expiration| Allowance {
        balance: NativeBalance(coins),
        expires,
    };
    for (value, bytes) in [
        (allowance(vec![], NEVER), &br#"{"balance":[],"expires":{"never":{}}}"#[..]),
        (
            allowance(vec![coin(1, "a"), coin(2, "b")], Expiration::AtTime(77)),
            &br#"{"balance":[{"denom":"a","amount":"1"},{"denom":"b","amount":"2"}],"expires":{"at_time":"77"}}"#[..],
        ),
        (
            allowance(vec![coin(1, ",\"expires\":")], Expiration::AtHeight(0)),
            &br#"{"balance":[{"denom":",\"expires\":","amount":"1"}],"expires":{"at_height":0}}"#[..],
        ),
    ] {
        assert_eq!(write_allowance(&value).unwrap(), bytes.to_vec());
        assert_eq!(parse_allowance(&bytes.to_vec()).unwrap(), value);
    }
    for n in 0..16 {
        let value = flags(n & 1 != 0, n & 2 != 0, n & 4 != 0, n & 8 != 0);
        assert_eq!(parse_permissions(&write_permissions(&value)), Ok(value));
    }
    for bytes in [
        &b""[..],
        b",",
        b"{}",
        br#"{"balance":[],"expires":{"never":{}}"#,
        br#"{"balance":[],"expires":"#,
        br#"{"balance":"expires":{"never":{}}}"#,
        br#"{"balance":[}],"expires":{"never":{}}}"#,
        br#"{"balance":[],"expires":{"sometime":{}}}"#,
        br#"{"delegate":true,"redelegate":false,"undelegate":true,"withdraw":1}"#,
    ] {
        let err = parse_allowance(&bytes.to_vec()).unwrap_err();
        assert!(matches!(err, StdError::ParseErr { .. }));
        let err = parse_permissions(&bytes.to_vec()).unwrap_err();
        assert!(matches!(err, StdError::ParseErr { .. }));
    }
    assert_eq!(
        parse_permissions(&b"{}".to_vec()).unwrap_err(),
        StdError::parse_err("cw1_subkeys::state::Permissions", "not an object of four flags")
    );
    assert_eq!(
        parse_allowance(&b"{}".to_vec()).unwrap_err(),
        StdError::parse_err(
            "cw1_subkeys::state::Allowance",
            "not an object of a balance and an expiration"
        )
    );
    let entry = read_permissions_entry(b"joe".to_vec(), &write_permissions(&Permissions::default()));
    assert_eq!(
        entry.unwrap(),
        PermissionsInfo { spender: "joe".to_owned(), permissions: Permissions::default() }
    );
    let json = write_allowance(&Allowance::default()).unwrap();
    assert_eq!(read_allowance_entry(b"joe".to_vec(), &json).unwrap().spender, "joe");
    let err = read_allowance_entry(vec![0xff], &json).unwrap_err();
    assert!(matches!(err, StdError::InvalidUtf8 { .. }));
}

#[test]
fn the_version_is_read() {
    let deps = chain();
    assert_eq!(
        query_version(deps.as_ref()).unwrap(),
        ("crates.io:cw1-subkeys".to_owned(), "0.7.0".to_owned())
    );
    assert!(query_version(mock_dependencies(&[]).as_ref()).is_err());
}

#[test]
fn text_of_any_kind_reads_back() {
    let mut deps = chain();
    let odd = "a\"b\\c/\u{8}\u{c}\n\r\t\u{1}\u{7f}\u{e9}\u{1f980}";
    call(&mut deps, "admin", increase("subkey", coin(u128::MAX, odd), None)).unwrap();
    assert_eq!(balance(&deps, "subkey"), vec![coin(u128::MAX, odd)]);
    let late = Some(Expiration::AtHeight(u64::MAX));
    call(&mut deps, "admin", increase("subkey", coin(1, "x"), late)).unwrap();
    let found = query_allowance(deps.as_ref(), "subkey".to_owned()).unwrap();
    assert_eq!(found.expires, Expiration::AtHeight(u64::MAX));
    let late = Some(Expiration::AtTime(u64::MAX));
    call(&mut deps, "admin", increase("subkey", coin(1, "x"), late)).unwrap();
    let found = query_allowance(deps.as_ref(), "subkey".to_owned()).unwrap();
    assert_eq!(found.expires, Expiration::AtTime(u64::MAX));
}

#[test]
fn queries_of_each_kind() {
    let mut deps = chain();
    call(&mut deps, "admin", increase("subkey", coin(3, "coin"), None)).unwrap();
    call(&mut deps, "admin", permit("subkey", flags(true, false, false, false))).unwrap();
    let subkey = "subkey".to_owned();
    let ask = |msg: QueryMsg<Empty>| query(deps.as_ref(), mock_env(), msg);

    assert_eq!(
        ask(QueryMsg::AdminList {}).unwrap(),
        QueryResponse::AdminList(AdminListResponse {
            admins: vec!["admin".to_owned()],
            mutable: true,
        })
    );
    assert_eq!(
        ask(QueryMsg::Allowance { spender: subkey.clone() }).unwrap(),
        QueryResponse::Allowance(Allowance {
            balance: NativeBalance(vec![coin(3, "coin")]),
            expires: NEVER,
        })
    );
    assert_eq!(
        ask(QueryMsg::Permissions { spender: subkey.clone() }).unwrap(),
        QueryResponse::Permissions(flags(true, false, false, false))
    );
    assert_eq!(
        ask(QueryMsg::CanExecute {
            sender: subkey.clone(),
            msg: send(vec![coin(3, "coin")]),
        })
        .unwrap(),
        QueryResponse::CanExecute(CanExecuteResponse { can_execute: true })
    );
    assert_eq!(
        ask(QueryMsg::AllAllowances { start_after: None, limit: None }).unwrap(),
        QueryResponse::AllAllowances(AllAllowancesResponse {
            allowances: vec![AllowanceInfo {
                spender: subkey.clone(),
                balance: NativeBalance(vec![coin(3, "coin")]),
                expires: NEVER,
            }],
        })
    );
    assert_eq!(
        ask(QueryMsg::AllPermissions { start_after: None, limit: None }).unwrap(),
        QueryResponse::AllPermissions(AllPermissionsResponse {
            permissions: vec![PermissionsInfo {
                spender: subkey,
                permissions: flags(true, false, false, false),
            }],
        })
    );
    assert_eq!(
        ask(QueryMsg::Allowance { spender: "x".to_owned() }).unwrap(),
        QueryResponse::Allowance(Allowance::default())
    );
    assert!(ask(QueryMsg::Permissions { spender: "x".to_owned() }).is_err());
}

#[test]
fn can_execute_of_other_messages() {
    let mut deps = chain();
    call(&mut deps, "admin", permit("subkey", flags(true, true, true, true))).unwrap();
    let can = |sender: &str, msg: CosmosMsg<Empty>| {
        query_can_execute(deps.as_ref(), sender.to_owned(), msg).unwrap().can_execute
    };
    // The query says no to distribution messages of subkeys.
    assert!(!can("subkey", CosmosMsg::Distribution(withdraw())));
    assert!(!can("subkey", CosmosMsg::Custom(Empty {})));
    assert!(!can("subkey", send(vec![])));
    assert!(can("subkey", CosmosMsg::Staking(undelegate())));
    assert!(can("admin", CosmosMsg::Custom(Empty {})));
    let yes = can_execute(deps.as_ref(), "subkey".to_owned(), CosmosMsg::Staking(redelegate()));
    assert_eq!(yes, Ok(true));
    let no = can_execute(deps.as_ref(), "outsider".to_owned(), CosmosMsg::Staking(delegate()));
    assert_eq!(no, Ok(false));
}
