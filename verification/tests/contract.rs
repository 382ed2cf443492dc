//! The contract on a mocked chain.

use cosmwasm_std::testing::{
    mock_dependencies, mock_env, MockApi, MockQuerier, MockStorage,
};
use cosmwasm_std::{OwnedDeps, StdError};
use cw2::{get_contract_version, ContractVersion};

use cw1_subkeys::balance::NativeBalance;
use cw1_subkeys::contract::{
    execute, instantiate, query_admin_list, query_all_allowances, query_all_permissions,
    query_allowance, query_can_execute, query_permissions, CONTRACT_NAME, CONTRACT_VERSION,
};
use cw1_subkeys::error::ContractError;
use cw1_subkeys::msg::{
    AdminListResponse, AllAllowancesResponse, AllowanceInfo, ExecuteMsg, InstantiateMsg,
    PermissionsInfo,
};
use cw1_subkeys::state::{save_permissions, Allowance, Expiration, Permissions};
use cw1_subkeys::types::{
    attr, BankMsg, Coin, CosmosMsg, DistributionMsg, Empty, MessageInfo, StakingMsg, SubMsg,
};

const OWNER: &str = "owner";

const ADMIN1: &str = "admin1";
const ADMIN2: &str = "admin2";

const SPENDER1: &str = "spender1";
const SPENDER2: &str = "spender2";
const SPENDER3: &str = "spender3";

const TOKEN: &str = "token";
const TOKEN1: &str = "token1";
const TOKEN2: &str = "token2";

const ALL_PERMS: Permissions = Permissions {
    delegate: true,
    redelegate: true,
    undelegate: true,
    withdraw: true,
};
const NO_PERMS: Permissions = Permissions {
    delegate: false,
    redelegate: false,
    undelegate: false,
    withdraw: false,
};

type MockDeps = OwnedDeps<MockStorage, MockApi, MockQuerier>;

fn coin(amount: u128, denom: &str) -> Coin {
    Coin { denom: denom.to_owned(), amount }
}

fn coins(amount: u128, denom: &str) -> Vec<Coin> {
    vec![coin(amount, denom)]
}

fn mock_info(sender: &str) -> MessageInfo {
    MessageInfo { sender: sender.to_owned(), funds: vec![] }
}

/// What a test case starts from.
#[derive(Default)]
struct SuiteConfig {
    spenders: Vec<(&'static str, Spender)>,
    admins: Vec<&'static str>,
}

#[derive(Default)]
struct Spender {
    allowances: Vec<Coin>,
    allowances_expire: Option<Expiration>,
    permissions: Option<Permissions>,
}

impl SuiteConfig {
    fn new() -> Self {
        Self::default()
    }

    fn init(self) -> Suite {
        Suite::init_with_config(self)
    }

    fn spender(&mut self, name: &'static str) -> &mut Spender {
        let found = self.spenders.iter().position(|(n, _)| *n == name);
        let at = match found {
            Some(at) => at,
            None => {
                self.spenders.push((name, Spender::default()));
                self.spenders.len() - 1
            }
        };
        &mut self.spenders[at].1
    }

    fn with_allowance(mut self, spender: &'static str, allowance: Coin) -> Self {
        self.spender(spender).allowances.push(allowance);
        self
    }

    fn expire_allowances(mut self, spender: &'static str, expires: Expiration) -> Self {
        let item = self.spender(spender);
        assert!(item.allowances_expire.is_none());
        item.allowances_expire = Some(expires);
        self
    }

    fn with_permissions(mut self, spender: &'static str, permissions: Permissions) -> Self {
        let item = self.spender(spender);
        assert!(item.permissions.is_none());
        item.permissions = Some(permissions);
        self
    }

    fn with_admin(mut self, admin: &'static str) -> Self {
        self.admins.push(admin);
        self
    }
}

/// A contract that was set up, and its owner.
struct Suite {
    deps: MockDeps,
    owner: MessageInfo,
}

impl Suite {
    fn init() -> Self {
        Self::init_with_config(SuiteConfig::default())
    }

    fn init_with_config(config: SuiteConfig) -> Self {
        let mut deps = mock_dependencies(&[]);
        let admins = std::iter::once(OWNER)
            .chain(config.admins)
            .map(ToOwned::to_owned)
            .collect();

        let instantiate_msg = InstantiateMsg { admins, mutable: true };
        let owner = mock_info(OWNER);

        instantiate(&mut deps.as_mut(), mock_env(), owner.clone(), instantiate_msg).unwrap();

        for (name, spender) in config.spenders {
            let Spender { allowances, allowances_expire: expires, permissions } = spender;

            for amount in allowances {
                let msg = ExecuteMsg::IncreaseAllowance {
                    spender: name.to_owned(),
                    amount,
                    expires,
                };
                execute(&mut deps.as_mut(), mock_env(), owner.clone(), msg).unwrap();
            }

            if let Some(permissions) = permissions {
                let msg = ExecuteMsg::SetPermissions { spender: name.to_owned(), permissions };
                execute(&mut deps.as_mut(), mock_env(), owner.clone(), msg).unwrap();
            }
        }

        Self { deps, owner }
    }
}

/// Sets up a contract with admins and with subkeys that have allowances.
fn setup_test_case(
    deps: &mut MockDeps,
    info: &MessageInfo,
    admins: &[&str],
    spenders: &[&str],
    allowances: &[Coin],
    expirations: &[Expiration],
) {
    let instantiate_msg = InstantiateMsg {
        admins: admins.iter().map(|x| x.to_string()).collect(),
        mutable: true,
    };
    instantiate(&mut deps.as_mut(), mock_env(), info.clone(), instantiate_msg).unwrap();

    for (spender, expiration) in spenders.iter().zip(expirations) {
        for amount in allowances {
            let msg = ExecuteMsg::IncreaseAllowance {
                spender: spender.to_string(),
                amount: amount.clone(),
                expires: Some(*expiration),
            };
            execute(&mut deps.as_mut(), mock_env(), info.clone(), msg).unwrap();
        }
    }
}

#[test]
fn get_contract_version_works() {
    let Suite { deps, .. } = Suite::init();

    assert_eq!(
        ContractVersion {
            contract: CONTRACT_NAME.to_string(),
            version: CONTRACT_VERSION.to_string(),
        },
        get_contract_version(&deps.storage).unwrap()
    )
}

#[test]
fn query() {
    let Suite { deps, .. } = SuiteConfig::new()
        .with_allowance(SPENDER1, coin(1, TOKEN))
        .with_allowance(SPENDER2, coin(2, TOKEN))
        .init();

    // Check allowances work for accounts with balances
    let allowance = query_allowance(deps.as_ref(), SPENDER1.to_owned()).unwrap();
    assert_eq!(
        allowance,
        Allowance {
            balance: NativeBalance(vec![coin(1, TOKEN)]),
            expires: Expiration::Never {},
        }
    );
    let allowance = query_allowance(deps.as_ref(), SPENDER2.to_owned()).unwrap();
    assert_eq!(
        allowance,
        Allowance {
            balance: NativeBalance(vec![coin(2, TOKEN)]),
            expires: Expiration::Never {},
        }
    );

    // Check allowances work for accounts with no balance
    let allowance = query_allowance(deps.as_ref(), SPENDER3.to_string()).unwrap();
    assert_eq!(allowance, Allowance::default());
}

#[test]
fn query_all() {
    let s1_allow = coin(1234, TOKEN);
    let s2_allow = coin(2345, TOKEN);
    let s3_allow = coin(3456, TOKEN);

    let s2_expire = Expiration::Never {};
    let s3_expire = Expiration::AtHeight(12345);

    let Suite { deps, .. } = SuiteConfig::new()
        .with_allowance(SPENDER1, s1_allow.clone())
        .with_allowance(SPENDER2, s2_allow.clone())
        .expire_allowances(SPENDER2, Expiration::Never {})
        .with_allowance(SPENDER3, s3_allow.clone())
        .expire_allowances(SPENDER3, Expiration::AtHeight(12345))
        .init();

    let batch1 = query_all_allowances(deps.as_ref(), None, Some(2))
        .unwrap()
        .allowances;
    assert_eq!(2, batch1.len());

    // now continue from after the last one
    let batch2 = query_all_allowances(deps.as_ref(), Some(batch1[1].spender.clone()), Some(2))
        .unwrap()
        .allowances;
    assert_eq!(1, batch2.len());

    let expected = vec![
        AllowanceInfo {
            spender: SPENDER1.to_owned(),
            balance: NativeBalance(vec![s1_allow]),
            expires: Expiration::Never {}, // Not set, expected default
        },
        AllowanceInfo {
            spender: SPENDER2.to_owned(),
            balance: NativeBalance(vec![s2_allow]),
            expires: s2_expire,
        },
        AllowanceInfo {
            spender: SPENDER3.to_owned(),
            balance: NativeBalance(vec![s3_allow]),
            expires: s3_expire,
        },
    ];

    assert_eq!(expected, [batch1, batch2].concat());
}

#[test]
fn contract_query() {
    let Suite { deps, .. } = SuiteConfig::new()
        .with_permissions(SPENDER1, ALL_PERMS)
        .with_permissions(SPENDER2, NO_PERMS)
        .init();

    let permissions = query_permissions(deps.as_ref(), SPENDER1.to_string()).unwrap();
    assert_eq!(permissions, ALL_PERMS);

    let permissions = query_permissions(deps.as_ref(), SPENDER2.to_string()).unwrap();
    assert_eq!(permissions, NO_PERMS);

    // no permission is set. should return false
    let permissions = query_permissions(deps.as_ref(), SPENDER3.to_string()).unwrap();
    assert_eq!(permissions, NO_PERMS);
}

#[test]
fn contract_query_all() {
    let Suite { deps, .. } = SuiteConfig::new()
        .with_permissions(SPENDER1, ALL_PERMS)
        .with_permissions(SPENDER2, NO_PERMS)
        .with_permissions(SPENDER3, NO_PERMS)
        .init();

    let batch1 = query_all_permissions(deps.as_ref(), None, Some(2))
        .unwrap()
        .permissions;
    assert_eq!(batch1.len(), 2);

    let batch2 = query_all_permissions(deps.as_ref(), Some(batch1[1].spender.clone()), Some(2))
        .unwrap()
        .permissions;
    assert_eq!(batch2.len(), 1);

    let expected = vec![
        PermissionsInfo { spender: SPENDER1.to_owned(), permissions: ALL_PERMS },
        PermissionsInfo { spender: SPENDER2.to_owned(), permissions: NO_PERMS },
        PermissionsInfo { spender: SPENDER3.to_owned(), permissions: NO_PERMS },
    ];

    assert_eq!([batch1, batch2].concat(), expected);
}

#[test]
fn query_admins() {
    let Suite { deps, .. } = SuiteConfig::new().with_admin(ADMIN1).init();

    assert_eq!(
        query_admin_list(deps.as_ref()).unwrap(),
        AdminListResponse {
            admins: vec![OWNER.to_owned(), ADMIN1.to_owned()],
            mutable: true,
        }
    );
}

#[test]
fn update() {
    let Suite { mut deps, owner, .. } = SuiteConfig::new().init();

    execute(
        &mut deps.as_mut(),
        mock_env(),
        owner.clone(),
        ExecuteMsg::UpdateAdmins {
            admins: vec![OWNER.to_owned(), ADMIN1.to_owned(), ADMIN2.to_owned()],
        },
    )
    .unwrap();

    assert_eq!(
        query_admin_list(deps.as_ref()).unwrap(),
        AdminListResponse {
            admins: vec![OWNER.to_owned(), ADMIN1.to_owned(), ADMIN2.to_owned()],
            mutable: true,
        }
    );
}

#[test]
fn non_owner_update() {
    let Suite { mut deps, .. } = SuiteConfig::new().with_admin(ADMIN1).init();
    let info = mock_info(ADMIN1);

    execute(
        &mut deps.as_mut(),
        mock_env(),
        info,
        ExecuteMsg::UpdateAdmins {
            admins: vec![OWNER.to_owned(), ADMIN1.to_owned(), ADMIN2.to_owned()],
        },
    )
    .unwrap();

    assert_eq!(
        query_admin_list(deps.as_ref()).unwrap(),
        AdminListResponse {
            admins: vec![OWNER.to_owned(), ADMIN1.to_owned(), ADMIN2.to_owned()],
            mutable: true,
        }
    );
}

#[test]
fn non_admin_fail_to_update() {
    let Suite { mut deps, .. } = SuiteConfig::new().init();
    let info = mock_info(ADMIN1);

    execute(
        &mut deps.as_mut(),
        mock_env(),
        info,
        ExecuteMsg::UpdateAdmins {
            admins: vec![OWNER.to_owned(), ADMIN1.to_owned(), ADMIN2.to_owned()],
        },
    )
    .unwrap_err();

    assert_eq!(
        query_admin_list(deps.as_ref()).unwrap(),
        AdminListResponse { admins: vec![OWNER.to_owned()], mutable: true }
    );
}

#[test]
fn removed_owner_fail_to_update() {
    let Suite { mut deps, owner, .. } = SuiteConfig::new().init();

    execute(
        &mut deps.as_mut(),
        mock_env(),
        owner.clone(),
        ExecuteMsg::UpdateAdmins { admins: vec![ADMIN1.to_owned()] },
    )
    .unwrap();

    execute(
        &mut deps.as_mut(),
        mock_env(),
        owner,
        ExecuteMsg::UpdateAdmins {
            admins: vec![OWNER.to_owned(), ADMIN1.to_owned(), ADMIN2.to_owned()],
        },
    )
    .unwrap_err();

    assert_eq!(
        query_admin_list(deps.as_ref()).unwrap(),
        AdminListResponse { admins: vec![ADMIN1.to_owned()], mutable: true }
    );
}

#[test]
fn existing_token() {
    let Suite { mut deps, owner, .. } = SuiteConfig::new()
        .with_allowance(SPENDER1, coin(1, TOKEN1))
        .expire_allowances(SPENDER1, Expiration::AtHeight(3))
        .init();

    execute(
        &mut deps.as_mut(),
        mock_env(),
        owner.clone(),
        ExecuteMsg::IncreaseAllowance {
            spender: SPENDER1.to_owned(),
            amount: coin(3, TOKEN1),
            expires: None,
        },
    )
    .unwrap();

    assert_eq!(
        query_all_allowances(deps.as_ref(), None, None).unwrap(),
        AllAllowancesResponse {
            allowances: vec![AllowanceInfo {
                spender: SPENDER1.to_owned(),
                balance: NativeBalance(vec![coin(4, TOKEN1)]),
                expires: Expiration::AtHeight(3),
            }]
        }
    );
}

#[test]
fn with_expiration() {
    let Suite { mut deps, owner, .. } = SuiteConfig::new()
        .with_allowance(SPENDER1, coin(1, TOKEN1))
        .expire_allowances(SPENDER1, Expiration::AtHeight(3))
        .init();

    execute(
        &mut deps.as_mut(),
        mock_env(),
        owner.clone(),
        ExecuteMsg::IncreaseAllowance {
            spender: SPENDER1.to_owned(),
            amount: coin(3, TOKEN1),
            expires: Some(Expiration::AtHeight(10)),
        },
    )
    .unwrap();

    assert_eq!(
        query_all_allowances(deps.as_ref(), None, None).unwrap(),
        AllAllowancesResponse {
            allowances: vec![AllowanceInfo {
                spender: SPENDER1.to_owned(),
                balance: NativeBalance(vec![coin(4, TOKEN1)]),
                expires: Expiration::AtHeight(10),
            }]
        }
    );
}

#[test]
fn new_token_on_existing_spender() {
    let Suite { mut deps, owner, .. } = SuiteConfig::new()
        .with_allowance(SPENDER1, coin(1, TOKEN1))
        .expire_allowances(SPENDER1, Expiration::AtHeight(3))
        .init();

    execute(
        &mut deps.as_mut(),
        mock_env(),
        owner.clone(),
        ExecuteMsg::IncreaseAllowance {
            spender: SPENDER1.to_owned(),
            amount: coin(3, TOKEN2),
            expires: None,
        },
    )
    .unwrap();

    assert_eq!(
        query_all_allowances(deps.as_ref(), None, None).unwrap(),
        AllAllowancesResponse {
            allowances: vec![AllowanceInfo {
                spender: SPENDER1.to_owned(),
                balance: NativeBalance(vec![coin(1, TOKEN1), coin(3, TOKEN2)]),
                expires: Expiration::AtHeight(3),
            }]
        }
    );
}

#[test]
fn new_spender() {
    let Suite { mut deps, owner, .. } = SuiteConfig::new()
        .with_allowance(SPENDER1, coin(1, TOKEN1))
        .init();

    execute(
        &mut deps.as_mut(),
        mock_env(),
        owner.clone(),
        ExecuteMsg::IncreaseAllowance {
            spender: SPENDER2.to_owned(),
            amount: coin(3, TOKEN1),
            expires: None,
        },
    )
    .unwrap();

    assert_eq!(
        query_all_allowances(deps.as_ref(), None, None).unwrap(),
        AllAllowancesResponse {
            allowances: vec![
                AllowanceInfo {
                    spender: SPENDER1.to_owned(),
                    balance: NativeBalance(vec![coin(1, TOKEN1)]),
                    expires: Expiration::Never {},
                },
                AllowanceInfo {
                    spender: SPENDER2.to_owned(),
                    balance: NativeBalance(vec![coin(3, TOKEN1)]),
                    expires: Expiration::Never {},
                }
            ]
        }
    );
}

#[test]
fn new_spender_with_expiration() {
    let Suite { mut deps, owner, .. } = SuiteConfig::new()
        .with_allowance(SPENDER1, coin(1, TOKEN1))
        .init();

    execute(
        &mut deps.as_mut(),
        mock_env(),
        owner.clone(),
        ExecuteMsg::IncreaseAllowance {
            spender: SPENDER2.to_owned(),
            amount: coin(3, TOKEN1),
            expires: Some(Expiration::AtHeight(4)),
        },
    )
    .unwrap();

    assert_eq!(
        query_all_allowances(deps.as_ref(), None, None).unwrap(),
        AllAllowancesResponse {
            allowances: vec![
                AllowanceInfo {
                    spender: SPENDER1.to_owned(),
                    balance: NativeBalance(vec![coin(1, TOKEN1)]),
                    expires: Expiration::Never {},
                },
                AllowanceInfo {
                    spender: SPENDER2.to_owned(),
                    balance: NativeBalance(vec![coin(3, TOKEN1)]),
                    expires: Expiration::AtHeight(4),
                }
            ]
        }
    );
}

#[test]
fn existing_token_partial() {
    let Suite { mut deps, owner, .. } = SuiteConfig::new()
        .with_allowance(SPENDER1, coin(10, TOKEN1))
        .expire_allowances(SPENDER1, Expiration::AtHeight(4))
        .init();

    execute(
        &mut deps.as_mut(),
        mock_env(),
        owner.clone(),
        ExecuteMsg::DecreaseAllowance {
            spender: SPENDER1.to_owned(),
            amount: coin(4, TOKEN1),
            expires: None,
        },
    )
    .unwrap();

    assert_eq!(
        query_all_allowances(deps.as_ref(), None, None).unwrap(),
        AllAllowancesResponse {
            allowances: vec![AllowanceInfo {
                spender: SPENDER1.to_owned(),
                balance: NativeBalance(vec![coin(6, TOKEN1)]),
                expires: Expiration::AtHeight(4),
            }]
        }
    );
}

#[test]
fn existing_token_whole() {
    let Suite { mut deps, owner, .. } = SuiteConfig::new()
        .with_allowance(SPENDER1, coin(10, TOKEN1))
        .with_allowance(SPENDER1, coin(20, TOKEN2))
        .expire_allowances(SPENDER1, Expiration::AtHeight(4))
        .init();

    execute(
        &mut deps.as_mut(),
        mock_env(),
        owner.clone(),
        ExecuteMsg::DecreaseAllowance {
            spender: SPENDER1.to_owned(),
            amount: coin(10, TOKEN1),
            expires: None,
        },
    )
    .unwrap();

    assert_eq!(
        query_all_allowances(deps.as_ref(), None, None).unwrap(),
        AllAllowancesResponse {
            allowances: vec![AllowanceInfo {
                spender: SPENDER1.to_owned(),
                balance: NativeBalance(vec![coin(20, TOKEN2)]),
                expires: Expiration::AtHeight(4),
            }]
        }
    );
}

#[test]
fn existing_token_underflow() {
    let Suite { mut deps, owner, .. } = SuiteConfig::new()
        .with_allowance(SPENDER1, coin(10, TOKEN1))
        .with_allowance(SPENDER1, coin(20, TOKEN2))
        .expire_allowances(SPENDER1, Expiration::AtHeight(4))
        .init();

    execute(
        &mut deps.as_mut(),
        mock_env(),
        owner.clone(),
        ExecuteMsg::DecreaseAllowance {
            spender: SPENDER1.to_owned(),
            amount: coin(15, TOKEN1),
            expires: None,
        },
    )
    .unwrap();

    assert_eq!(
        query_all_allowances(deps.as_ref(), None, None).unwrap(),
        AllAllowancesResponse {
            allowances: vec![AllowanceInfo {
                spender: SPENDER1.to_owned(),
                balance: NativeBalance(vec![coin(20, TOKEN2)]),
                expires: Expiration::AtHeight(4),
            }]
        }
    );
}

#[test]
fn last_existing_token_whole() {
    let Suite { mut deps, owner, .. } = SuiteConfig::new()
        .with_allowance(SPENDER1, coin(10, TOKEN1))
        .expire_allowances(SPENDER1, Expiration::AtHeight(4))
        .init();

    execute(
        &mut deps.as_mut(),
        mock_env(),
        owner.clone(),
        ExecuteMsg::DecreaseAllowance {
            spender: SPENDER1.to_owned(),
            amount: coin(10, TOKEN1),
            expires: None,
        },
    )
    .unwrap();

    assert_eq!(
        query_all_allowances(deps.as_ref(), None, None).unwrap(),
        AllAllowancesResponse { allowances: vec![] }
    );
}

#[test]
fn contract_with_expiration() {
    let Suite { mut deps, owner, .. } = SuiteConfig::new()
        .with_allowance(SPENDER1, coin(10, TOKEN1))
        .expire_allowances(SPENDER1, Expiration::AtHeight(4))
        .init();

    execute(
        &mut deps.as_mut(),
        mock_env(),
        owner.clone(),
        ExecuteMsg::DecreaseAllowance {
            spender: SPENDER1.to_owned(),
            amount: coin(4, TOKEN1),
            expires: Some(Expiration::AtHeight(10)),
        },
    )
    .unwrap();

    assert_eq!(
        query_all_allowances(deps.as_ref(), None, None).unwrap(),
        AllAllowancesResponse {
            allowances: vec![AllowanceInfo {
                spender: SPENDER1.to_owned(),
                balance: NativeBalance(vec![coin(6, TOKEN1)]),
                expires: Expiration::AtHeight(10),
            }]
        }
    );
}

#[test]
fn non_exisiting_token() {
    let Suite { mut deps, owner, .. } = SuiteConfig::new()
        .with_allowance(SPENDER1, coin(10, TOKEN1))
        .expire_allowances(SPENDER1, Expiration::AtHeight(4))
        .init();

    execute(
        &mut deps.as_mut(),
        mock_env(),
        owner.clone(),
        ExecuteMsg::DecreaseAllowance {
            spender: SPENDER1.to_owned(),
            amount: coin(4, TOKEN2),
            expires: None,
        },
    )
    .unwrap_err();

    assert_eq!(
        query_all_allowances(deps.as_ref(), None, None).unwrap(),
        AllAllowancesResponse {
            allowances: vec![AllowanceInfo {
                spender: SPENDER1.to_owned(),
                balance: NativeBalance(vec![coin(10, TOKEN1)]),
                expires: Expiration::AtHeight(4),
            }]
        }
    );
}

#[test]
fn non_exisiting_spender() {
    let Suite { mut deps, owner, .. } = SuiteConfig::new()
        .with_allowance(SPENDER1, coin(10, TOKEN1))
        .init();

    execute(
        &mut deps.as_mut(),
        mock_env(),
        owner.clone(),
        ExecuteMsg::DecreaseAllowance {
            spender: SPENDER2.to_owned(),
            amount: coin(4, TOKEN1),
            expires: None,
        },
    )
    .unwrap_err();

    assert_eq!(
        query_all_allowances(deps.as_ref(), None, None).unwrap(),
        AllAllowancesResponse {
            allowances: vec![AllowanceInfo {
                spender: SPENDER1.to_owned(),
                balance: NativeBalance(vec![coin(10, TOKEN1)]),
                expires: Expiration::Never {},
            }]
        }
    );
}

#[test]
fn execute_checks() {
    let mut deps = mock_dependencies(&[]);

    let owner = "admin0001";
    let admins = vec![owner, "admin0002"];

    let spender1 = "spender0001";
    let spender2 = "spender0002";
    let initial_spenders = vec![spender1];

    let denom1 = "token1";
    let amount1 = 1111;
    let allow1 = coin(amount1, denom1);
    let initial_allowances = vec![allow1];

    let expires_never = Expiration::Never {};
    let initial_expirations = vec![expires_never];

    let info = mock_info(owner);
    setup_test_case(
        &mut deps,
        &info,
        &admins,
        &initial_spenders,
        &initial_allowances,
        &initial_expirations,
    );

    // Create Send message
    let msgs: Vec<CosmosMsg<Empty>> = vec![CosmosMsg::Bank(BankMsg::Send {
        to_address: spender2.to_string(),
        amount: coins(1000, "token1"),
    })];

    let execute_msg = ExecuteMsg::Execute { msgs: msgs.clone() };

    // spender2 cannot spend funds (no initial allowance)
    let info = mock_info(spender2);
    let err = execute(&mut deps.as_mut(), mock_env(), info, execute_msg.clone()).unwrap_err();
    assert_eq!(err, ContractError::NoAllowance {});

    // But spender1 can (he has enough funds)
    let info = mock_info(spender1);
    let res = execute(&mut deps.as_mut(), mock_env(), info.clone(), execute_msg.clone()).unwrap();
    let msgs: Vec<_> = msgs.into_iter().map(SubMsg::new).collect();
    assert_eq!(res.messages, msgs);
    assert_eq!(
        res.attributes,
        vec![
            attr("action", "execute".to_string()),
            attr("owner", spender1.to_string())
        ]
    );

    // And then cannot (not enough funds anymore)
    let err = execute(&mut deps.as_mut(), mock_env(), info, execute_msg.clone()).unwrap_err();
    assert!(matches!(err, ContractError::Std(StdError::Overflow { .. })));

    // Owner / admins can do anything (at the contract level)
    let info = mock_info(owner);
    let res = execute(&mut deps.as_mut(), mock_env(), info, execute_msg).unwrap();
    assert_eq!(res.messages, msgs);
    assert_eq!(
        res.attributes,
        vec![
            attr("action", "execute".to_string()),
            attr("owner", owner.to_string())
        ]
    );

    // For admins, even other message types are allowed
    let other_msgs = vec![CosmosMsg::Custom(Empty {})];
    let execute_msg = ExecuteMsg::Execute { msgs: other_msgs.clone() };

    let info = mock_info(owner);
    let res = execute(&mut deps.as_mut(), mock_env(), info, execute_msg.clone()).unwrap();
    assert_eq!(
        res.messages,
        other_msgs.into_iter().map(SubMsg::new).collect::<Vec<_>>()
    );
    assert_eq!(
        res.attributes,
        vec![
            attr("action", "execute".to_string()),
            attr("owner", owner.to_string())
        ]
    );

    // But not for mere mortals
    let info = mock_info(spender1);
    let err = execute(&mut deps.as_mut(), mock_env(), info, execute_msg).unwrap_err();
    assert_eq!(err, ContractError::MessageTypeRejected {});
}

#[test]
fn staking_permission_checks() {
    let mut deps = mock_dependencies(&[]);

    let owner = "admin0001";
    let admins = vec![owner.to_string()];

    // spender1 has every permission to stake
    let spender1 = "spender0001";
    // spender2 do not have permission
    let spender2 = "spender0002";
    let denom = "token1";
    let amount = 10000;
    let coin1 = coin(amount, denom);

    let god_mode = Permissions {
        delegate: true,
        redelegate: true,
        undelegate: true,
        withdraw: true,
    };

    let info = mock_info(owner);
    // Instantiate a contract with admins
    let instantiate_msg = InstantiateMsg { admins, mutable: true };
    instantiate(&mut deps.as_mut(), mock_env(), info.clone(), instantiate_msg).unwrap();

    let setup_perm_msg1 = ExecuteMsg::SetPermissions {
        spender: spender1.to_string(),
        permissions: god_mode,
    };
    execute(&mut deps.as_mut(), mock_env(), info.clone(), setup_perm_msg1).unwrap();

    let setup_perm_msg2 = ExecuteMsg::SetPermissions {
        spender: spender2.to_string(),
        // default is no permission
        permissions: Default::default(),
    };
    execute(&mut deps.as_mut(), mock_env(), info.clone(), setup_perm_msg2).unwrap();

    let msg_delegate: Vec<CosmosMsg<Empty>> = vec![CosmosMsg::Staking(StakingMsg::Delegate {
        validator: "validator1".into(),
        amount: coin1.clone(),
    })];
    let msg_redelegate = vec![CosmosMsg::Staking(StakingMsg::Redelegate {
        src_validator: "validator1".into(),
        dst_validator: "validator2".into(),
        amount: coin1.clone(),
    })];
    let msg_undelegate = vec![CosmosMsg::Staking(StakingMsg::Undelegate {
        validator: "validator1".into(),
        amount: coin1,
    })];
    let msg_withdraw = vec![CosmosMsg::Distribution(
        DistributionMsg::WithdrawDelegatorReward { validator: "validator1".into() },
    )];

    let msgs = vec![
        msg_delegate.clone(),
        msg_redelegate.clone(),
        msg_undelegate.clone(),
        msg_withdraw.clone(),
    ];

    // spender1 can execute
    for msg in &msgs {
        let info = mock_info(spender1);
        let res = execute(
            &mut deps.as_mut(),
            mock_env(),
            info,
            ExecuteMsg::Execute { msgs: msg.clone() },
        );
        assert!(res.is_ok())
    }

    // spender2 cannot execute (no permission)
    for msg in &msgs {
        let info = mock_info(spender2);
        let res = execute(
            &mut deps.as_mut(),
            mock_env(),
            info.clone(),
            ExecuteMsg::Execute { msgs: msg.clone() },
        );
        assert!(res.is_err())
    }

    // test mixed permissions
    let spender3 = "spender0003";
    let setup_perm_msg3 = ExecuteMsg::SetPermissions {
        spender: spender3.to_string(),
        permissions: Permissions {
            delegate: false,
            redelegate: true,
            undelegate: true,
            withdraw: false,
        },
    };
    execute(&mut deps.as_mut(), mock_env(), info, setup_perm_msg3).unwrap();
    let info = mock_info(spender3);
    let res = execute(
        &mut deps.as_mut(),
        mock_env(),
        info.clone(),
        ExecuteMsg::Execute { msgs: msg_delegate },
    );
    assert!(res.is_err());
    let res = execute(
        &mut deps.as_mut(),
        mock_env(),
        info.clone(),
        ExecuteMsg::Execute { msgs: msg_redelegate },
    );
    assert!(res.is_ok());
    let res = execute(
        &mut deps.as_mut(),
        mock_env(),
        info.clone(),
        ExecuteMsg::Execute { msgs: msg_undelegate },
    );
    assert!(res.is_ok());
    let res = execute(
        &mut deps.as_mut(),
        mock_env(),
        info,
        ExecuteMsg::Execute { msgs: msg_withdraw },
    );
    assert!(res.is_err())
}

// tests permissions and allowances are independent features and does not affect each other
#[test]
fn permissions_allowances_independent() {
    let mut deps = mock_dependencies(&[]);

    let owner = "admin0001";
    let admins = vec![owner.to_string()];

    // spender1 has every permission to stake
    let spender1 = "spender0001";
    let spender2 = "spender0002";
    let denom = "token1";
    let amount = 10000;
    let coin = coin(amount, denom);

    let allow = Allowance {
        balance: NativeBalance(vec![coin.clone()]),
        expires: Expiration::Never {},
    };
    let perm = Permissions {
        delegate: true,
        redelegate: false,
        undelegate: false,
        withdraw: true,
    };

    let info = mock_info(owner);
    // Instantiate a contract with admins
    let instantiate_msg = InstantiateMsg { admins, mutable: true };
    instantiate(&mut deps.as_mut(), mock_env(), info.clone(), instantiate_msg).unwrap();

    // setup permission and then allowance and check if changed
    let setup_perm_msg = ExecuteMsg::SetPermissions {
        spender: spender1.to_string(),
        permissions: perm,
    };
    execute(&mut deps.as_mut(), mock_env(), info.clone(), setup_perm_msg).unwrap();

    let setup_allowance_msg = ExecuteMsg::IncreaseAllowance {
        spender: spender1.to_string(),
        amount: coin.clone(),
        expires: None,
    };
    execute(&mut deps.as_mut(), mock_env(), info.clone(), setup_allowance_msg).unwrap();

    let res_perm = query_permissions(deps.as_ref(), spender1.to_string()).unwrap();
    assert_eq!(perm, res_perm);
    let res_allow = query_allowance(deps.as_ref(), spender1.to_string()).unwrap();
    assert_eq!(allow, res_allow);

    // setup allowance and then permission and check if changed
    let setup_allowance_msg = ExecuteMsg::IncreaseAllowance {
        spender: spender2.to_string(),
        amount: coin,
        expires: None,
    };
    execute(&mut deps.as_mut(), mock_env(), info.clone(), setup_allowance_msg).unwrap();

    let setup_perm_msg = ExecuteMsg::SetPermissions {
        spender: spender2.to_string(),
        permissions: perm,
    };
    execute(&mut deps.as_mut(), mock_env(), info, setup_perm_msg).unwrap();

    let res_perm = query_permissions(deps.as_ref(), spender2.to_string()).unwrap();
    assert_eq!(perm, res_perm);
    let res_allow = query_allowance(deps.as_ref(), spender2.to_string()).unwrap();
    assert_eq!(allow, res_allow);
}

#[test]
fn can_execute_query_works() {
    let mut deps = mock_dependencies(&[]);

    let owner = "admin007";
    let spender = "spender808";
    let anyone = "anyone";

    let info = mock_info(owner);
    // spender has allowance of 55000 ushell
    setup_test_case(
        &mut deps,
        &info,
        &[owner],
        &[spender],
        &coins(55000, "ushell"),
        &[Expiration::Never {}],
    );

    let perm = Permissions {
        delegate: true,
        redelegate: true,
        undelegate: false,
        withdraw: false,
    };

    save_permissions(&mut deps.as_mut(), &spender.to_string(), &perm);

    // let us make some queries... different msg types by owner and by other
    let send_msg = CosmosMsg::Bank(BankMsg::Send {
        to_address: anyone.to_string(),
        amount: coins(12345, "ushell"),
    });
    let send_msg_large = CosmosMsg::Bank(BankMsg::Send {
        to_address: anyone.to_string(),
        amount: coins(1234567, "ushell"),
    });
    let staking_delegate_msg = CosmosMsg::Staking(StakingMsg::Delegate {
        validator: anyone.to_string(),
        amount: coin(70000, "ureef"),
    });
    let staking_withdraw_msg = CosmosMsg::Distribution(DistributionMsg::WithdrawDelegatorReward {
        validator: anyone.to_string(),
    });

    // owner can send big or small
    let res = query_can_execute(deps.as_ref(), owner.to_string(), send_msg.clone()).unwrap();
    assert!(res.can_execute);
    let res = query_can_execute(deps.as_ref(), owner.to_string(), send_msg_large.clone()).unwrap();
    assert!(res.can_execute);
    // owner can stake
    let res = query_can_execute(deps.as_ref(), owner.to_string(), staking_delegate_msg.clone())
        .unwrap();
    assert!(res.can_execute);

    // spender can send small
    let res = query_can_execute(deps.as_ref(), spender.to_string(), send_msg.clone()).unwrap();
    assert!(res.can_execute);
    // not too big
    let res =
        query_can_execute(deps.as_ref(), spender.to_string(), send_msg_large.clone()).unwrap();
    assert!(!res.can_execute);
    // spender can send staking msgs if permissioned
    let res = query_can_execute(deps.as_ref(), spender.to_string(), staking_delegate_msg.clone())
        .unwrap();
    assert!(res.can_execute);
    let res = query_can_execute(deps.as_ref(), spender.to_string(), staking_withdraw_msg.clone())
        .unwrap();
    assert!(!res.can_execute);

    // random person cannot do anything
    let res = query_can_execute(deps.as_ref(), anyone.to_string(), send_msg).unwrap();
    assert!(!res.can_execute);
    let res = query_can_execute(deps.as_ref(), anyone.to_string(), send_msg_large).unwrap();
    assert!(!res.can_execute);
    let res = query_can_execute(deps.as_ref(), anyone.to_string(), staking_delegate_msg).unwrap();
    assert!(!res.can_execute);
    let res = query_can_execute(deps.as_ref(), anyone.to_string(), staking_withdraw_msg).unwrap();
    assert!(!res.can_execute);
}
