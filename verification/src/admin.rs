//! The admins of the contract, and the version that it records. Both are kept
//! by `cw1_whitelist` and `cw2`.

use cosmwasm_std::{Deps, DepsMut, Env, StdError};
use vstd::prelude::*;
use vstd::utf8::encode_utf8;

use crate::error::ContractError;
use crate::msg::{AdminListResponse, InstantiateMsg};
use crate::state::{addresses_mut, contents, contents_mut, entry, snapshot_mut, Snapshot};
use crate::types::{attribute_views, Attribute, MessageInfo};

verus! {

/// The block and the contract's own address. It is carried through as it comes.
#[verifier::external_type_specification]
#[verifier::external_body]
pub struct ExEnv(cosmwasm_std::Env);

/// The admins, and whether they can still change.
#[derive(Clone, Debug, PartialEq)]
pub struct AdminList {
    pub admins: Vec<String>,
    pub mutable: bool,
}

/// What an `AdminList` stands for.
pub struct AdminListView {
    pub admins: Seq<Seq<char>>,
    pub mutable: bool,
}

/// What a list of texts stands for.
pub open spec fn text_views(texts: Seq<String>) -> Seq<Seq<char>> {
    texts.map_values(|t: String| t@)
}

impl View for AdminList {
    type V = AdminListView;

    open spec fn view(&self) -> AdminListView {
        AdminListView { admins: text_views(self.admins@), mutable: self.mutable }
    }
}

impl AdminListView {
    /// Whether an address is an admin.
    pub open spec fn is_admin(self, addr: Seq<char>) -> bool {
        self.admins.contains(addr)
    }

    /// Whether an address may change the admins.
    pub open spec fn can_modify(self, addr: Seq<char>) -> bool {
        self.mutable && self.is_admin(addr)
    }
}

impl AdminList {
    /// Whether an address is an admin.
    pub fn is_admin(&self, addr: &String) -> (res: bool)
        ensures
            res == self@.is_admin(addr@),
            res <==> exists|i: int|
                0 <= i < self.admins@.len() && (#[trigger] self.admins@[i])@ == addr@,
    {
        for i in 0..self.admins.len()
            invariant
                forall|j: int| 0 <= j < i ==> (#[trigger] self.admins@[j])@ != addr@,
                forall|j: int| 0 <= j < i ==> self@.admins[j] != addr@,
        {
            if self.admins[i] == *addr {
                assert(self@.admins[i as int] == addr@);
                return true;
            }
        }
        false
    }
}

/// The key of the admins.
pub open spec fn admin_list_key() -> Seq<u8> {
    encode_utf8("admin_list"@)
}

/// The bytes that `cosmwasm_std::to_vec` makes of the admins.
pub uninterp spec fn admin_list_json(list: AdminListView) -> Seq<u8>;

/// What `cw_storage_plus::Item::load` makes of the entry of the admins. A
/// missing entry is an error.
pub uninterp spec fn admin_list_loaded(entry: Option<Seq<u8>>) -> Result<AdminListView, StdError>;

/// The key of the recorded version.
pub open spec fn version_key() -> Seq<u8> {
    encode_utf8("contract_info"@)
}

/// The bytes that `cosmwasm_std::to_vec` makes of a contract's name and version.
pub uninterp spec fn version_json(contract: Seq<char>, version: Seq<char>) -> Seq<u8>;

/// What `cw_storage_plus::Item::load` makes of the entry of the version.
pub uninterp spec fn version_loaded(entry: Option<Seq<u8>>) -> Result<
    (Seq<char>, Seq<char>),
    StdError,
>;

impl Snapshot {
    /// The admins, if their entry is there and parses.
    pub open spec fn admin_list(self) -> Result<AdminListView, StdError> {
        admin_list_loaded(entry(self.storage, admin_list_key()))
    }

    /// The recorded name and version, if their entry is there and parses.
    pub open spec fn version(self) -> Result<(Seq<char>, Seq<char>), StdError> {
        version_loaded(entry(self.storage, version_key()))
    }
}

/// A value that was loaded.
pub open spec fn loaded<V>(value: V) -> Result<V, StdError> {
    Ok(value)
}

/// What loaded admins stand for.
pub open spec fn admin_list_result(res: Result<AdminList, StdError>) -> Result<
    AdminListView,
    StdError,
> {
    match res {
        Ok(list) => Ok(list@),
        Err(e) => Err(e),
    }
}

/// Calls `cw_storage_plus::Item::load` on `cw1_whitelist::state::ADMIN_LIST`.
#[verifier::external_body]
pub(crate) fn load_admin_list(deps: Deps) -> (res: Result<AdminList, StdError>)
    ensures
        admin_list_result(res) == admin_list_loaded(entry(contents(deps), admin_list_key())),
{
    let list = cw1_whitelist::state::ADMIN_LIST.load(deps.storage)?;
    Ok(AdminList {
        admins: list.admins.into_iter().map(|a| a.into()).collect(),
        mutable: list.mutable,
    })
}

/// What a queried list of admins stands for.
pub open spec fn admin_list_response(res: Result<AdminListResponse, StdError>) -> Result<
    AdminListView,
    StdError,
> {
    match res {
        Ok(list) => Ok(list@),
        Err(e) => Err(e),
    }
}

/// Calls `cw1_whitelist::contract::query_admin_list`: the admins as loaded.
#[verifier::external_body]
pub(crate) fn whitelist_query_admin_list(deps: Deps) -> (res: Result<AdminListResponse, StdError>)
    ensures
        admin_list_response(res) == admin_list_loaded(entry(contents(deps), admin_list_key())),
{
    let list = cw1_whitelist::contract::query_admin_list(deps)?;
    Ok(AdminListResponse { admins: list.admins, mutable: list.mutable })
}

/// What the chain answers for each of some addresses, or its first error.
pub open spec fn validated(
    addresses: Map<Seq<char>, Result<Seq<char>, StdError>>,
    texts: Seq<Seq<char>>,
) -> Result<Seq<Seq<char>>, StdError>
    decreases texts.len(),
{
    if texts.len() == 0 {
        Ok(Seq::empty())
    } else {
        match validated(addresses, texts.drop_last()) {
            Err(e) => Err(e),
            Ok(addrs) => match addresses[texts.last()] {
                Err(e) => Err(e),
                Ok(addr) => Ok(addrs.push(addr)),
            },
        }
    }
}

/// Calls `cw1_whitelist::contract::instantiate`: records the version of that
/// crate, checks the admins, and writes them. It answers without attributes.
#[verifier::external_body]
pub(crate) fn whitelist_instantiate(
    deps: &mut DepsMut,
    env: Env,
    info: &MessageInfo,
    msg: InstantiateMsg,
) -> (res: Result<Vec<Attribute>, StdError>)
    ensures
        match (validated(addresses_mut(*old(deps)), text_views(msg.admins@)), res) {
            (Ok(admins), Ok(attributes)) => {
                &&& contents_mut(*final(deps)) == contents_mut(*old(deps)).insert(
                    version_key(),
                    version_json("crates.io:cw1-whitelist"@, "0.7.0"@),
                ).insert(
                    admin_list_key(),
                    admin_list_json(AdminListView { admins, mutable: msg.mutable }),
                )
                &&& snapshot_mut(*final(deps)).admin_list() == loaded(
                    AdminListView { admins, mutable: msg.mutable },
                )
                &&& attributes@.len() == 0
            },
            (Err(err), Err(e)) => {
                &&& e == err
                &&& contents_mut(*final(deps)) == contents_mut(*old(deps)).insert(
                    version_key(),
                    version_json("crates.io:cw1-whitelist"@, "0.7.0"@),
                )
            },
            _ => false,
        },
        addresses_mut(*final(deps)) == addresses_mut(*old(deps)),
{
    let sender = cosmwasm_std::Addr::unchecked(info.sender.as_str());
    let funds = info.funds.iter().map(
        |c| cosmwasm_std::Coin { denom: c.denom.clone(), amount: c.amount.into() },
    ).collect();
    let msg = cw1_whitelist::msg::InstantiateMsg { admins: msg.admins, mutable: msg.mutable };
    let info = cosmwasm_std::MessageInfo { sender, funds };
    let res = cw1_whitelist::contract::instantiate(deps.branch(), env, info, msg)?;
    Ok(res.attributes.into_iter().map(|a| Attribute { key: a.key, value: a.value }).collect())
}

/// The admins, when they can no longer change.
pub open spec fn frozen(list: AdminListView) -> AdminListView {
    AdminListView { admins: list.admins, mutable: false }
}

/// Calls `cw1_whitelist::contract::execute_freeze`: where the sender may change
/// the admins, nobody may from now on.
#[verifier::external_body]
pub(crate) fn whitelist_freeze(deps: &mut DepsMut, env: Env, info: &MessageInfo) -> (res: Result<
    Vec<Attribute>,
    ContractError,
>)
    ensures
        match (snapshot_mut(*old(deps)).admin_list(), res) {
            (Ok(list), Ok(attributes)) => {
                &&& list.can_modify(info.sender@)
                &&& contents_mut(*final(deps)) == contents_mut(*old(deps)).insert(
                    admin_list_key(),
                    admin_list_json(frozen(list)),
                )
                &&& snapshot_mut(*final(deps)).admin_list() == loaded(frozen(list))
                &&& attribute_views(attributes@) == seq![("action"@, "freeze"@)]
            },
            (Ok(list), Err(e)) => {
                &&& !list.can_modify(info.sender@)
                &&& e == (ContractError::Unauthorized {  })
                &&& contents_mut(*final(deps)) == contents_mut(*old(deps))
            },
            (Err(err), Err(e)) => {
                &&& e == ContractError::Std(err)
                &&& contents_mut(*final(deps)) == contents_mut(*old(deps))
            },
            (Err(_), Ok(_)) => false,
        },
        addresses_mut(*final(deps)) == addresses_mut(*old(deps)),
{
    let sender = cosmwasm_std::Addr::unchecked(info.sender.as_str());
    let funds = info.funds.iter().map(
        |c| cosmwasm_std::Coin { denom: c.denom.clone(), amount: c.amount.into() },
    ).collect();
    let info = cosmwasm_std::MessageInfo { sender, funds };
    match cw1_whitelist::contract::execute_freeze(deps.branch(), env, info) {
        Ok(res) => Ok(res.attributes.into_iter().map(
            |a| Attribute { key: a.key, value: a.value },
        ).collect()),
        Err(cw1_whitelist::ContractError::Std(e)) => Err(ContractError::Std(e)),
        Err(cw1_whitelist::ContractError::Unauthorized {  }) => Err(
            ContractError::Unauthorized {  },
        ),
    }
}

/// The admins after an update.
pub open spec fn replaced(list: AdminListView, admins: Seq<Seq<char>>) -> AdminListView {
    AdminListView { admins, mutable: list.mutable }
}

/// Calls `cw1_whitelist::contract::execute_update_admins`: where the sender may
/// change the admins, and the chain takes all the new ones, they become the
/// admins.
#[verifier::external_body]
pub(crate) fn whitelist_update_admins(
    deps: &mut DepsMut,
    env: Env,
    info: &MessageInfo,
    admins: Vec<String>,
) -> (res: Result<Vec<Attribute>, ContractError>)
    ensures
        match (
            snapshot_mut(*old(deps)).admin_list(),
            validated(addresses_mut(*old(deps)), text_views(admins@)),
            res,
        ) {
            (Ok(list), Ok(addrs), Ok(attributes)) => {
                &&& list.can_modify(info.sender@)
                &&& contents_mut(*final(deps)) == contents_mut(*old(deps)).insert(
                    admin_list_key(),
                    admin_list_json(replaced(list, addrs)),
                )
                &&& snapshot_mut(*final(deps)).admin_list() == loaded(replaced(list, addrs))
                &&& attribute_views(attributes@) == seq![("action"@, "update_admins"@)]
            },
            (Ok(list), checked, Err(e)) => {
                &&& contents_mut(*final(deps)) == contents_mut(*old(deps))
                &&& match checked {
                    Err(err) if list.can_modify(info.sender@) => e == ContractError::Std(err),
                    _ => !list.can_modify(info.sender@) && e == (ContractError::Unauthorized {  }),
                }
            },
            (Err(err), _, Err(e)) => {
                &&& e == ContractError::Std(err)
                &&& contents_mut(*final(deps)) == contents_mut(*old(deps))
            },
            _ => false,
        },
        addresses_mut(*final(deps)) == addresses_mut(*old(deps)),
{
    let sender = cosmwasm_std::Addr::unchecked(info.sender.as_str());
    let funds = info.funds.iter().map(
        |c| cosmwasm_std::Coin { denom: c.denom.clone(), amount: c.amount.into() },
    ).collect();
    let info = cosmwasm_std::MessageInfo { sender, funds };
    match cw1_whitelist::contract::execute_update_admins(deps.branch(), env, info, admins) {
        Ok(res) => Ok(res.attributes.into_iter().map(
            |a| Attribute { key: a.key, value: a.value },
        ).collect()),
        Err(cw1_whitelist::ContractError::Std(e)) => Err(ContractError::Std(e)),
        Err(cw1_whitelist::ContractError::Unauthorized {  }) => Err(
            ContractError::Unauthorized {  },
        ),
    }
}

/// Calls `cw2::set_contract_version`: records a contract's name and version.
/// What is written parses back, and writing it does not fail.
#[verifier::external_body]
pub(crate) fn set_contract_version(deps: &mut DepsMut, contract: &str, version: &str) -> (res:
    Result<(), StdError>)
    ensures
        res is Ok,
        contents_mut(*final(deps)) == contents_mut(*old(deps)).insert(
            version_key(),
            version_json(contract@, version@),
        ),
        version_loaded(entry(contents_mut(*final(deps)), version_key())) == loaded(
            (contract@, version@),
        ),
        addresses_mut(*final(deps)) == addresses_mut(*old(deps)),
{
    cw2::set_contract_version(deps.storage, contract, version)
}

/// What a recorded name and version stand for.
pub open spec fn version_result(res: Result<(String, String), StdError>) -> Result<
    (Seq<char>, Seq<char>),
    StdError,
> {
    match res {
        Ok((contract, version)) => Ok((contract@, version@)),
        Err(e) => Err(e),
    }
}

/// Calls `cw2::get_contract_version`: the recorded name and version.
#[verifier::external_body]
pub(crate) fn get_contract_version(deps: Deps) -> (res: Result<(String, String), StdError>)
    ensures
        version_result(res) == version_loaded(entry(contents(deps), version_key())),
{
    let found = cw2::get_contract_version(deps.storage)?;
    Ok((found.contract, found.version))
}

} // verus!
