//! What the contract keeps in the storage of its chain, and how it reads and
//! writes it.

use cosmwasm_std::{Deps, DepsMut, Empty, Order, StdError};
use cw_storage_plus::Bound;
use vstd::prelude::*;
use vstd::utf8::{decode_utf8, encode_utf8, is_ascii_chars_encode_utf8, valid_utf8};

use crate::balance::NativeBalance;
use crate::json::{
    allowance_json, allowance_parsed, parse_allowance, parse_permissions, permissions_json,
    permissions_parsed, permissions_read_back, text_bytes, write_allowance, write_permissions,
};
use crate::pages::{is_next, is_page, lemma_end_page, lemma_extend_page, listed, resume, Storage};
use crate::text::{truth, truth_text};
use crate::types::CoinView;

verus! {

/// When an allowance ends. The contract records it; it is the caller's to heed.
#[derive(Clone, Copy, Debug, PartialEq, Eq, Structural)]
pub enum Expiration {
    /// At a block height.
    AtHeight(u64),
    /// At a time, in nanoseconds since the epoch.
    AtTime(u64),
    Never {},
}

/// The coins that an account may send, and until when.
#[derive(Clone, Debug, PartialEq)]
pub struct Allowance {
    pub balance: NativeBalance,
    pub expires: Expiration,
}

/// What an `Allowance` stands for.
pub struct AllowanceView {
    pub balance: Seq<CoinView>,
    pub expires: Expiration,
}

impl View for Allowance {
    type V = AllowanceView;

    open spec fn view(&self) -> AllowanceView {
        AllowanceView { balance: self.balance@, expires: self.expires }
    }
}

/// The allowance of an account to which none was given.
pub open spec fn no_allowance() -> AllowanceView {
    AllowanceView { balance: Seq::empty(), expires: Expiration::Never {  } }
}

impl Default for Allowance {
    fn default() -> (res: Allowance)
        ensures
            res@ == no_allowance(),
    {
        let res = Allowance { balance: NativeBalance(Vec::new()), expires: Expiration::Never {  } };
        assert(res@.balance =~= Seq::empty());
        res
    }
}

/// The messages that an account may relay.
#[derive(Clone, Copy, Debug, PartialEq, Eq, Structural)]
pub struct Permissions {
    pub delegate: bool,
    pub redelegate: bool,
    pub undelegate: bool,
    pub withdraw: bool,
}

/// The permissions of an account to which none were given.
pub open spec fn no_permissions() -> Permissions {
    Permissions { delegate: false, redelegate: false, undelegate: false, withdraw: false }
}

impl Default for Permissions {
    fn default() -> (res: Permissions)
        ensures
            res == no_permissions(),
    {
        Permissions { delegate: false, redelegate: false, undelegate: false, withdraw: false }
    }
}

impl Permissions {
    /// The permissions in words.
    pub open spec fn words(self) -> Seq<char> {
        "staking: { delegate: "@ + truth(self.delegate) + ", redelegate: "@ + truth(self.redelegate)
            + ", undelegate: "@ + truth(self.undelegate) + ", withdraw: "@ + truth(self.withdraw)
            + " }"@
    }

    /// Writes the permissions in words.
    pub fn to_string(&self) -> (res: String)
        ensures
            res@ == self.words(),
    {
        let mut res = "staking: { delegate: ".to_owned();
        res.append(truth_text(self.delegate));
        res.append(", redelegate: ");
        res.append(truth_text(self.redelegate));
        res.append(", undelegate: ");
        res.append(truth_text(self.undelegate));
        res.append(", withdraw: ");
        res.append(truth_text(self.withdraw));
        res.append(" }");
        res
    }
}

/// The chain as a query sees it.
#[verifier::external_type_specification]
#[verifier::external_body]
pub struct ExDeps<'a>(cosmwasm_std::Deps<'a>);

/// The chain as a call that may write sees it.
#[verifier::external_type_specification]
#[verifier::external_body]
pub struct ExDepsMut<'a>(cosmwasm_std::DepsMut<'a>);

/// What the storage of a chain holds: the bytes that `Storage::get` gives for
/// each key that it finds.
pub uninterp spec fn contents(deps: Deps) -> Map<Seq<u8>, Seq<u8>>;

/// What the storage of a chain holds, seen by a call that may write.
pub uninterp spec fn contents_mut(deps: DepsMut) -> Map<Seq<u8>, Seq<u8>>;

/// What `Api::addr_validate` of a chain answers for each text. By the contract
/// of `Api` the answer does not change.
pub uninterp spec fn addresses(deps: Deps) -> Map<Seq<char>, Result<Seq<char>, StdError>>;

/// What `Api::addr_validate` of a chain answers, seen by a call that may write.
pub uninterp spec fn addresses_mut(deps: DepsMut) -> Map<Seq<char>, Result<Seq<char>, StdError>>;

/// All that the contract sees of a chain.
#[verifier::ext_equal]
pub struct Snapshot {
    pub storage: Storage,
    pub addresses: Map<Seq<char>, Result<Seq<char>, StdError>>,
}

/// The chain as a query sees it.
pub open spec fn snapshot(deps: Deps) -> Snapshot {
    Snapshot { storage: contents(deps), addresses: addresses(deps) }
}

/// The chain as a call that may write sees it.
pub open spec fn snapshot_mut(deps: DepsMut) -> Snapshot {
    Snapshot { storage: contents_mut(deps), addresses: addresses_mut(deps) }
}

/// Calls `cosmwasm_std::DepsMut::as_ref`: the same chain, for reading.
#[verifier::external_body]
pub(crate) fn reading<'a>(deps: &'a DepsMut) -> (res: Deps<'a>)
    ensures
        contents(res) == contents_mut(*deps),
        addresses(res) == addresses_mut(*deps),
{
    deps.as_ref()
}

/// What a text or an error stands for.
pub open spec fn text_result(res: Result<String, StdError>) -> Result<Seq<char>, StdError> {
    match res {
        Ok(text) => Ok(text@),
        Err(e) => Err(e),
    }
}

/// Calls `cosmwasm_std::Api::addr_validate` of the chain.
#[verifier::external_body]
pub(crate) fn addr_validate(deps: Deps, human: &String) -> (res: Result<String, StdError>)
    ensures
        text_result(res) == addresses(deps)[human@],
{
    deps.api.addr_validate(human.as_str()).map(|addr| addr.into())
}

/// The error of a key that is not UTF-8 text.
pub uninterp spec fn not_text(key: Seq<u8>) -> StdError;

/// Calls `String::from_utf8`, and turns its error into one of `cosmwasm_std`.
#[verifier::external_body]
pub(crate) fn key_text(key: Vec<u8>) -> (res: Result<String, StdError>)
    ensures
        match res {
            Ok(text) => valid_utf8(key@) && text@ == decode_utf8(key@),
            Err(e) => !valid_utf8(key@) && e == not_text(key@),
        },
{
    String::from_utf8(key).map_err(|e| e.into())
}

/// An entry that is there: what its bytes parse to.
pub open spec fn present<V>(parsed: Result<V, StdError>) -> Result<Option<V>, StdError> {
    match parsed {
        Ok(value) => Ok(Some(value)),
        Err(e) => Err(e),
    }
}

/// An entry that is there and parses to a value.
pub open spec fn holding<V>(value: V) -> Result<Option<V>, StdError> {
    Ok(Some(value))
}

/// The entry of a storage under a key, if there is one.
pub open spec fn entry(storage: Storage, key: Seq<u8>) -> Option<Seq<u8>> {
    if storage.contains_key(key) {
        Some(storage[key])
    } else {
        None
    }
}

/// The prefix of all keys of a map: the length of its name in two bytes, and the
/// name.
pub open spec fn namespace(name: Seq<char>) -> Seq<u8> {
    let length = encode_utf8(name).len();
    seq![(length / 256) as u8, (length % 256) as u8] + encode_utf8(name)
}

/// The prefix of all keys of allowances.
pub open spec fn allowance_namespace() -> Seq<u8> {
    namespace("allowances"@)
}

/// The key of an account's allowance.
pub open spec fn allowance_key(addr: Seq<char>) -> Seq<u8> {
    allowance_namespace() + encode_utf8(addr)
}

/// The prefix of all keys of permissions.
pub open spec fn permissions_namespace() -> Seq<u8> {
    namespace("permissions"@)
}

/// The key of an account's permissions.
pub open spec fn permissions_key(addr: Seq<char>) -> Seq<u8> {
    permissions_namespace() + encode_utf8(addr)
}

/// Whether the length of a map's name can be written in two bytes.
pub open spec fn name_fits(name: Seq<char>) -> bool {
    encode_utf8(name).len() <= 0xffff
}

/// The names of the contract's maps are short.
pub proof fn lemma_names_fit()
    ensures
        encode_utf8("allowances"@).len() == 10,
        encode_utf8("permissions"@).len() == 11,
{
    reveal_strlit("allowances");
    reveal_strlit("permissions");
    is_ascii_chars_encode_utf8("allowances"@);
    is_ascii_chars_encode_utf8("permissions"@);
}

impl Snapshot {
    /// The allowance of an account, if it has one and its entry parses.
    pub open spec fn allowance(self, addr: Seq<char>) -> Result<Option<AllowanceView>, StdError> {
        if self.storage.contains_key(allowance_key(addr)) {
            present(allowance_parsed(self.storage[allowance_key(addr)]))
        } else {
            Ok(None)
        }
    }

    /// The permissions of an account, if it has any and their entry parses.
    pub open spec fn permissions(self, addr: Seq<char>) -> Result<Option<Permissions>, StdError> {
        if self.storage.contains_key(permissions_key(addr)) {
            present(permissions_parsed(self.storage[permissions_key(addr)]))
        } else {
            Ok(None)
        }
    }
}

/// What bytes that were found stand for.
pub open spec fn bytes_found(res: Option<Vec<u8>>) -> Option<Seq<u8>> {
    match res {
        Some(bytes) => Some(bytes@),
        None => None,
    }
}

/// Calls `cosmwasm_std::Storage::get` for the key that `cw_storage_plus::Map::key`
/// makes: the entry of a map under a key, if there is one. A name that is longer
/// than two bytes can say makes `Map::key` panic.
#[verifier::external_body]
fn get_entry(deps: Deps, name: &str, key: &Vec<u8>) -> (res: Option<Vec<u8>>)
    requires
        name_fits(name@),
    ensures
        bytes_found(res) == entry(contents(deps), namespace(name@) + key@),
{
    let map: cw_storage_plus::Map<&[u8], Empty> = cw_storage_plus::Map::new(name);
    deps.storage.get(&map.key(key.as_slice()))
}

/// Calls `cosmwasm_std::Storage::set` for the key that `cw_storage_plus::Map::key`
/// makes: writes the entry of a map under a key, and no other. Storages panic on
/// an empty value.
#[verifier::external_body]
fn set_entry(deps: &mut DepsMut, name: &str, key: &Vec<u8>, value: &Vec<u8>)
    requires
        name_fits(name@),
        value@.len() > 0,
    ensures
        contents_mut(*final(deps)) == contents_mut(*old(deps)).insert(
            namespace(name@) + key@,
            value@,
        ),
        addresses_mut(*final(deps)) == addresses_mut(*old(deps)),
{
    let map: cw_storage_plus::Map<&[u8], Empty> = cw_storage_plus::Map::new(name);
    deps.storage.set(&map.key(key.as_slice()), value.as_slice())
}

/// Calls `cw_storage_plus::Map::remove`: removes the entry of a map under a key,
/// and no other.
#[verifier::external_body]
fn remove_entry(deps: &mut DepsMut, name: &str, key: &Vec<u8>)
    requires
        name_fits(name@),
    ensures
        contents_mut(*final(deps)) == contents_mut(*old(deps)).remove(namespace(name@) + key@),
        addresses_mut(*final(deps)) == addresses_mut(*old(deps)),
{
    let map: cw_storage_plus::Map<&[u8], Empty> = cw_storage_plus::Map::new(name);
    map.remove(deps.storage, key.as_slice())
}

/// What the start of a page stands for.
pub open spec fn key_view(start: Option<Vec<u8>>) -> Option<Seq<u8>> {
    match start {
        Some(key) => Some(key@),
        None => None,
    }
}

/// Calls `cw_storage_plus::Map::keys`, upwards from above `start`, and takes the
/// first key: the least one.
#[verifier::external_body]
fn next_key(deps: Deps, name: &str, start: &Option<Vec<u8>>) -> (res: Option<Vec<u8>>)
    requires
        name_fits(name@),
    ensures
        match res {
            None => forall|k: Seq<u8>|
                !#[trigger] listed(contents(deps), namespace(name@), key_view(*start), k),
            Some(key) => is_next(contents(deps), namespace(name@), key_view(*start), key@),
        },
{
    let map: cw_storage_plus::Map<&[u8], Empty> = cw_storage_plus::Map::new(name);
    let min = start.as_ref().map(|key| Bound::Exclusive(key.clone()));
    map.keys(deps.storage, min, None, Order::Ascending).next()
}

/// What a found allowance stands for.
pub open spec fn allowance_found(res: Result<Option<Allowance>, StdError>) -> Result<
    Option<AllowanceView>,
    StdError,
> {
    match res {
        Ok(Some(allowance)) => Ok(Some(allowance@)),
        Ok(None) => Ok(None),
        Err(e) => Err(e),
    }
}

/// Loads an account's allowance, if it has one.
pub fn load_allowance(deps: Deps, addr: &String) -> (res: Result<Option<Allowance>, StdError>)
    ensures
        allowance_found(res) == snapshot(deps).allowance(addr@),
{
    proof {
        lemma_names_fit();
    }
    match get_entry(deps, "allowances", &text_bytes(addr.as_str())) {
        None => Ok(None),
        Some(bytes) => match parse_allowance(&bytes) {
            Ok(allowance) => Ok(Some(allowance)),
            Err(e) => Err(e),
        },
    }
}

/// Saves an account's allowance.
pub fn save_allowance(deps: &mut DepsMut, addr: &String, allowance: &Allowance) -> (res: Result<
    (),
    StdError,
>)
    ensures
        res is Ok,
        contents_mut(*final(deps)) == contents_mut(*old(deps)).insert(
            allowance_key(addr@),
            allowance_json(allowance@),
        ),
        addresses_mut(*final(deps)) == addresses_mut(*old(deps)),
        snapshot_mut(*final(deps)).allowance(addr@) == holding(allowance@),
{
    proof {
        lemma_names_fit();
    }
    match write_allowance(allowance) {
        Ok(bytes) => {
            set_entry(deps, "allowances", &text_bytes(addr.as_str()), &bytes);
            Ok(())
        },
        Err(e) => Err(e),
    }
}

/// Removes an account's allowance.
pub fn remove_allowance(deps: &mut DepsMut, addr: &String)
    ensures
        contents_mut(*final(deps)) == contents_mut(*old(deps)).remove(allowance_key(addr@)),
        addresses_mut(*final(deps)) == addresses_mut(*old(deps)),
{
    proof {
        lemma_names_fit();
    }
    remove_entry(deps, "allowances", &text_bytes(addr.as_str()))
}

/// Loads an account's permissions, if it has any.
pub fn load_permissions(deps: Deps, addr: &String) -> (res: Result<Option<Permissions>, StdError>)
    ensures
        res == snapshot(deps).permissions(addr@),
{
    proof {
        lemma_names_fit();
    }
    match get_entry(deps, "permissions", &text_bytes(addr.as_str())) {
        None => Ok(None),
        Some(bytes) => match parse_permissions(&bytes) {
            Ok(permissions) => Ok(Some(permissions)),
            Err(e) => Err(e),
        },
    }
}

/// Saves an account's permissions.
pub fn save_permissions(deps: &mut DepsMut, addr: &String, permissions: &Permissions)
    ensures
        contents_mut(*final(deps)) == contents_mut(*old(deps)).insert(
            permissions_key(addr@),
            permissions_json(*permissions),
        ),
        addresses_mut(*final(deps)) == addresses_mut(*old(deps)),
        snapshot_mut(*final(deps)).permissions(addr@) == holding(*permissions),
{
    proof {
        lemma_names_fit();
        permissions_read_back(*permissions);
    }
    set_entry(
        deps,
        "permissions",
        &text_bytes(addr.as_str()),
        &write_permissions(permissions),
    )
}

/// The keys of some entries.
pub open spec fn entry_keys(entries: Seq<(Vec<u8>, Vec<u8>)>) -> Seq<Seq<u8>> {
    entries.map_values(|e: (Vec<u8>, Vec<u8>)| e.0@)
}

/// A page of a map: its keys, each with its entry.
pub fn page_entries(deps: Deps, name: &str, start: Option<Vec<u8>>, limit: usize) -> (res: Vec<
    (Vec<u8>, Vec<u8>),
>)
    requires
        name_fits(name@),
    ensures
        is_page(
            contents(deps),
            namespace(name@),
            key_view(start),
            limit as nat,
            entry_keys(res@),
        ),
        forall|i: int|
            0 <= i < res@.len() ==> contents(deps)[namespace(name@) + (#[trigger] res@[i]).0@]
                == res@[i].1@,
{
    let mut res: Vec<(Vec<u8>, Vec<u8>)> = Vec::new();
    let mut last = start;
    let ghost storage = contents(deps);
    let ghost first = key_view(start);
    assert(entry_keys(res@) =~= Seq::empty());
    while res.len() < limit
        invariant_except_break
            res.len() <= limit,
            key_view(last) == resume(first, entry_keys(res@)),
            is_page(storage, namespace(name@), first, res@.len(), entry_keys(res@)),
        invariant
            name_fits(name@),
            storage == contents(deps),
            forall|i: int|
                0 <= i < res@.len() ==> storage[namespace(name@) + (#[trigger] res@[i]).0@]
                    == res@[i].1@,
        ensures
            is_page(storage, namespace(name@), first, limit as nat, entry_keys(res@)),
        decreases limit - res.len(),
    {
        let ghost keys = entry_keys(res@);
        match next_key(deps, name, &last) {
            None => {
                proof {
                    lemma_end_page(storage, namespace(name@), first, limit as nat, keys);
                }
                break;
            },
            Some(key) => {
                proof {
                    lemma_extend_page(storage, namespace(name@), first, keys, key@);
                }
                if let Some(value) = get_entry(deps, name, &key) {
                    last = Some(key.clone());
                    res.push((key, value));
                    assert(entry_keys(res@) =~= keys.push(key@));
                }
            },
        }
    }
    res
}

} // verus!
