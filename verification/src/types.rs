//! Coins, messages and responses of a chain, as plain values.

use vstd::prelude::*;

verus! {

/// An amount of one native coin.
#[derive(Clone, Debug, PartialEq)]
pub struct Coin {
    pub denom: String,
    pub amount: u128,
}

/// What a `Coin` stands for.
pub struct CoinView {
    pub denom: Seq<char>,
    pub amount: u128,
}

impl View for Coin {
    type V = CoinView;

    open spec fn view(&self) -> CoinView {
        CoinView { denom: self.denom@, amount: self.amount }
    }
}

/// What a list of coins stands for.
pub open spec fn coin_views(coins: Seq<Coin>) -> Seq<CoinView> {
    coins.map_values(|c: Coin| c@)
}

/// A message without content, for chains without messages of their own.
#[derive(Clone, Debug, PartialEq)]
pub struct Empty {}

/// A message that a contract asks its chain to run. `T` is the chain's own
/// kind of message.
#[derive(Clone, Debug, PartialEq)]
pub enum CosmosMsg<T> {
    Bank(BankMsg),
    Custom(T),
    Staking(StakingMsg),
    Distribution(DistributionMsg),
    Wasm(WasmMsg),
}

/// Messages of the bank module.
#[derive(Clone, Debug, PartialEq)]
pub enum BankMsg {
    /// Sends coins from the contract to an address.
    Send { to_address: String, amount: Vec<Coin> },
    /// Burns coins of the contract.
    Burn { amount: Vec<Coin> },
}

/// Messages of the staking module.
#[derive(Clone, Debug, PartialEq)]
pub enum StakingMsg {
    Delegate { validator: String, amount: Coin },
    Undelegate { validator: String, amount: Coin },
    Redelegate { src_validator: String, dst_validator: String, amount: Coin },
}

/// Messages of the distribution module.
#[derive(Clone, Debug, PartialEq)]
pub enum DistributionMsg {
    SetWithdrawAddress { address: String },
    WithdrawDelegatorReward { validator: String },
}

/// Messages of the wasm module.
#[derive(Clone, Debug, PartialEq)]
pub enum WasmMsg {
    Execute { contract_addr: String, msg: Vec<u8>, funds: Vec<Coin> },
    Instantiate {
        admin: Option<String>,
        code_id: u64,
        msg: Vec<u8>,
        funds: Vec<Coin>,
        label: String,
    },
    Migrate { contract_addr: String, new_code_id: u64, msg: Vec<u8> },
    UpdateAdmin { contract_addr: String, admin: String },
    ClearAdmin { contract_addr: String },
}

/// When the contract hears back from a message.
#[derive(Clone, Copy, Debug, PartialEq, Eq, Structural)]
pub enum ReplyOn {
    Always,
    Error,
    Success,
    Never,
}

/// A message together with how its result is reported.
#[derive(Clone, Debug, PartialEq)]
pub struct SubMsg<T> {
    pub id: u64,
    pub msg: CosmosMsg<T>,
    pub gas_limit: Option<u64>,
    pub reply_on: ReplyOn,
}

impl<T> SubMsg<T> {
    /// A message whose result nobody hears of.
    pub open spec fn fire_and_forget(msg: CosmosMsg<T>) -> SubMsg<T> {
        SubMsg { id: 0, msg, gas_limit: None, reply_on: ReplyOn::Never }
    }

    /// Makes a message whose result nobody hears of.
    pub fn new(msg: CosmosMsg<T>) -> (res: SubMsg<T>)
        ensures
            res == SubMsg::fire_and_forget(msg),
            res.msg == msg,
            res.id == 0,
            res.gas_limit is None,
            res.reply_on is Never,
    {
        SubMsg { id: 0, msg, gas_limit: None, reply_on: ReplyOn::Never }
    }
}

/// A key and a value that an event carries.
#[derive(Clone, Debug, PartialEq)]
pub struct Attribute {
    pub key: String,
    pub value: String,
}

impl View for Attribute {
    type V = (Seq<char>, Seq<char>);

    open spec fn view(&self) -> (Seq<char>, Seq<char>) {
        (self.key@, self.value@)
    }
}

/// What a list of attributes stands for.
pub open spec fn attribute_views(attributes: Seq<Attribute>) -> Seq<(Seq<char>, Seq<char>)> {
    attributes.map_values(|a: Attribute| a@)
}

/// Makes an attribute.
pub fn attr(key: &str, value: String) -> (res: Attribute)
    ensures
        res@ == (key@, value@),
        res.key@ == key@,
        res.value@ == value@,
{
    Attribute { key: key.to_owned(), value }
}

/// What a contract answers: the messages to run next, and the attributes of
/// its event. It raises no further events and returns no data.
#[derive(Clone, Debug, PartialEq)]
pub struct Response<T> {
    pub messages: Vec<SubMsg<T>>,
    pub attributes: Vec<Attribute>,
}

/// Who calls the contract, and the coins that come with the call.
#[derive(Clone, Debug, PartialEq)]
pub struct MessageInfo {
    pub sender: String,
    pub funds: Vec<Coin>,
}

} // verus!
